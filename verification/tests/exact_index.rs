use bittice::exact_index::{ExactIndex, ExactIndexError};
use bittice::exact_index_io::{load_exact_index, load_exact_index_with_cache, save_exact_index};
use bittice::exact_index_v3::format::{FormatError, IndexEntry, V3Header};
use bittice::exact_index_v3::migrate::migrate_exact_index_to_v3;
use bittice::exact_index_v3::reader::SnapshotReader;
use bittice::exact_index_v3::writer::write_exact_index_v3;
use bittice::rowset::RowSet;
use roaring::RoaringBitmap;
use std::collections::{HashMap, HashSet};

fn rows(ids: &[u32]) -> RowSet {
    RowSet::from_ids(ids)
}

fn describe(e: ExactIndexError) -> String {
    e.describe()
}

#[test]
fn exact_index_basic_api() {
    let mut idx = ExactIndex::new();
    assert!(idx.is_empty());
    assert_eq!(idx.len(), 0);
    assert!(idx.get("foo").is_none());

    let bm = {
        let mut b = RowSet::new();
        b.insert(0);
        b.insert(1);
        b
    };
    idx.insert("foo", vec![(1u64, bm.clone())]);
    assert!(!idx.is_empty());
    assert_eq!(idx.len(), 1);

    let entries = idx.get("foo").expect("should exist");
    assert_eq!(entries.len(), 1);
    assert_eq!(entries[0].0, 1u64);
    assert_eq!(entries[0].1.ids(), bm.ids());

    idx.insert("bar", vec![(2u64, RowSet::new())]);
    assert_eq!(idx.len(), 2);

    assert!(idx.get("missing").is_none());
}

#[test]
fn exact_index_merge_via_merge_segment() {
    let mut idx = ExactIndex::new();

    let mut bm1 = RowSet::new();
    bm1.insert(10);
    idx.merge_segment(1u64, &[("status".to_string(), bm1.clone())]);

    let mut bm2 = RowSet::new();
    bm2.insert(20);
    bm2.insert(21);
    idx.merge_segment(2u64, &[("status".to_string(), bm2.clone())]);

    let entries = idx.get("status").expect("should exist");
    assert_eq!(entries.len(), 2, "two segments should be present");
    assert_eq!(entries[0].0, 1u64);
    assert_eq!(entries[0].1.ids(), bm1.ids());
    assert_eq!(entries[1].0, 2u64);
    assert_eq!(entries[1].1.ids(), bm2.ids());
}

#[test]
fn exact_index_purge_via_purge_segments() {
    let mut idx = ExactIndex::new();

    let seg_ids_to_remove: HashSet<u64> = vec![2u64, 4u64].into_iter().collect();

    for val in &["active", "inactive", "pending"] {
        for seg_id in 1u64..=5u64 {
            let mut bm = RowSet::new();
            bm.insert(seg_id as u32);
            idx.merge_segment(seg_id, &[(val.to_string(), bm)]);
        }
    }

    assert_eq!(idx.get("active").unwrap().len(), 5);

    idx.purge_segments(&seg_ids_to_remove);

    for val in &["active", "inactive", "pending"] {
        let entries = idx.get(val).expect("value should still exist");
        assert_eq!(entries.len(), 3, "only 3 segments should remain for '{}'", val);
        let remaining_ids: Vec<u64> = entries.iter().map(|(id, _)| *id).collect();
        assert!(!remaining_ids.contains(&2), "seg 2 should be removed");
        assert!(!remaining_ids.contains(&4), "seg 4 should be removed");
    }

    assert!(!idx.purge_segments(&seg_ids_to_remove));
}

#[test]
fn exact_index_nfc_nfd_same_hash() {
    let nfc = "caf\u{00e9}";
    let nfd = "cafe\u{0301}";
    assert_eq!(
        ExactIndex::hash(nfc),
        ExactIndex::hash(nfd),
        "NFC and NFD forms must produce the same hash"
    );

    let mut idx = ExactIndex::new();
    let mut bm = RowSet::new();
    bm.insert(1);
    idx.insert(nfd, vec![(1u64, bm)]);

    assert!(
        idx.get(nfc).is_some(),
        "NFC query must find the NFD-inserted entry"
    );
}

#[test]
fn purging_every_segment_removes_the_value() {
    let mut idx = ExactIndex::new();
    idx.insert("x", vec![(1, rows(&[3]))]);
    idx.insert("y", vec![(2, rows(&[4]))]);
    let gone: HashSet<u64> = vec![1u64].into_iter().collect();
    assert!(idx.purge_segments(&gone));
    assert!(idx.get("x").is_none());
    assert_eq!(idx.get("y").unwrap()[0].1.ids(), vec![4]);
    // One list is left and one is noted as removed.
    assert_eq!(idx.len(), 0);
    assert_eq!(idx.segment_ids(), vec![2u64].into_iter().collect::<HashSet<u64>>());
}

#[test]
fn merging_a_segment_twice_joins_its_rows() {
    let mut idx = ExactIndex::new();
    idx.merge_segment(1, &[("v".to_string(), rows(&[1, 2]))]);
    idx.merge_segment(1, &[("v".to_string(), rows(&[2, 9]))]);
    let list = idx.get("v").unwrap();
    assert_eq!(list.len(), 1);
    assert_eq!(list[0].1.ids(), vec![1, 2, 9]);
}

fn make_test_index() -> ExactIndex {
    let mut idx = ExactIndex::new();
    idx.insert("foo", vec![(1u64, rows(&[0, 5]))]);
    idx.insert("bar", vec![(2u64, rows(&[42]))]);
    idx
}

fn bitmap(ids: &[u32]) -> RoaringBitmap {
    ids.iter().copied().collect()
}

fn with_header(version: u8, payload: Vec<u8>) -> Vec<u8> {
    let mut file = b"BTXI".to_vec();
    file.extend_from_slice(&[version, 0, 0, 0]);
    file.extend_from_slice(&payload);
    file
}

fn load(path: &str, file: Vec<u8>) -> ExactIndex {
    load_exact_index(path, file).map_err(describe).expect("load")
}

#[test]
fn io_save_load_roundtrip_v2() {
    let original = make_test_index();
    let raw = save_exact_index(&original).map_err(describe).expect("save");

    assert_eq!(&raw[..4], b"BTXI", "magic must be BTXI");
    assert_eq!(raw[4], 2, "version must be 2 (v2)");

    let mut loaded = load("exact_test.idx", raw);
    assert_eq!(loaded.len(), original.len());

    let foo = loaded.get("foo").expect("foo should exist");
    assert_eq!(foo.len(), 1);
    assert_eq!(foo[0].0, 1u64);
    assert!(foo[0].1.contains(0));
    assert!(foo[0].1.contains(5));

    let bar = loaded.get("bar").expect("bar should exist");
    assert_eq!(bar.len(), 1);
    assert_eq!(bar[0].0, 2u64);
    assert!(bar[0].1.contains(42));
}

#[test]
fn io_load_legacy_no_header() {
    let mut raw: HashMap<String, Vec<(u64, RoaringBitmap)>> = HashMap::new();
    raw.insert("legacy_val".to_string(), vec![(99u64, bitmap(&[7]))]);
    let file = bincode::serialize(&raw).unwrap();

    let mut idx = load("exact_legacy.idx", file);
    assert_eq!(idx.len(), 1);
    let entries = idx.get("legacy_val").expect("legacy_val should exist");
    assert_eq!(entries.len(), 1);
    assert_eq!(entries[0].0, 99u64);
    assert_eq!(entries[0].1.ids(), vec![7]);
}

#[test]
fn io_load_unknown_version() {
    let file = with_header(99, vec![0u8; 16]);
    let result = load_exact_index("exact_unknown.idx", file);
    assert!(result.is_err(), "unknown version should return error");
    let msg = match result {
        Err(e) => e.describe(),
        Ok(_) => unreachable!(),
    };
    assert!(
        msg.contains("99"),
        "error must mention version 99, got: {}",
        msg
    );
}

#[test]
fn io_silent_migration_to_v2() {
    let mut raw: HashMap<String, Vec<(u64, RoaringBitmap)>> = HashMap::new();
    raw.insert("migrated".to_string(), vec![(5u64, bitmap(&[3]))]);
    let file = bincode::serialize(&raw).unwrap();

    let mut loaded = load("exact_migrate.idx", file);
    assert_eq!(loaded.get("migrated").unwrap()[0].0, 5u64);

    let raw_bytes = save_exact_index(&loaded).map_err(describe).expect("save");
    assert_eq!(&raw_bytes[..4], b"BTXI", "after save should have BTXI magic");
    assert_eq!(raw_bytes[4], 2, "version should be 2");

    let mut reloaded = load("exact_migrate.idx", raw_bytes);
    assert_eq!(reloaded.len(), 1);
    let entries = reloaded.get("migrated").expect("migrated should exist");
    assert_eq!(entries[0].0, 5u64);
    assert_eq!(entries[0].1.ids(), vec![3]);
}

#[test]
fn io_load_v1_header() {
    let mut raw: HashMap<String, Vec<(u64, RoaringBitmap)>> = HashMap::new();
    raw.insert("v1_value".to_string(), vec![(7u64, bitmap(&[11]))]);
    let file = with_header(1, bincode::serialize(&raw).unwrap());

    let mut idx = load("exact_v1.idx", file);
    assert_eq!(idx.len(), 1);
    let entries = idx.get("v1_value").expect("v1_value should exist");
    assert_eq!(entries[0].0, 7u64);
    assert_eq!(entries[0].1.ids(), vec![11]);
}

#[test]
fn saved_snapshot_is_read_back() {
    let mut idx = make_test_index();
    let written = match idx.save(Some("exact.idx")) {
        Ok(Some((path, bytes))) => {
            assert_eq!(path, "exact.idx");
            bytes
        }
        Ok(None) => panic!("there is something to save"),
        Err(e) => panic!("{}", e.describe()),
    };
    assert_eq!(&written[..5], b"BTXI\x03");
    assert_eq!(idx.delta_len(), 0);
    assert_eq!(idx.get("foo").unwrap()[0].1.ids(), vec![0, 5]);
    assert!(matches!(idx.save(None), Ok(None)));

    idx.merge_segment(3, &[("foo".to_string(), rows(&[8]))]);
    let mut opened = match ExactIndex::open("exact.idx", Some(written)) {
        Ok(i) => i,
        Err(e) => panic!("{}", e.describe()),
    };
    assert_eq!(opened.len(), 2);
    assert_eq!(opened.get("bar").unwrap()[0].1.ids(), vec![42]);
    assert_eq!(opened.cache_len(), 1);
    assert_eq!(idx.get("foo").unwrap().len(), 2);

    let mut none = match ExactIndex::open("absent.idx", None) {
        Ok(i) => i,
        Err(e) => panic!("{}", e.describe()),
    };
    assert!(none.get("foo").is_none());
}

#[test]
fn saving_without_a_path_is_refused() {
    let mut idx = make_test_index();
    match idx.save(None) {
        Err(ExactIndexError::NoPath) => {}
        _ => panic!("there is no path"),
    }
    assert_eq!(ExactIndexError::NoPath.describe(), "exact index save: no path set");
}

#[test]
fn old_files_become_snapshots() {
    let mut raw: HashMap<String, Vec<(u64, RoaringBitmap)>> = HashMap::new();
    raw.insert("k".to_string(), vec![(1u64, bitmap(&[2, 3]))]);
    let file = with_header(1, bincode::serialize(&raw).unwrap());
    let size = file.len() as u64;
    let (stats, bytes) = match migrate_exact_index_to_v3("a.idx", file) {
        Ok((stats, Some(bytes))) => (stats, bytes),
        Ok((_, None)) => panic!("the file is old"),
        Err(e) => panic!("{}", e.describe()),
    };
    assert_eq!(stats.num_entries, 1);
    assert_eq!(stats.old_size, size);
    assert_eq!(stats.new_size, bytes.len() as u64);
    assert!(!stats.already_v3);
    let mut idx = match ExactIndex::open("a.idx", Some(bytes.clone())) {
        Ok(i) => i,
        Err(e) => panic!("{}", e.describe()),
    };
    assert_eq!(idx.get("k").unwrap()[0].1.ids(), vec![2, 3]);
    match migrate_exact_index_to_v3("a.idx", bytes) {
        Ok((stats, None)) => assert!(stats.already_v3),
        _ => panic!("the file is a snapshot"),
    }
}

#[test]
fn snapshot_finds_each_entry() {
    let entries = vec![
        (5u128, vec![(1u64, rows(&[1]))]),
        (9u128, vec![(1u64, rows(&[2])), (2u64, rows(&[7, 8]))]),
        (700u128, vec![(3u64, rows(&[]))]),
    ];
    let bytes = match write_exact_index_v3(&entries) {
        Ok(b) => b,
        Err(e) => panic!("{}", e.describe()),
    };
    let reader = match SnapshotReader::open("s.idx", bytes) {
        Ok(r) => r,
        Err(e) => panic!("{}", e.describe()),
    };
    assert_eq!(reader.num_entries(), 3);
    assert_eq!(reader.path(), "s.idx");
    let found = match reader.get(9) {
        Ok(Some(l)) => l,
        _ => panic!("9 is in the snapshot"),
    };
    assert_eq!(found.len(), 2);
    assert_eq!(found[1].1.ids(), vec![7, 8]);
    assert!(matches!(reader.get(6), Ok(None)));
    assert_eq!(reader.iter_entries().len(), 3);
}

#[test]
fn bad_snapshots_are_refused() {
    assert!(matches!(
        SnapshotReader::open("s", vec![0; 3]),
        Err(FormatError::TooShort { actual: 3, .. })
    ));
    assert!(matches!(
        SnapshotReader::open("s", vec![0; 200]),
        Err(FormatError::BadMagic { found: [0, 0, 0, 0] })
    ));
    let mut other = vec![0; 200];
    other[..4].copy_from_slice(b"BTXI");
    other[4] = 9;
    let e = match SnapshotReader::open("s", other.clone()) {
        Err(e) => e,
        Ok(_) => panic!("version 9"),
    };
    assert_eq!(
        e.describe(),
        "exact_index v3: unsupported version 9 (this reader only supports v3)"
    );
    other[4] = 3;
    for b in other[8..16].iter_mut() {
        *b = 255;
    }
    assert!(matches!(
        SnapshotReader::open("s", other),
        Err(FormatError::InvalidNumEntries { .. })
    ));
}

#[test]
fn header_and_entry_round_trip() {
    let header = match V3Header::parse(&{
        let entries: Vec<(u128, Vec<(u64, RowSet)>)> = vec![(1, vec![(1, rows(&[1]))])];
        match write_exact_index_v3(&entries) {
            Ok(b) => b,
            Err(e) => panic!("{}", e.describe()),
        }
    }) {
        Ok(h) => h,
        Err(e) => panic!("{}", e.describe()),
    };
    let mut again = Vec::new();
    header.write(&mut again);
    assert_eq!(&again[..4], b"BTXI");
    let entry = IndexEntry { hash: 77, offset: 5, length: 6 };
    let mut bytes = Vec::new();
    entry.write(&mut bytes);
    let back = IndexEntry::parse(&bytes);
    assert_eq!((back.hash, back.offset, back.length), (77, 5, 6));
}

#[test]
fn old_lists_come_back_as_they_were() {
    let mut raw: HashMap<String, Vec<(u64, RoaringBitmap)>> = HashMap::new();
    raw.insert("k".to_string(), vec![(7u64, bitmap(&[11])), (3u64, bitmap(&[1])), (7u64, bitmap(&[12]))]);
    let mut idx = load("old.idx", bincode::serialize(&raw).unwrap());
    let list = idx.get("k").expect("k is there");
    let got: Vec<(u64, Vec<u32>)> = list.iter().map(|(s, r)| (*s, r.ids())).collect();
    assert_eq!(got, vec![(7, vec![11]), (3, vec![1]), (7, vec![12])]);
}

#[test]
fn old_files_that_cannot_be_read_are_told() {
    match migrate_exact_index_to_v3("a.idx", with_header(9, vec![])) {
        Err(ExactIndexError::UnsupportedVersion { found }) => assert_eq!(found, 9),
        _ => panic!("there is no such version"),
    }
    for file in [with_header(2, vec![1]), with_header(1, vec![1]), vec![1, 2, 3]] {
        assert!(matches!(migrate_exact_index_to_v3("a.idx", file), Err(ExactIndexError::Undecodable(_))));
    }
}

#[test]
fn decoded_lists_are_bounded() {
    let mut idx = make_test_index();
    let bytes = match idx.save(Some("exact.idx")) {
        Ok(Some((_, bytes))) => bytes,
        _ => panic!("there is something to save"),
    };
    let mut small = match ExactIndex::open_with_cache("exact.idx", Some(bytes), 1) {
        Ok(i) => i,
        Err(e) => panic!("{}", e.describe()),
    };
    assert_eq!(small.cache_len(), 0);
    assert!(small.get("foo").is_some());
    assert!(small.get("bar").is_some());
    assert!(small.get("missing").is_none());
    assert_eq!(small.cache_len(), 1);
    small.merge_segment(4, &[("bar".to_string(), rows(&[1])), ("new".to_string(), rows(&[2]))]);
    assert_eq!(small.delta_len(), 2);
    assert_eq!(small.cache_len(), 0);
    assert!(small.purge_segments(&HashSet::from([1u64])));
    assert_eq!(small.delta_len(), 3);
    assert!(small.get("foo").is_none());
}

#[test]
fn lists_of_old_files_are_bounded_too() {
    let mut raw: HashMap<String, Vec<(u64, RoaringBitmap)>> = HashMap::new();
    raw.insert("k".to_string(), vec![(7u64, bitmap(&[11]))]);
    let file = bincode::serialize(&raw).unwrap();
    let mut idx = load_exact_index_with_cache("old.idx", file, 2).map_err(describe).expect("load");
    assert_eq!(idx.cache_len(), 0);
    assert_eq!(idx.get("k").expect("k is there")[0].1.ids(), vec![11]);
    assert!(idx.get("l").is_none());
    assert!(load_exact_index_with_cache("old.idx", vec![1, 2, 3], 2).is_err());
}
