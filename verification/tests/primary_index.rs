use bittice::canonical::{canonical_bytes, hash_key};
use bittice::primary_index::PrimaryIndex;
use bittice::primary_index_io::{
    decode_places, encode_places, load_primary_index, migrate_places, save_primary_index,
};
use bittice::textmap::TextMap;
use std::borrow::Cow;
use std::collections::HashMap;
use xxhash_rust::xxh3::xxh3_128;

#[test]
fn known_nfc_nfd_pairs() {
    let cafe_nfc = "caf\u{00e9}";
    let cafe_nfd = "cafe\u{0301}";
    assert_eq!(
        canonical_bytes(cafe_nfc),
        canonical_bytes(cafe_nfd),
        "café NFC/NFD must produce identical bytes"
    );

    let n_tilde_nfc = "\u{00f1}";
    let n_tilde_nfd = "n\u{0303}";
    assert_eq!(
        canonical_bytes(n_tilde_nfc),
        canonical_bytes(n_tilde_nfd),
        "ñ NFC/NFD must produce identical bytes"
    );

    let hangul_nfc = "\u{d55c}";
    let hangul_nfd = "\u{1112}\u{1161}\u{11ab}";
    assert_eq!(
        canonical_bytes(hangul_nfc),
        canonical_bytes(hangul_nfd),
        "한 NFC/NFD must produce identical bytes"
    );

    let viet_nfc = "\u{1ebf}";
    let viet_nfd = "e\u{0302}\u{0301}";
    assert_eq!(
        canonical_bytes(viet_nfc),
        canonical_bytes(viet_nfd),
        "ế NFC/NFD must produce identical bytes"
    );

    let omega_letter = "\u{03a9}";
    let ohm_sign = "\u{2126}";
    assert_eq!(
        canonical_bytes(omega_letter),
        canonical_bytes(ohm_sign),
        "Ω (U+03A9) and Ω (U+2126) collapse under NFC via canonical decomposition"
    );

    let fi_ligature = "\u{fb01}";
    let fi_plain = "fi";
    assert_ne!(
        canonical_bytes(fi_ligature),
        canonical_bytes(fi_plain),
        "ﬁ (U+FB01) must NOT collapse to 'fi' — that would be NFKC, not NFC"
    );

    let circled_one = "\u{2460}";
    let plain_one = "1";
    assert_ne!(
        canonical_bytes(circled_one),
        canonical_bytes(plain_one),
        "① (U+2460) must NOT collapse to '1' — that would be NFKC, not NFC"
    );
}

#[test]
fn empty_string() {
    let result = canonical_bytes("");
    assert_eq!(result.as_ref(), b"");
    assert!(
        matches!(result, Cow::Borrowed(_)),
        "empty string should return Borrowed"
    );
}

#[test]
fn canonical_form_is_stable() {
    for s in ["", "plain", "cafe\u{0301}", "\u{2126}", "e\u{0302}\u{0301}x"] {
        let first = canonical_bytes(s);
        let again = std::str::from_utf8(&first).expect("valid UTF-8").to_string();
        assert_eq!(canonical_bytes(&again).as_ref(), first.as_ref());
    }
    assert_eq!(canonical_bytes("cafe\u{0301}").as_ref(), "caf\u{00e9}".as_bytes());
}

#[test]
fn ascii_text_is_not_copied() {
    assert!(matches!(canonical_bytes("a Z0_./:-"), Cow::Borrowed(_)));
    assert!(matches!(canonical_bytes("cafe\u{0301}"), Cow::Owned(_)));
}

#[test]
fn hash_is_that_of_the_canonical_bytes() {
    assert_eq!(hash_key("cafe\u{0301}"), xxh3_128("caf\u{00e9}".as_bytes()));
    assert_ne!(hash_key("a"), hash_key("b"));
}

#[test]
fn basic_api_roundtrip() {
    let mut idx = PrimaryIndex::new();
    assert!(idx.is_empty());
    assert_eq!(idx.len(), 0);

    assert_eq!(idx.insert("pk1", (1, 0)), None);
    assert_eq!(idx.insert("pk2", (1, 1)), None);
    assert_eq!(idx.insert("pk3", (2, 0)), None);
    assert_eq!(idx.len(), 3);
    assert!(!idx.is_empty());

    assert_eq!(idx.get("pk1"), Some((1, 0)));
    assert_eq!(idx.get("pk2"), Some((1, 1)));
    assert_eq!(idx.get("pk3"), Some((2, 0)));
    assert_eq!(idx.get("missing"), None);

    assert!(idx.contains_key("pk1"));
    assert!(!idx.contains_key("missing"));

    assert_eq!(idx.insert("pk1", (5, 99)), Some((1, 0)));
    assert_eq!(idx.get("pk1"), Some((5, 99)));
    assert_eq!(idx.len(), 3);

    assert_eq!(idx.remove("pk2"), Some((1, 1)));
    assert_eq!(idx.remove("pk2"), None);
    assert_eq!(idx.len(), 2);
    assert!(!idx.contains_key("pk2"));
}

#[test]
fn serialize_deserialize_roundtrip() {
    let mut idx = PrimaryIndex::new();
    idx.insert("alpha", (10, 0));
    idx.insert("beta", (20, 1));
    idx.insert("gamma", (30, 2));

    let bytes = bincode::serialize(idx.inner()).expect("serialize");
    let map: HashMap<u128, (u64, u32)> = bincode::deserialize(&bytes).expect("deserialize");
    let decoded = PrimaryIndex::from_map(map);

    assert_eq!(decoded.len(), 3);
    assert_eq!(decoded.get("alpha"), Some((10, 0)));
    assert_eq!(decoded.get("beta"), Some((20, 1)));
    assert_eq!(decoded.get("gamma"), Some((30, 2)));
}

#[test]
fn iter_mut_allows_mutation() {
    let mut idx = PrimaryIndex::new();
    idx.insert("pk1", (1, 0));
    idx.insert("pk2", (2, 1));

    idx.iter_mut(|_, (seg_id, row)| (seg_id + 100, row));

    assert_eq!(idx.get("pk1"), Some((101, 0)));
    assert_eq!(idx.get("pk2"), Some((102, 1)));
}

#[test]
fn insert_raw_works() {
    let mut idx = PrimaryIndex::new();
    let hash = xxh3_128(&canonical_bytes("test_pk"));
    idx.insert_raw(hash, (42, 7));

    assert_eq!(idx.get("test_pk"), Some((42, 7)));
}

#[test]
fn hash_is_deterministic() {
    let pk = "my_test_pk_value";
    let h1 = PrimaryIndex::hash(pk);
    let h2 = PrimaryIndex::hash(pk);
    assert_eq!(h1, h2);
}

#[test]
fn nfc_nfd_same_hash() {
    let nfc = "caf\u{00e9}";
    let nfd = "cafe\u{0301}";
    assert_eq!(
        PrimaryIndex::hash(nfc),
        PrimaryIndex::hash(nfd),
        "NFC and NFD forms must hash to the same value"
    );
}

#[test]
fn distinct_pks_distinct_hashes() {
    let pks = ["pk1", "pk2", "pk3", "", "a", "b"];
    let mut hashes: Vec<u128> = pks.iter().map(|pk| PrimaryIndex::hash(pk)).collect();
    let len_before = hashes.len();
    hashes.sort();
    hashes.dedup();
    assert_eq!(hashes.len(), len_before, "all test PKs should have distinct hashes");
}

#[test]
fn with_capacity_works() {
    let idx = PrimaryIndex::with_capacity(100);
    assert!(idx.is_empty());
    assert_eq!(idx.len(), 0);
}

#[test]
fn key_in_another_form_is_found_and_removed() {
    let mut idx = PrimaryIndex::new();
    idx.insert("caf\u{00e9}", (3, 4));
    assert_eq!(idx.get("cafe\u{0301}"), Some((3, 4)));
    assert_eq!(idx.remove("cafe\u{0301}"), Some((3, 4)));
    assert_eq!(idx.get("caf\u{00e9}"), None);
}

fn make_test_index() -> PrimaryIndex {
    let mut idx = PrimaryIndex::new();
    idx.insert("pk_alpha", (10, 0));
    idx.insert("pk_beta", (20, 1));
    idx.insert("pk_gamma", (30, 2));
    idx
}

fn with_header(version: u8, payload: Vec<u8>) -> Vec<u8> {
    let mut file = b"BTPI".to_vec();
    file.extend_from_slice(&[version, 0, 0, 0]);
    file.extend_from_slice(&payload);
    file
}

#[test]
fn save_load_roundtrip_v2() {
    let original = make_test_index();
    let raw = save_primary_index(&original).expect("save");
    assert_eq!(&raw[..4], b"BTPI", "magic must be present");
    assert_eq!(raw[4], 2, "version must be 2");

    let loaded = match load_primary_index(&raw) {
        Ok(idx) => idx,
        Err(e) => panic!("load: {}", e.describe()),
    };
    assert_eq!(loaded.len(), original.len());
    assert_eq!(loaded.get("pk_alpha"), Some((10, 0)));
    assert_eq!(loaded.get("pk_beta"), Some((20, 1)));
    assert_eq!(loaded.get("pk_gamma"), Some((30, 2)));
}

fn load(file: &[u8]) -> PrimaryIndex {
    match load_primary_index(file) {
        Ok(idx) => idx,
        Err(e) => panic!("load: {}", e.describe()),
    }
}

#[test]
fn load_v1_file_with_header() {
    let mut raw: HashMap<String, (u64, u32)> = HashMap::new();
    raw.insert("v1_pk1".to_string(), (1, 0));
    raw.insert("v1_pk2".to_string(), (2, 1));
    let file = with_header(1, bincode::serialize(&raw).unwrap());

    let loaded = load(&file);
    assert_eq!(loaded.len(), 2);
    assert_eq!(loaded.get("v1_pk1"), Some((1, 0)));
    assert_eq!(loaded.get("v1_pk2"), Some((2, 1)));
}

#[test]
fn load_legacy_file_without_header() {
    let mut raw: HashMap<String, (u64, u32)> = HashMap::new();
    raw.insert("legacy1".to_string(), (1, 0));
    raw.insert("legacy2".to_string(), (2, 1));
    let file = bincode::serialize(&raw).unwrap();

    let loaded = load(&file);
    assert_eq!(loaded.len(), 2);
    assert_eq!(loaded.get("legacy1"), Some((1, 0)));
    assert_eq!(loaded.get("legacy2"), Some((2, 1)));
}

#[test]
fn load_unknown_version_returns_error() {
    let file = with_header(99, vec![0u8; 16]);
    let result = load_primary_index(&file);
    assert!(result.is_err());
    let err_msg = match result {
        Err(e) => e.describe(),
        Ok(_) => unreachable!(),
    };
    assert!(err_msg.contains("99"), "error must mention version 99, got: {}", err_msg);
}

#[test]
fn silent_migration_legacy_to_v2() {
    let mut raw: HashMap<String, (u64, u32)> = HashMap::new();
    raw.insert("migrated_pk".to_string(), (7, 42));
    let file = bincode::serialize(&raw).unwrap();

    let loaded = load(&file);
    assert_eq!(loaded.get("migrated_pk"), Some((7, 42)));

    let raw_bytes = save_primary_index(&loaded).expect("save v2");
    assert_eq!(&raw_bytes[..4], b"BTPI");
    assert_eq!(raw_bytes[4], 2, "should be v2 after migration save");

    let reloaded = load(&raw_bytes);
    assert_eq!(reloaded.get("migrated_pk"), Some((7, 42)));
}

#[test]
fn migration_v1_header_to_v2() {
    let mut raw: HashMap<String, (u64, u32)> = HashMap::new();
    raw.insert("v1_key".to_string(), (5, 10));
    let file = with_header(1, bincode::serialize(&raw).unwrap());

    let loaded = load(&file);
    assert_eq!(loaded.get("v1_key"), Some((5, 10)));

    let raw_bytes = save_primary_index(&loaded).expect("save v2");
    assert_eq!(raw_bytes[4], 2);

    let reloaded = load(&raw_bytes);
    assert_eq!(reloaded.get("v1_key"), Some((5, 10)));
}

#[test]
fn save_load_empty_index() {
    let idx = PrimaryIndex::new();
    let file = save_primary_index(&idx).expect("save empty");

    let loaded = load(&file);
    assert!(loaded.is_empty());
}

#[test]
fn undecodable_file_is_refused() {
    let result = load_primary_index(&with_header(2, vec![1, 2, 3]));
    match result {
        Err(e) => assert_eq!(e.describe(), "failed to deserialize primary.idx"),
        Ok(_) => panic!("the payload is too short"),
    }
}

#[test]
fn migrated_places_count_collisions() {
    let pairs = vec![
        ("caf\u{00e9}".to_string(), (1u64, 0u32)),
        ("cafe\u{0301}".to_string(), (2, 5)),
        ("x".to_string(), (3, 6)),
    ];
    let (idx, collisions) = migrate_places(&pairs);
    assert_eq!(collisions, 1);
    assert_eq!(idx.len(), 2);
    assert_eq!(idx.get("caf\u{00e9}"), Some((2, 5)));
    assert_eq!(idx.get("x"), Some((3, 6)));
}

#[test]
fn places_of_keys_round_trip() {
    let mut places: TextMap<(u64, u32)> = TextMap::new();
    places.insert("a", (1, 2));
    places.insert("b", (3, 4));
    let bytes = encode_places(&places).expect("encode");
    let map: HashMap<String, (u64, u32)> = bincode::deserialize(&bytes).expect("bincode reads it");
    assert_eq!(map["a"], (1, 2));
    let back = decode_places(&bytes);
    assert_eq!(back.len(), 2);
    assert_eq!(back.get("a"), Some(&(1, 2)));
    assert_eq!(back.get("b"), Some(&(3, 4)));
    assert_eq!(decode_places(&[1, 2]).len(), 0);
}
