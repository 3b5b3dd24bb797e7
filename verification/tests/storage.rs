use bittice::buffer_pool::{
    buffer_pool_limit_bytes, prefetch_budget_available, record_prefetch,
    reset_prefetch_accounting, PrefetchAccount,
};
use bittice::column::{read_exact, read_value, Column};
use bittice::field_index::FieldIndex;
use bittice::hits::{capped_sum, count_rows, intersect_segment_matches, list_ids, page_ids};
use bittice::manifest::{Bounds, Manifest};
use bittice::postings::{decode_postings, encode_postings};
use bittice::row_json::{decode_row, encode_row};
use bittice::rowset::RowSet;
use bittice::segment::{dir_name, segment_id_of, Posting, Segment, SegmentWriter};
use bittice::segment_io::{
    decode_bounds, decode_deleted, decode_index, encode_bounds, encode_deleted, encode_index,
};
use bittice::settings::{
    compact_segment_rows, exact_index_cache_fields, exact_index_cache_per_field,
    index_save_interval, is_truthy, lower_ascii, query_open_lazy_enabled, warm_indices_only_enabled, warm_prefetch_enabled,
};
use bittice::textmap::TextMap;
use bittice::types::{
    compare_filter_value, compare_values, is_nullish, list_values, ComparisonOp, FieldType, Filter,
    LogicalOp, Scalar,
};
use bittice::wal::{decode_op, encode_op, Wal, WalError, WalOperation};
use roaring::RoaringBitmap;
use std::cmp::Ordering;
use std::collections::HashMap;

fn cell(text: &str) -> Scalar {
    Scalar {
        text: text.to_string(),
        number: text.parse::<f64>().ok().map(|n| n.to_bits()),
        date: false,
    }
}

fn filter(field: &str, op: ComparisonOp, value: &str) -> Filter {
    Filter {
        field: field.to_string(),
        op,
        value: cell(value),
        value_to: None,
        field_type: None,
        value_options: vec![],
        members: vec![],
    }
}

fn row(cells: &[(&str, &str)]) -> TextMap<Scalar> {
    let mut r = TextMap::new();
    for (k, v) in cells {
        r.insert(k, cell(v));
    }
    r
}

#[test]
fn budget_blocks_when_over_limit() {
    let mut account = PrefetchAccount { bytes: 0 };
    reset_prefetch_accounting(&mut account);
    let limit = buffer_pool_limit_bytes(Some("1"));
    assert!(prefetch_budget_available(&account, limit, 100));
    record_prefetch(&mut account, 900_000);
    assert!(!prefetch_budget_available(&account, limit, 200_000));
    reset_prefetch_accounting(&mut account);
}

#[test]
fn budget_without_a_limit_is_never_used_up() {
    let mut account = PrefetchAccount { bytes: 0 };
    assert_eq!(buffer_pool_limit_bytes(None), None);
    assert_eq!(buffer_pool_limit_bytes(Some("many")), None);
    assert_eq!(buffer_pool_limit_bytes(Some(" 2 ")), Some(2 * 1024 * 1024));
    record_prefetch(&mut account, u64::MAX / 2);
    assert!(prefetch_budget_available(&account, None, u64::MAX / 2));
    assert!(prefetch_budget_available(&account, Some(10), 0));
    assert!(!prefetch_budget_available(&account, Some(10), 1));
    reset_prefetch_accounting(&mut account);
    assert_eq!(account.bytes, 0);
}

#[test]
fn settings_switch_and_count() {
    for on in ["1", "true", "YES", " on "] {
        assert!(is_truthy(Some(on)));
    }
    for off in ["0", "", "off", "truee"] {
        assert!(!is_truthy(Some(off)));
    }
    assert!(!is_truthy(None));
    assert_eq!(lower_ascii("AbÉ9"), "abÉ9");
    assert!(warm_indices_only_enabled(Some("on")));
    assert!(warm_prefetch_enabled(None, None));
    assert!(!warm_prefetch_enabled(Some("1"), None));
    assert!(warm_prefetch_enabled(Some("1"), Some("1")));
    assert!(!query_open_lazy_enabled(None));
    assert_eq!(index_save_interval(None), 10);
    assert_eq!(index_save_interval(Some(" 3 ")), 3);
    assert_eq!(compact_segment_rows(None), 50_000);
    assert_eq!(exact_index_cache_fields(Some("x")), 8);
}

#[test]
fn column_cells_are_those_of_bincode() {
    let mut column = Column::new();
    column.append("ab");
    column.append("");
    column.append("né");
    let mut data = bincode::serialize("ab").unwrap();
    data.extend(bincode::serialize("").unwrap());
    data.extend(bincode::serialize("né").unwrap());
    assert_eq!(column.data, data);
    let mut offsets = 0u64.to_le_bytes().to_vec();
    offsets.extend(10u64.to_le_bytes());
    offsets.extend(18u64.to_le_bytes());
    assert_eq!(column.offsets, offsets);
    assert_eq!(column.read(0), "ab");
    assert_eq!(column.read(1), "");
    assert_eq!(column.read(2), "né");
    assert_eq!(column.read(3), "");
    assert_eq!(read_value(&column.data[..12], &column.offsets, 2), "");
    assert_eq!(read_exact(&column.data, &column.offsets, 2), Some("né".to_string()));
    assert_eq!(read_exact(&column.data, &column.offsets, 9), None);
}

#[test]
fn cell_that_is_not_utf8_is_read_with_marks() {
    let mut data = 2u64.to_le_bytes().to_vec();
    data.extend([b'a', 0xff]);
    let offsets = 0u64.to_le_bytes().to_vec();
    assert_eq!(read_value(&data, &offsets, 0), "a\u{fffd}");
    assert_eq!(read_exact(&data, &offsets, 0), None);
}

#[test]
fn row_sets_are_sets() {
    let mut a = RowSet::from_ids(&[5, 1, 5]);
    assert_eq!(a.ids(), vec![1, 5]);
    assert!(!a.insert(1));
    assert!(a.insert(9));
    assert_eq!(a.len(), 3);
    let b = RowSet::below(6);
    assert_eq!(b.ids(), vec![0, 1, 2, 3, 4, 5]);
    assert_eq!(a.intersection(&b).ids(), vec![1, 5]);
    let mut c = a.clone();
    c.subtract(&b);
    assert_eq!(c.ids(), vec![9]);
    c.union_with(&b);
    assert_eq!(c.len(), 7);
    assert!(RowSet::new().is_empty());
    assert!(RowSet::below(0).is_empty());
}

#[test]
fn postings_are_those_of_bincode() {
    let list = vec![(4u64, RowSet::from_ids(&[1, 2])), (5, RowSet::new())];
    let bytes = encode_postings(&list).expect("encode");
    let plain: Vec<(u64, RoaringBitmap)> =
        vec![(4, [1u32, 2].into_iter().collect()), (5, RoaringBitmap::new())];
    assert_eq!(bytes, bincode::serialize(&plain).unwrap());
    let back = decode_postings(&bytes).expect("decode");
    assert_eq!(back.len(), 2);
    assert_eq!(back[0].0, 4);
    assert_eq!(back[0].1.ids(), vec![1, 2]);
    assert!(decode_postings(&[1]).is_err());
}

#[test]
fn rows_are_json_objects() {
    let bytes = encode_row(&row(&[("a", "1"), ("b", "x\"y")])).expect("encode");
    let map: HashMap<String, String> = serde_json::from_slice(&bytes).unwrap();
    assert_eq!(map["a"], "1");
    assert_eq!(map["b"], "x\"y");
    let back = decode_row(&bytes);
    assert_eq!(back.len(), 2);
    assert_eq!(back.get("b").unwrap(), "x\"y");
    assert_eq!(decode_row(b"[1]").len(), 0);
}

#[test]
fn log_is_replayed_in_order() {
    let mut log = Wal::open(Vec::new());
    let ops = [
        WalOperation::Insert { id: "a".to_string(), data: vec![1, 2] },
        WalOperation::Delete { id: "b".to_string() },
        WalOperation::Update { id: "c".to_string(), data: vec![] },
    ];
    for op in &ops {
        log.append(op).expect("append");
    }
    let back = match log.replay() {
        Ok(v) => v,
        Err(_) => panic!("the log is whole"),
    };
    assert_eq!(back.len(), 3);
    assert!(matches!(&back[0], WalOperation::Insert { id, data } if id == "a" && data == &[1, 2]));
    assert!(matches!(&back[1], WalOperation::Delete { id } if id == "b"));
    assert!(matches!(&back[2], WalOperation::Update { id, data } if id == "c" && data.is_empty()));
    log.truncate();
    assert!(matches!(log.replay(), Ok(v) if v.is_empty()));
}

#[test]
fn broken_logs_are_refused() {
    let mut wal = Wal::open(Vec::new());
    wal.append(&WalOperation::Delete { id: "abc".to_string() }).expect("append");
    let log = wal.log;
    let cut = log.len() - 1;
    assert!(matches!(Wal::open(log[..cut].to_vec()).replay(), Err(WalError::CutShort)));
    let mut bad = log.clone();
    for b in bad[8..].iter_mut() {
        *b = 0xff;
    }
    assert!(matches!(Wal::open(bad).replay(), Err(WalError::Undecodable)));
    assert!(matches!(Wal::open(Vec::new()).replay(), Ok(v) if v.is_empty()));
    assert!(decode_op(&[9, 9]).is_none());
    let bytes = encode_op(&WalOperation::Delete { id: "k".to_string() }).unwrap();
    assert!(matches!(decode_op(&bytes), Some(WalOperation::Delete { id }) if id == "k"));
}

#[test]
fn segment_files_round_trip() {
    let mut ix: TextMap<Posting> = TextMap::new();
    ix.insert("x", Posting { value: cell("x"), rows: RowSet::from_ids(&[0, 3]) });
    let bytes = encode_index(&ix).expect("encode");
    let plain: HashMap<String, RoaringBitmap> = bincode::deserialize(&bytes).unwrap();
    assert_eq!(plain["x"].iter().collect::<Vec<u32>>(), vec![0, 3]);
    let back = decode_index(&bytes).expect("decode");
    assert_eq!(back.get("x").unwrap().ids(), vec![0, 3]);
    assert!(decode_index(&[1]).is_err());

    let gone = encode_deleted(&RowSet::from_ids(&[7])).expect("encode");
    assert_eq!(decode_deleted(&gone).unwrap().ids(), vec![7]);
    assert!(decode_deleted(&[1, 2]).is_none());

    let mut bounds: TextMap<Bounds> = TextMap::new();
    bounds.insert("f", Bounds { min: cell("1"), max: cell("9") });
    let json = encode_bounds(&bounds).expect("encode");
    let read = decode_bounds(&json);
    assert_eq!(read.get("f").unwrap(), &("1".to_string(), "9".to_string()));
    assert_eq!(decode_bounds(b"no").len(), 0);
}

#[test]
fn field_index_round_trips() {
    let mut ix = FieldIndex::new();
    ix.push("v", 1, RowSet::from_ids(&[2]));
    ix.push("v", 4, RowSet::from_ids(&[3]));
    let bytes = ix.encode().expect("encode");
    let plain: HashMap<String, Vec<(u64, RoaringBitmap)>> = bincode::deserialize(&bytes).unwrap();
    assert_eq!(plain["v"][1].0, 4);
    let back = FieldIndex::decode(&bytes).expect("decode");
    assert_eq!(back.get("v").unwrap().len(), 2);
    assert!(back.get("w").is_none());
}

#[test]
fn values_compare_by_their_type() {
    assert_eq!(compare_values(&cell("9"), &cell("10"), Some(FieldType::Int)), Some(Ordering::Less));
    assert_eq!(
        compare_values(&cell("b9"), &cell("b10"), Some(FieldType::String)),
        Some(Ordering::Greater)
    );
    assert_eq!(compare_values(&cell("9"), &cell("10"), None), Some(Ordering::Less));
    assert_eq!(compare_values(&cell("x"), &cell("10"), Some(FieldType::Int)), None);
    assert_eq!(compare_values(&cell("a"), &cell("b"), None), Some(Ordering::Less));
    assert_eq!(
        compare_values(&cell("1.5"), &cell("1.50"), Some(FieldType::Float)),
        Some(Ordering::Equal)
    );
}

#[test]
fn conditions_hold_or_not() {
    let no: &[Scalar] = &[];
    let holds = |a: &str, op, v: &str| compare_filter_value(&cell(a), op, &cell(v), None, no, None);
    assert!(holds("5", ComparisonOp::Eq, "5"));
    assert!(holds("5", ComparisonOp::Ne, "6"));
    assert!(holds("10", ComparisonOp::Gt, "9"));
    assert!(!holds("9", ComparisonOp::Gt, "9"));
    assert!(holds("9", ComparisonOp::Gte, "9"));
    assert!(holds("8", ComparisonOp::Lt, "9"));
    assert!(holds("9", ComparisonOp::Lte, "9"));
    assert!(holds("hello", ComparisonOp::Contains, "ell"));
    assert!(holds("hello", ComparisonOp::StartsWith, "he"));
    assert!(holds("hello", ComparisonOp::EndsWith, "lo"));
    assert!(holds("", ComparisonOp::IsNull, ""));
    assert!(holds("x", ComparisonOp::IsNotNull, ""));
    let between = |a: &str| {
        compare_filter_value(&cell(a), ComparisonOp::Between, &cell("2"), Some(&cell("4")), no, None)
    };
    assert!(between("2") && between("3") && between("4"));
    assert!(!between("1") && !between("5"));
    let members = vec![cell("a"), cell("b")];
    assert!(compare_filter_value(&cell("b"), ComparisonOp::In, &cell(""), None, &members, None));
    assert!(compare_filter_value(&cell("c"), ComparisonOp::NotIn, &cell(""), None, &members, None));
}

#[test]
fn operators_have_names() {
    for op in [
        ComparisonOp::Eq,
        ComparisonOp::Ne,
        ComparisonOp::Gt,
        ComparisonOp::Gte,
        ComparisonOp::Lt,
        ComparisonOp::Lte,
        ComparisonOp::In,
        ComparisonOp::Between,
        ComparisonOp::NotIn,
        ComparisonOp::IsNull,
        ComparisonOp::IsNotNull,
        ComparisonOp::Contains,
        ComparisonOp::StartsWith,
        ComparisonOp::EndsWith,
    ] {
        assert_eq!(ComparisonOp::from_str(op.as_str()).as_str(), op.as_str());
    }
    assert!(is_nullish("") && is_nullish(" "));
    assert!(!is_nullish("null"));
    assert_eq!(list_values("a, ;b", &[]), vec!["a", "b"]);
    assert_eq!(list_values("a, b", &["c".to_string()]), vec!["c"]);
}

#[test]
fn manifest_adds_and_removes_segments() {
    let mut m = Manifest::new();
    let s = Segment::new(3);
    m.add_segment(s.to_meta(17));
    assert_eq!(m.segments.len(), 1);
    assert_eq!(m.segments[0].id, 3);
    assert_eq!(m.segments[0].created_at, 17);
    m.remove_segment(4);
    assert_eq!(m.segments.len(), 1);
    m.remove_segment(3);
    assert_eq!(m.segments.len(), 0);
}

#[test]
fn segments_are_named_by_their_number() {
    assert_eq!(dir_name(7), "seg_0007");
    assert_eq!(segment_id_of("seg_0007"), 7);
    assert_eq!(segment_id_of("other"), 0);
}

#[test]
fn written_segment_is_searched() {
    let mut w = SegmentWriter::new(Segment::new(1));
    w.append_record(&row(&[("name", "ann"), ("age", "30")]));
    w.append_record(&row(&[("name", "bob"), ("age", "9")]));
    w.append_record(&row(&[("name", "ann"), ("age", "41")]));
    assert_eq!(w.segment.record_count, 3);
    let ann = w.search(&[filter("name", ComparisonOp::Eq, "ann")], LogicalOp::And);
    assert_eq!(ann.ids(), vec![0, 2]);
    let both = w.search(
        &[filter("name", ComparisonOp::Eq, "ann"), filter("age", ComparisonOp::Gt, "35")],
        LogicalOp::And,
    );
    assert_eq!(both.ids(), vec![2]);
    let either = w.search(
        &[filter("name", ComparisonOp::Eq, "bob"), filter("age", ComparisonOp::Gt, "35")],
        LogicalOp::Or,
    );
    assert_eq!(either.ids(), vec![1, 2]);
    let open = w.search(&[filter("?", ComparisonOp::Eq, "ann"), filter("age", ComparisonOp::Gt, "?")], LogicalOp::And);
    assert_eq!(open.ids(), vec![0, 1, 2]);
    assert_eq!(w.segment.read_cell("age", 1), "9");
    w.segment.mark_deleted(0);
    let live = w.search(&[filter("name", ComparisonOp::Eq, "ann")], LogicalOp::And);
    assert_eq!(live.ids(), vec![2]);
    let counts = w.get_counts("name", &RowSet::below(3));
    assert_eq!(counts.get("ann"), Some(&2));
    assert_eq!(counts.get("bob"), Some(&1));
    w.flush();
    assert_eq!(
        w.segment.search_thread_safe(&[filter("age", ComparisonOp::Gt, "30")], LogicalOp::And).ids(),
        vec![2]
    );
    // Bounds are compared as texts, so the text "10" lies below every age.
    assert!(w
        .segment
        .search_thread_safe(&[filter("age", ComparisonOp::Lt, "10")], LogicalOp::And)
        .is_empty());
    assert_eq!(
        w.segment.get_row_values(2, &["age".to_string(), "none".to_string()]),
        vec!["41", ""]
    );
}

#[test]
fn hits_are_joined_counted_and_paged() {
    let a = vec![(1u64, RowSet::from_ids(&[1, 2, 3])), (2, RowSet::from_ids(&[5]))];
    let b = vec![(1u64, RowSet::from_ids(&[2, 3, 9])), (3, RowSet::from_ids(&[5]))];
    let both = intersect_segment_matches(&a, &b);
    assert_eq!(both.len(), 1);
    assert_eq!(both[0].1.ids(), vec![2, 3]);
    assert_eq!(count_rows(&a), 4);
    assert_eq!(list_ids(&a), vec![(1, 1), (1, 2), (1, 3), (2, 5)]);
    assert_eq!(page_ids(&a, 1, 2), vec![(1, 2), (1, 3)]);
    assert_eq!(page_ids(&a, 3, 9), vec![(2, 5)]);
    assert_eq!(capped_sum(u64::MAX, 1), u64::MAX);
}

#[test]
fn logged_changes_have_their_bytes() {
    let gone = encode_op(&WalOperation::Delete { id: "b".to_string() }).expect("encode");
    assert_eq!(gone, vec![1, 0, 0, 0, 1, 0, 0, 0, 0, 0, 0, 0, b'b']);
    let put = encode_op(&WalOperation::Update { id: "é".to_string(), data: vec![7, 8] }).expect("encode");
    assert_eq!(
        put,
        vec![2, 0, 0, 0, 2, 0, 0, 0, 0, 0, 0, 0, 0xc3, 0xa9, 2, 0, 0, 0, 0, 0, 0, 0, 7, 8]
    );
    let mut longer = gone.clone();
    longer.push(9);
    assert!(matches!(decode_op(&longer), Some(WalOperation::Delete { id }) if id == "b"));
    assert!(decode_op(&gone[..12]).is_none());
    assert!(decode_op(&[1, 0, 0, 0, 1, 0, 0, 0, 0, 0, 0, 0, 0xff]).is_none());
    assert!(decode_op(&[3, 0, 0, 0]).is_none());
    assert!(decode_op(&put[..23]).is_none());
}

#[test]
fn lists_held_per_field_are_set_or_a_thousand() {
    assert_eq!(exact_index_cache_per_field(None), 1000);
    assert_eq!(exact_index_cache_per_field(Some(" 5 ")), 5);
    assert_eq!(exact_index_cache_per_field(Some("+7\n")), 7);
    assert_eq!(exact_index_cache_per_field(Some("1")), 1);
    assert_eq!(exact_index_cache_per_field(Some(&usize::MAX.to_string())), usize::MAX);
    for odd in ["0", "", "x", "-3", "1.5", "99999999999999999999999"] {
        assert_eq!(exact_index_cache_per_field(Some(odd)), 1000);
    }
}

#[test]
fn white_space_is_cut_off_and_nothing_else() {
    let spaces: Vec<u32> = vec![
        9, 10, 11, 12, 13, 32, 0x85, 0xa0, 0x1680, 0x2000, 0x2001, 0x2002, 0x2003, 0x2004, 0x2005,
        0x2006, 0x2007, 0x2008, 0x2009, 0x200a, 0x2028, 0x2029, 0x202f, 0x205f, 0x3000,
    ];
    let mut found: Vec<u32> = Vec::new();
    for c in (0..=0x10ffff).filter_map(char::from_u32) {
        let text = format!("{c}5{c}");
        let held = exact_index_cache_per_field(Some(&text));
        if held == 5 {
            found.push(c as u32);
        }
        assert_eq!(held == 5, c.is_whitespace());
    }
    assert_eq!(found, spaces);
}
