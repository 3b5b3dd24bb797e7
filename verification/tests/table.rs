use bittice::lookup::TableError;
use bittice::manifest::Manifest;
use bittice::query::{
    auth_table_name, list_counts, sum_headers, sum_inputs, AggregationRequest, AggregationResult,
    CountOrder, QueryResult, Summary,
};
use bittice::table::{LoggedChange, Table};
use bittice::textmap::TextMap;
use bittice::types::{
    AuthContext, ComparisonOp, Filter, LogicalOp, OrderBy, Scalar, SortDirection,
};
use bittice::wal::{Wal, WalOperation};
use bittice::primary_index_io::decode_places;
use bittice::compaction::{field_of_file, should_compact};

fn cell(text: &str) -> Scalar {
    Scalar {
        text: text.to_string(),
        number: text.parse::<f64>().ok().map(|n| n.to_bits()),
        date: false,
    }
}

fn filter(field: &str, op: ComparisonOp, value: &str) -> Filter {
    Filter {
        field: field.to_string(),
        op,
        value: cell(value),
        value_to: None,
        field_type: None,
        value_options: vec![],
        members: vec![],
    }
}

fn row(cells: &[(&str, &str)]) -> TextMap<Scalar> {
    let mut r = TextMap::new();
    for (k, v) in cells {
        r.insert(k, cell(v));
    }
    r
}

fn texts(v: &[&str]) -> Vec<String> {
    v.iter().map(|s| s.to_string()).collect()
}

fn empty_table() -> Table {
    let mut manifest = Manifest::new();
    manifest.primary_key = "id".to_string();
    manifest.original_fields = texts(&["id", "city", "age"]);
    Table::open("people", manifest, vec![], None, None, TextMap::new(), TextMap::new())
}

fn put(t: &mut Table, id: &str, city: &str, age: &str) {
    let r = row(&[("id", id), ("city", city), ("age", age)]);
    t.insert(&r, "unused");
}

fn people() -> Table {
    let mut t = empty_table();
    put(&mut t, "a", "rome", "30");
    put(&mut t, "b", "oslo", "9");
    put(&mut t, "c", "rome", "41");
    put(&mut t, "d", "bern", "41");
    t
}

fn ok<T>(r: Result<T, TableError>) -> T {
    match r {
        Ok(v) => v,
        Err(_) => panic!("no file is broken"),
    }
}

fn find(t: &mut Table, filters: &[Filter], op: LogicalOp) -> Vec<Vec<String>> {
    let fields = texts(&["id"]);
    ok(t.search(&fields, filters, op, &[], &[], &[], 100, 0, None, "", 8)).rows
}

// The rows of the active segment come once for each list that has them.
fn distinct(rows: Vec<Vec<String>>) -> Vec<Vec<String>> {
    let mut out = rows;
    out.sort();
    out.dedup();
    out
}

fn search(t: &mut Table, filters: &[Filter], order: &[OrderBy], limit: usize, offset: usize) -> QueryResult {
    let fields = texts(&["id", "age"]);
    ok(t.search(&fields, filters, LogicalOp::And, &[], &[], order, limit, offset, None, "", 8))
}

#[test]
fn inserted_rows_are_read_back() {
    let t = people();
    let r = t.get_row_as_map("c").expect("c is there");
    assert_eq!(r.get("city").unwrap(), "rome");
    assert_eq!(r.get("age").unwrap(), "41");
    assert!(t.get_row_as_map("z").is_none());
    assert_eq!(t.active_segment_row_count(), 4);
}

#[test]
fn deleted_rows_are_gone() {
    let mut t = people();
    t.delete("a");
    assert!(t.get_row_as_map("a").is_none());
    assert_eq!(
        distinct(find(&mut t, &[filter("city", ComparisonOp::Eq, "rome")], LogicalOp::And)),
        vec![vec!["c"]]
    );
    t.delete("nobody");
    assert!(t.get_row_as_map("b").is_some());
}

#[test]
fn updated_rows_have_the_new_cells() {
    let mut t = people();
    t.update("b", &row(&[("id", "b"), ("city", "bern"), ("age", "10")]), "unused");
    assert_eq!(t.get_row_as_map("b").unwrap().get("city").unwrap(), "bern");
    let found = find(&mut t, &[filter("city", ComparisonOp::Eq, "oslo")], LogicalOp::And);
    assert!(found.is_empty());
}

#[test]
fn rows_without_a_key_get_the_fresh_one() {
    let mut t = empty_table();
    t.insert(&row(&[("city", "rome")]), "k-1");
    assert_eq!(t.get_row_as_map("k-1").unwrap().get("city").unwrap(), "rome");
}

#[test]
fn searches_go_by_index_key_and_scan() {
    let mut t = people();
    let by_index = find(&mut t, &[filter("city", ComparisonOp::Eq, "rome")], LogicalOp::And);
    assert_eq!(distinct(by_index), vec![vec!["a"], vec!["c"]]);
    let by_scan = find(&mut t, &[filter("age", ComparisonOp::Gt, "20")], LogicalOp::And);
    assert_eq!(by_scan, vec![vec!["a"], vec!["c"], vec!["d"]]);
    let by_key = find(&mut t, &[filter("id", ComparisonOp::Eq, "b")], LogicalOp::And);
    assert_eq!(by_key, vec![vec!["b"]]);
    let either = find(
        &mut t,
        &[filter("city", ComparisonOp::Eq, "oslo"), filter("age", ComparisonOp::Gt, "40")],
        LogicalOp::Or,
    );
    assert_eq!(either, vec![vec!["b"], vec!["c"], vec!["d"]]);
    let nothing = find(&mut t, &[filter("city", ComparisonOp::Eq, "paris")], LogicalOp::And);
    assert!(nothing.is_empty());
}

#[test]
fn found_rows_are_ordered_and_paged() {
    let mut t = people();
    let by_age = [OrderBy { field: "age".to_string(), direction: SortDirection::Asc }];
    let all = search(&mut t, &[], &by_age, 10, 0);
    assert_eq!(all.total_found, 4);
    let ages: Vec<String> = all.rows.iter().map(|r| r[1].clone()).collect();
    assert_eq!(ages, texts(&["9", "30", "41", "41"]));
    let second = search(&mut t, &[], &by_age, 1, 1);
    assert_eq!(second.rows, vec![texts(&["a", "30"])]);
    assert_eq!(second.total_found, 4);
    let down = [OrderBy { field: "age".to_string(), direction: SortDirection::Desc }];
    let last = search(&mut t, &[], &down, 10, 3);
    assert_eq!(last.rows, vec![texts(&["b", "9"])]);
}

#[test]
fn counts_are_grouped() {
    let mut t = people();
    let request = AggregationRequest {
        kind: Some("GroupBy".to_string()),
        field: Some("city".to_string()),
        n: None,
        group_by: None,
        expression: None,
    };
    let r = ok(t.search(
        &texts(&["id"]),
        &[],
        LogicalOp::And,
        &[request],
        &[None],
        &[],
        10,
        0,
        None,
        "",
        8,
    ));
    let a = r.aggregations.expect("one was asked for");
    assert_eq!(a.len(), 1);
    assert_eq!(a[0].headers, texts(&["city", "count"]));
    assert_eq!(
        a[0].rows,
        vec![texts(&["bern", "1"]), texts(&["oslo", "1"]), texts(&["rome", "2"])]
    );
    assert!(matches!(a[0].summary, Some(Summary::Count(4))));
}

#[test]
fn counts_are_listed_in_order() {
    let mut m: TextMap<u64> = TextMap::new();
    m.insert("b", 2);
    m.insert("a", 2);
    m.insert("c", 5);
    assert_eq!(
        list_counts(&m, CountOrder::Frequency),
        vec![("c".to_string(), 5), ("a".to_string(), 2), ("b".to_string(), 2)]
    );
    assert_eq!(list_counts(&m, CountOrder::Ascending)[0].0, "a");
    assert_eq!(list_counts(&m, CountOrder::Descending)[0].0, "c");
}

#[test]
fn sums_are_taken_as_given() {
    let request = AggregationRequest {
        kind: Some("Sum".to_string()),
        field: Some("age".to_string()),
        n: None,
        group_by: None,
        expression: None,
    };
    let (group, expression) = sum_inputs(&request);
    assert_eq!(group, Some("age".to_string()));
    assert_eq!(expression, "0");
    let given = AggregationResult { headers: texts(&["sum"]), rows: vec![texts(&["121"])], summary: None };
    let mut t = people();
    let r = ok(t.search(
        &texts(&["id"]),
        &[],
        LogicalOp::And,
        &[request],
        &[Some(given)],
        &[],
        10,
        0,
        None,
        "",
        8,
    ));
    assert_eq!(r.aggregations.unwrap()[0].rows, vec![texts(&["121"])]);
}

#[test]
fn users_see_their_own_rows() {
    let mut t = people();
    let auth = AuthContext {
        user_id: cell("rome"),
        token: "t".to_string(),
        entity: "e".to_string(),
        filter_col: "city".to_string(),
    };
    let r = ok(t.search(
        &texts(&["id"]),
        &[],
        LogicalOp::And,
        &[],
        &[],
        &[],
        10,
        0,
        Some(&auth),
        "auth_sessions",
        8,
    ));
    assert_eq!(distinct(r.rows), vec![texts(&["a"]), texts(&["c"])]);
    let open = ok(t.search(
        &texts(&["id"]),
        &[],
        LogicalOp::And,
        &[],
        &[],
        &[],
        10,
        0,
        Some(&auth),
        "people",
        8,
    ));
    assert_eq!(open.rows.len(), 4);
    assert_eq!(auth_table_name(None), "auth_sessions");
    assert_eq!(auth_table_name(Some("who")), "who");
}

#[test]
fn flushing_keeps_the_rows() {
    let mut t = people();
    assert!(!ok(t.flush_active_segment(5, 2, None)));
    assert_eq!(t.segments.len(), 1);
    assert_eq!(t.active_segment_row_count(), 0);
    assert_eq!(t.get_row_as_map("c").unwrap().get("age").unwrap(), "41");
    put(&mut t, "e", "rome", "1");
    assert!(ok(t.flush_active_segment(6, 2, None)));
    assert_eq!(t.manifest.segments.len(), 2);
    let rome = find(&mut t, &[filter("city", ComparisonOp::Eq, "rome")], LogicalOp::And);
    assert_eq!(rome, vec![vec!["a"], vec!["c"], vec!["e"]]);
    t.delete("a");
    let rome = find(&mut t, &[filter("city", ComparisonOp::Eq, "rome")], LogicalOp::And);
    assert_eq!(rome, vec![vec!["c"], vec!["e"]]);
}

#[test]
fn compaction_keeps_live_rows() {
    let mut t = people();
    ok(t.flush_active_segment(1, 10, None));
    put(&mut t, "e", "rome", "1");
    ok(t.flush_active_segment(2, 10, None));
    put(&mut t, "f", "kyiv", "2");
    ok(t.flush_active_segment(3, 10, None));
    t.delete("b");
    assert_eq!(t.segments.len(), 3);
    let removed = ok(t.compact(100, 4, 10, None, None));
    for (id, city) in [("a", "rome"), ("c", "rome"), ("d", "bern"), ("e", "rome"), ("f", "kyiv")] {
        assert_eq!(t.get_row_as_map(id).unwrap().get("city").unwrap(), city);
    }
    assert!(t.get_row_as_map("b").is_none());
    assert_eq!(t.segments.len(), 1);
    assert_eq!(removed, 3);
    assert_eq!(ok(t.compact(100, 5, 10, None, None)), 0);
    let old = find(&mut t, &[filter("age", ComparisonOp::Gt, "20")], LogicalOp::And);
    assert_eq!(old.len(), 3);
}

#[test]
fn compaction_is_worth_it_or_not() {
    assert!(should_compact(4, 10, 100));
    assert!(!should_compact(3, 10, 100));
    assert!(!should_compact(4, 101, 100));
    assert!(should_compact(5, 101, 100));
    assert_eq!(field_of_file("city.dat"), Some("city".to_string()));
    assert_eq!(field_of_file("bitmaps_city.dat"), None);
    assert_eq!(field_of_file("city.offsets"), None);
}

#[test]
fn replayed_log_gives_the_rows_again() {
    let t = empty_table();
    let r = row(&[("id", "a"), ("city", "rome"), ("age", "3")]);
    let op = t.insert_operation(&r, "unused").expect("it can be logged");
    assert!(matches!(&op, WalOperation::Insert { id, .. } if id == "a"));
    let mut u = empty_table();
    u.replay_wal(&[
        LoggedChange { op, row: row(&[("id", "a"), ("city", "rome"), ("age", "3")]) },
        LoggedChange { op: WalOperation::Delete { id: "zz".to_string() }, row: TextMap::new() },
    ]);
    assert_eq!(u.get_row_as_map("a").unwrap().get("city").unwrap(), "rome");
    assert!(u.delete_operation("zz").is_none());
    assert!(u.delete_operation("a").is_some());
}

#[test]
fn emptied_table_has_no_rows() {
    let mut t = people();
    ok(t.flush_active_segment(1, 10, None));
    put(&mut t, "e", "rome", "1");
    ok(t.delete_all_rows(2, 10, None));
    for id in ["a", "b", "c", "d", "e"] {
        assert!(t.get_row_as_map(id).is_none());
    }
    assert!(find(&mut t, &[filter("age", ComparisonOp::Gte, "0")], LogicalOp::And).is_empty());
    assert_eq!(t.primary_index.len(), 0);
}

#[test]
fn closed_table_gives_its_segment_out() {
    let mut t = people();
    t.warm_up(&texts(&["city"]), 8);
    assert_eq!(t.cache.len(), 1);
    let (segment, save) = t.close();
    assert_eq!(segment.unwrap().record_count, 4);
    assert!(save);
    assert_eq!(t.cache.len(), 0);
    let (none, save) = empty_table().close();
    assert!(none.is_some());
    assert!(!save);
}

#[test]
fn warm_cache_is_bounded() {
    let mut t = people();
    t.warm_up(&texts(&["city", "age", "id"]), 2);
    assert_eq!(t.cache.len(), 2);
    assert!(t.cache.contains("id"));
    assert!(!t.cache.contains("city"));
}

#[test]
fn fields_are_told_by_files() {
    let files = texts(&["b.dat", "a.dat", "bitmaps_a.dat", "b.dat", "x.offsets"]);
    assert_eq!(Table::get_indexed_fields_static(&files), texts(&["a", "b"]));
    let all = texts(&["t_day", "z", "t", "t_month", "a_year", "t_hour_bucket"]);
    assert_eq!(Table::get_base_fields_static(&all), texts(&["t", "z"]));
    assert_eq!(Table::exact_index_file("city"), "exact_city.idx");
    let mut t = empty_table();
    t.set_original_fields(texts(&["x"]));
    assert_eq!(t.manifest.original_fields, texts(&["x"]));
}

#[test]
fn broken_index_file_is_told() {
    let mut saved = TextMap::new();
    saved.insert("city", vec![1u8, 2, 3]);
    let mut manifest = Manifest::new();
    manifest.primary_key = "id".to_string();
    let mut t = Table::open("people", manifest, vec![], None, None, saved, TextMap::new());
    t.insert(&row(&[("id", "a"), ("city", "rome")]), "u");
    assert!(matches!(t.load_exact_index("city", 8), Err(TableError::Undecodable(_))));
    assert!(matches!(t.flush_active_segment(1, 10, None), Err(TableError::Undecodable(_))));
}

fn listed(field: &str, values: &[&str]) -> Filter {
    Filter {
        field: field.to_string(),
        op: ComparisonOp::In,
        value: cell(""),
        value_to: None,
        field_type: None,
        value_options: texts(values),
        members: values.iter().map(|v| cell(v)).collect(),
    }
}

fn of_rome() -> AuthContext {
    AuthContext {
        user_id: cell("rome"),
        token: "t".to_string(),
        entity: "e".to_string(),
        filter_col: "city".to_string(),
    }
}

#[test]
fn no_filter_lets_rows_of_others_through() {
    let mut t = people();
    ok(t.flush_active_segment(1, 10, None));
    let auth = of_rome();
    let cases: Vec<(Vec<Filter>, LogicalOp, Vec<Vec<String>>)> = vec![
        (vec![listed("id", &["a", "b"])], LogicalOp::And, vec![texts(&["a"])]),
        (vec![listed("id", &["b", "d"])], LogicalOp::And, vec![]),
        (
            vec![filter("age", ComparisonOp::Eq, "41"), listed("city", &["paris"])],
            LogicalOp::And,
            vec![texts(&["c"])],
        ),
        (vec![filter("id", ComparisonOp::Eq, "b")], LogicalOp::And, vec![]),
        (
            vec![filter("age", ComparisonOp::Gt, "0"), filter("city", ComparisonOp::Eq, "oslo")],
            LogicalOp::Or,
            vec![],
        ),
    ];
    for (filters, op, want) in cases {
        let r = ok(t.search(
            &texts(&["id"]),
            &filters,
            op,
            &[],
            &[],
            &[],
            10,
            0,
            Some(&auth),
            "auth_sessions",
            8,
        ));
        assert_eq!(r.total_found, want.len() as u64);
        assert_eq!(r.rows, want);
        let hits = ok(t.find_visible_rows(&filters, op, Some(&auth), "auth_sessions", 8));
        assert_eq!(hits.len(), if want.is_empty() { 0 } else { 1 });
    }
    let all = ok(t.find_visible_rows(&[listed("id", &["a", "b"])], LogicalOp::And, None, "auth_sessions", 8));
    assert_eq!(all[0].1.ids(), vec![0, 1]);
}

#[test]
fn inserted_numbers_are_sorted_as_numbers() {
    let mut t = Table::open("t", Manifest::new(), vec![], None, None, TextMap::new(), TextMap::new());
    for (key, v) in [("a", "9"), ("b", "10"), ("c", "2")] {
        t.insert(&row(&[("PK", key), ("v", v)]), "unused");
    }
    t.flush_active_segment_buffers(10);
    let down = [OrderBy { field: "v".to_string(), direction: SortDirection::Desc }];
    let r = ok(t.search(&texts(&["v"]), &[], LogicalOp::And, &[], &[], &down, 1, 1, None, "", 8));
    assert_eq!(r.rows, vec![texts(&["9"])]);
    assert_eq!(r.row_ids, Some(vec![(0, 0)]));
    assert_eq!(r.total_found, 3);
    assert_eq!(r.headers, texts(&["v"]));
    assert!(r.aggregations.is_none());
    assert_eq!(t.reading("9").number, Some(9f64.to_bits()));
    assert_eq!(t.reading("unknown").number, None);
}

#[test]
fn recovered_table_empties_its_log() {
    let change = || LoggedChange {
        op: WalOperation::Insert { id: "a".to_string(), data: b"{}".to_vec() },
        row: row(&[("id", "a"), ("city", "rome"), ("age", "3")]),
    };
    let mut log = Wal::open(Vec::new());
    log.append(&change().op).expect("append");
    let mut t = empty_table();
    let file = t.recover(&mut log, &[change()]).expect("the places are to be saved");
    assert!(log.log.is_empty());
    assert_eq!(decode_places(&file).get("a"), t.primary_index.get("a"));
    assert_eq!(t.get_row_as_map("a").unwrap().get("city").unwrap(), "rome");

    log.append(&change().op).expect("append");
    assert!(t.recover(&mut log, &[change()]).is_none());
    assert!(log.log.is_empty());
    assert_eq!(t.active_segment_row_count(), 1);

    let mut rest = Wal::open(vec![1, 2, 3]);
    assert!(empty_table().recover(&mut rest, &[]).is_none());
    assert_eq!(rest.log, vec![1, 2, 3]);
}

#[test]
fn pages_of_a_query_are_of_one_list() {
    let mut t = people();
    ok(t.flush_active_segment(1, 10, None));
    let rome = [filter("age", ComparisonOp::Gte, "0")];
    let whole = search(&mut t, &rome, &[], 10, 0).row_ids.expect("rows are asked for");
    let mut paged: Vec<(u64, u32)> = Vec::new();
    for offset in 0..4 {
        let page = search(&mut t, &rome, &[], 1, offset);
        assert_eq!(page.total_found, 4);
        paged.extend(page.row_ids.expect("rows are asked for"));
    }
    assert_eq!(paged, whole);
}

#[test]
fn table_can_be_compacted_again_and_again() {
    let mut t = empty_table();
    let mut kept: Vec<String> = Vec::new();
    for round in 0..3 {
        for part in 0..5 {
            let id = format!("r{round}p{part}");
            put(&mut t, &id, "rome", &part.to_string());
            ok(t.flush_active_segment(1, 10, None));
            kept.push(id);
        }
        let gone = kept.remove(0);
        t.delete(&gone);
        let before = t.segments.len() + 1;
        let removed = ok(t.compact(100, 4, 10, None, None));
        assert_eq!(removed, before - t.segments.len());
        assert_eq!(t.segments.len(), 1);
        assert_eq!(t.segments[0].deleted_bitmap.len(), 0);
        assert_eq!(t.segments[0].record_count, kept.len() as u64);
        assert!(t.get_row_as_map(&gone).is_none());
        for id in &kept {
            assert_eq!(t.get_row_as_map(id).unwrap().get("id").unwrap(), id);
        }
        assert_eq!(t.primary_index.len(), kept.len());
        let id = t.active.as_ref().unwrap().segment.id;
        assert_eq!(id, t.manifest.active_segment_id);
        assert!(t.segments.iter().all(|s| s.id < id));
    }
}

#[test]
fn packed_segments_are_filled_in_turn() {
    let mut t = empty_table();
    for part in 0..9 {
        put(&mut t, &format!("k{part}"), "rome", &part.to_string());
        ok(t.flush_active_segment(1, 10, None));
    }
    let removed = ok(t.compact(4, 4, 10, None, None));
    let counts: Vec<u64> = t.segments.iter().map(|s| s.record_count).collect();
    assert_eq!(counts, vec![4, 4, 1]);
    assert_eq!(removed, 7);
    for part in 0..9 {
        let row = t.get_row_as_map(&format!("k{part}")).unwrap();
        assert_eq!(row.get("age").unwrap(), &part.to_string());
    }
}

#[test]
fn all_pages_are_of_one_list() {
    let mut t = empty_table();
    for n in 0..250 {
        put(&mut t, &format!("k{n}"), if n % 2 == 0 { "rome" } else { "oslo" }, &n.to_string());
    }
    ok(t.flush_active_segment(1, 10, None));
    let wanted = [filter("city", ComparisonOp::Eq, "rome")];
    let all = search(&mut t, &wanted, &[], 100, 0);
    assert_eq!(all.total_found, 125);
    assert_eq!(all.rows.len(), 100);
    let mut list: Vec<(u64, u32)> = Vec::new();
    for page in 0..5 {
        let r = search(&mut t, &wanted, &[], 30, page * 30);
        assert_eq!(r.total_found, 125);
        let ids = r.row_ids.expect("a page");
        assert_eq!(r.rows.len(), ids.len());
        list.extend(ids);
    }
    assert_eq!(list.len(), 125);
    assert_eq!(all.row_ids.expect("a page"), list[..100].to_vec());
    let more = search(&mut t, &wanted, &[], 1000, 0);
    assert_eq!(more.row_ids.expect("a page"), list[..100].to_vec());
    let none = search(&mut t, &wanted, &[], 0, 0);
    assert_eq!(none.total_found, 125);
    assert!(none.rows.is_empty() && none.row_ids.is_none());
}

#[test]
fn compaction_and_flushing_leave_no_old_index() {
    let mut t = people();
    t.warm_up(&texts(&["city"]), 8);
    put(&mut t, "e", "rome", "1");
    ok(t.flush_active_segment(1, 10, None));
    assert_eq!(t.cache.len(), 0);
    let wanted = [filter("city", ComparisonOp::Eq, "rome")];
    assert_eq!(distinct(find(&mut t, &wanted, LogicalOp::And)), vec![vec!["a"], vec!["c"], vec!["e"]]);
    ok(t.compact(100, 2, 10, None, None));
    assert_eq!(distinct(find(&mut t, &wanted, LogicalOp::And)), vec![vec!["a"], vec!["c"], vec!["e"]]);
}

#[test]
fn sums_are_headed_by_their_expression() {
    assert_eq!(sum_headers(Some("city"), "age"), texts(&["city", "age_sum"]));
    assert_eq!(sum_headers(Some("city"), "net_2"), texts(&["city", "net_2_sum"]));
    assert_eq!(sum_headers(Some("city"), "\u{e9}t\u{e9}"), texts(&["city", "\u{e9}t\u{e9}_sum"]));
    assert_eq!(sum_headers(Some("city"), "1.5"), texts(&["city", "sum"]));
    assert_eq!(sum_headers(Some("city"), "a * b"), texts(&["city", "sum"]));
    assert_eq!(sum_headers(Some("city"), ""), texts(&["city", "_sum"]));
    assert!(sum_headers(None, "age").is_empty());
}

#[test]
fn readings_keep_their_text() {
    let mut known: TextMap<Scalar> = TextMap::new();
    known.insert("7", Scalar { text: "seven".to_string(), number: Some(7.0f64.to_bits()), date: false });
    let mut manifest = Manifest::new();
    manifest.primary_key = "id".to_string();
    manifest.original_fields = texts(&["id"]);
    let t = Table::open("people", manifest, vec![], None, None, TextMap::new(), known);
    let read = t.reading("7");
    assert_eq!(read.text, "7");
    assert_eq!(read.number, Some(7.0f64.to_bits()));
    assert_eq!(t.reading("8").number, None);
}
