use bittice::exact_index_v3::reader::SnapshotReader;
use bittice::exact_index_v3::writer::write_exact_index_v3_from_hashmap;
use bittice::manifest::Manifest;
use bittice::repl::catalog::{
    catalog_lines, get_catalog_tree, get_loaded_data, LoadedEntity, LoadedTable,
};
use bittice::repl::connect_wizard::{
    foreign_message, is_foreign_path, missing_message, path_candidates, spin_frame,
};
use bittice::repl::console::BitticePanel;
use bittice::repl::display::{footer, query_page, ResultPage};
use bittice::repl::fields::query_fields;
use bittice::repl::load_form::{loaded_height, LoadForm, LoadStep};
use bittice::repl::search_panel::{
    AggregationDraft, DraftSetting, FilterStep, FocusPanel, SearchCriteria, SearchPanel, Share,
    Task,
};
use bittice::repl::sheet::{Line, Sheet, Tone};
use bittice::repl::state::App;
use bittice::rowset::RowSet;
use bittice::segment::Segment;
use bittice::table::Table;
use bittice::textmap::TextMap;
use bittice::types::{ComparisonOp, Filter, OrderBy, Scalar, SortDirection};
use std::collections::HashMap;

fn texts(v: &[&str]) -> Vec<String> {
    v.iter().map(|s| s.to_string()).collect()
}

fn line_text(l: &Line) -> String {
    l.pieces.iter().map(|p| p.text.as_str()).collect()
}

fn sheet_texts(s: &Sheet) -> Vec<String> {
    s.lines.iter().map(line_text).collect()
}

fn panel(criteria: SearchCriteria) -> SearchPanel {
    let mut p = SearchPanel::new();
    p.task = Some(Task::Search);
    p.criteria = criteria;
    p.entity = Some("shop".to_string());
    p.table = Some("orders".to_string());
    p.value_options = texts(&["Write value", "Variable (ask later)", "rome"]);
    p.available_fields = texts(&["city", "day_day"]);
    p.middle = Some(0);
    p
}

fn filter(field: &str, value: &str) -> Filter {
    Filter {
        field: field.to_string(),
        op: ComparisonOp::Eq,
        value: Scalar::plain(value.to_string()),
        value_to: None,
        field_type: None,
        value_options: Vec::new(),
        members: Vec::new(),
    }
}

#[test]
fn parts_of_a_filter_are_listed() {
    let mut p = panel(SearchCriteria::Filters);
    p.filters = vec![filter("city", "rome")];
    p.focus = FocusPanel::Right;
    assert_eq!(sheet_texts(&p.right_items()), texts(&["Field", "Op", "Value"]));
    p.filter_step = FilterStep::Value;
    assert_eq!(
        sheet_texts(&p.extra_items()),
        texts(&["○ Write value", "○ Variable (ask later)", "◉ rome"])
    );
    let shown = p.shown();
    assert!(shown.right && shown.extra);
    let shares = p.shares();
    assert_eq!(shares.len(), 4);
    assert_eq!(shares[0], Share::Percent(20));
    assert_eq!(shares[3], Share::Rest);
}

#[test]
fn settings_of_an_aggregation_are_listed() {
    let mut p = panel(SearchCriteria::Aggregations);
    p.aggregations = vec![AggregationDraft {
        json: "{}".to_string(),
        kind: Some("Sum".to_string()),
        settings: Some(vec![DraftSetting {
            key: "field".to_string(),
            text: Some("city".to_string()),
            json: "\"city\"".to_string(),
        }]),
    }];
    p.agg_type_options = texts(&["Count", "Sum"]);
    p.focus = FocusPanel::Extra;
    assert_eq!(sheet_texts(&p.right_items()), texts(&["Type", "field"]));
    p.right = Some(0);
    assert_eq!(sheet_texts(&p.extra_items()), texts(&["○ Count", "◉ Sum"]));
}

#[test]
fn keys_of_the_sort_are_listed() {
    let mut p = panel(SearchCriteria::OrderBy);
    p.order_by = vec![OrderBy { field: "city".to_string(), direction: SortDirection::Desc }];
    p.order_fields = texts(&["age", "city"]);
    assert_eq!(sheet_texts(&p.right_items()), texts(&["Field", "Direction"]));
    p.right = Some(0);
    assert_eq!(sheet_texts(&p.extra_items()), texts(&["○ age", "◉ city"]));
    p.right = Some(1);
    assert_eq!(sheet_texts(&p.extra_items()), texts(&["○ Asc", "◉ Desc"]));
}

#[test]
fn hints_of_the_search() {
    let mut p = panel(SearchCriteria::Entity);
    assert_eq!(p.action_hint(), "To perform a query press the 's' key");
    p.task = Some(Task::Create);
    assert_eq!(p.action_hint(), "To execute operation press the 's' key");
    assert_eq!(p.input_hint(), "Value...");
    p.value_input = "$name".to_string();
    assert_eq!(p.input_hint(), "Variable name...");
    assert_eq!(p.heights(), (11, 0));
    p.filters = vec![filter("a", "1"), filter("b", "2")];
    p.focus = FocusPanel::Bottom;
    assert_eq!(p.heights(), (12, 3));
    assert_eq!(p.help(), "Enter Accept • Esc Cancel");
}

#[test]
fn results_are_put_on_a_sheet() {
    let mut p = panel(SearchCriteria::Entity);
    p.limit = Some(10);
    let page = ResultPage {
        headers: texts(&["id"]),
        rows: vec![texts(&["7"])],
        total: 1,
        counts: None,
        micros: 12,
        millis: "0.01".to_string(),
    };
    let lines = sheet_texts(&p.result_sheet(&texts(&["Load", "Read"]), Some(1), &page));
    assert!(lines.iter().any(|l| l == "+ Press Esc to exit results"));
    assert!(lines.iter().any(|l| l == "Time: 12 µs"));
    assert!(lines.iter().any(|l| l.contains("│ 7  │")));
}

#[test]
fn footer_tells_the_status() {
    let l = footer(BitticePanel::Results, &None);
    assert_eq!(line_text(&l), " ^Q  Quit  ^E  Export  |  Ready ");
    let l = footer(BitticePanel::Results, &Some(("gone".to_string(), false)));
    assert_eq!(l.pieces.last().unwrap().tone, Tone::Failure);
    assert_eq!(l.pieces.last().unwrap().text, " gone ");
}

#[test]
fn load_is_finished() {
    let mut app = App::new(Vec::new());
    app.active_task = Some(Task::Load);
    app.load.load_step = LoadStep::Processing;
    app.load.ndjson_path = "/tmp/a.ndjson".to_string();
    app.finish_load();
    assert!(app.active_task.is_none());
    assert_eq!(app.load.load_step, LoadStep::InputPath);
    assert_eq!(app.load.ndjson_path, "");
    let mut form = LoadForm::new();
    form.offer(texts(&["/a/", "/b/"]));
    assert_eq!(form.suggestions, texts(&["/a/", "/b/"]));
    form.suggestion_next();
    assert!(form.suggestion_index.is_some());
    assert_eq!((loaded_height(0), loaded_height(3), loaded_height(20)), (0, 4, 9));
}

#[test]
fn page_of_a_query() {
    assert_eq!(query_page(None), Some((1, 0)));
    assert_eq!(query_page(Some(0)), Some((1, 0)));
    assert_eq!(query_page(Some(3)), Some((3, 200)));
    assert_eq!(query_page(Some(usize::MAX)), None);
}

#[test]
fn fields_of_a_query() {
    let files = texts(&["city.dat", "city.offsets", "age.dat", "day_month.dat", "bitmaps_age.dat"]);
    assert_eq!(query_fields(Vec::new(), false, &files), texts(&["age", "city"]));
    assert!(query_fields(Vec::new(), true, &files).is_empty());
    assert_eq!(query_fields(texts(&["x"]), false, &files), texts(&["x"]));
}

#[test]
fn paths_of_another_machine() {
    assert!(is_foreign_path("/Users/a/x.ovpn"));
    assert!(!is_foreign_path("/etc/x.ovpn"));
    assert_eq!(
        path_candidates("C:\\vpn\\x.ovpn"),
        texts(&["/app/host_home/C:/vpn/x.ovpn", "/app/host_home/vpn/x.ovpn", "/app/host_home/x.ovpn"])
    );
    assert!(foreign_message("/Users/a").starts_with("Path Error: You are using a local machine path ('/Users/a')"));
    assert!(missing_message("/a").starts_with("File not found at: /a.\n"));
    assert_eq!([spin_frame(0), spin_frame(5)], ["◐", "◓"]);
}

#[test]
fn table_is_reloaded_after_a_change() {
    let mut t =
        Table::open("people", Manifest::new(), vec![], None, None, TextMap::new(), TextMap::new());
    let mut on_disk = Manifest::new();
    assert!(!t.needs_reload(&on_disk));
    on_disk.last_sequence_number = 1;
    on_disk.active_segment_id = 4;
    assert!(t.needs_reload(&on_disk));
    t.reload(on_disk, vec![Segment::new(3), Segment::new(2)], None, None);
    assert_eq!(t.manifest.last_sequence_number, 1);
    assert_eq!(t.segments.iter().map(|s| s.id).collect::<Vec<_>>(), [2, 3]);
    assert_eq!(t.active.as_ref().unwrap().segment.id, 4);
    let mut again = Manifest::new();
    again.last_sequence_number = 1;
    assert!(!t.needs_reload(&again));
}

#[test]
fn snapshot_of_a_map() {
    let mut map: HashMap<u128, Vec<(u64, RowSet)>> = HashMap::new();
    map.insert(9, vec![(1, RowSet::from_ids(&[4]))]);
    map.insert(2, vec![(1, RowSet::from_ids(&[5, 6]))]);
    let bytes = write_exact_index_v3_from_hashmap(&map).ok().unwrap();
    let reader = SnapshotReader::open("x", bytes).ok().unwrap();
    assert_eq!(reader.num_entries(), 2);
    assert_eq!(reader.read_index_entry(0).hash, 2);
    assert_eq!(reader.get(9).ok().unwrap().unwrap()[0].1.ids(), [4]);
    assert!(reader.get(3).ok().unwrap().is_none());
}

#[test]
fn catalog_of_what_was_found() {
    let table = |name: &str, fields: &[&str]| LoadedTable { name: name.to_string(), fields: texts(fields) };
    let entity = |name: &str, tables: Vec<LoadedTable>| LoadedEntity { name: name.to_string(), tables };
    let found = vec![
        entity("shop", vec![table("users", &[]), table("orders", &["id", "city"])]),
        entity("empty", vec![]),
    ];
    let tree = get_catalog_tree(&found);
    assert_eq!(tree.iter().map(|n| n.name.as_str()).collect::<Vec<_>>(), ["empty", "shop"]);
    assert_eq!(tree[1].children[0].name, "orders");
    // The fields of the tree are sorted, those of the list of loaded data are not.
    assert_eq!(tree[1].children[0].children[0].name, "city");
    assert_eq!(catalog_lines(&tree).len(), 6);
    let lines = get_loaded_data(&found);
    assert_eq!(lines.len(), 5);
    assert_eq!(lines[0], "\u{f01bc}shop");
    assert_eq!(lines[1], "├──\u{f04eb}orders");
    assert_eq!(lines[2], "│  ├──\u{f01fd}id");
    assert_eq!(lines[3], "│  └──\u{f01fd}city");
    assert_eq!(lines[4], "└──\u{f04eb}users");
}

#[test]
fn drafts_are_read_from_their_json() {
    let text = "{ \"Sum\": { \"field\": \"a\\\"b\\n\\u0001\", \"n\": 3, \"on\": true, \"by\": null } }";
    let d = AggregationDraft::parse(text).expect("it is JSON");
    assert_eq!(d.kind, Some("Sum".to_string()));
    assert_eq!(
        d.json,
        "{\"Sum\":{\"by\":null,\"field\":\"a\\\"b\\n\\u0001\",\"n\":3,\"on\":true}}"
    );
    let settings = d.settings.expect("there are settings");
    let all: Vec<(String, Option<String>, String)> =
        settings.into_iter().map(|s| (s.key, s.text, s.json)).collect();
    let wanted = |key: &str, text: Option<&str>, json: &str| {
        (key.to_string(), text.map(|t| t.to_string()), json.to_string())
    };
    assert_eq!(all.len(), 4);
    assert!(all.contains(&wanted("field", Some("a\"b\n\u{1}"), "\"a\\\"b\\n\\u0001\"")));
    assert!(all.contains(&wanted("n", None, "3")));
    assert!(all.contains(&wanted("on", None, "true")));
    assert!(all.contains(&wanted("by", None, "null")));
}

#[test]
fn drafts_without_settings_are_read_too() {
    let plain = AggregationDraft::parse("\"Count\"").expect("it is JSON");
    assert_eq!(plain.json, "\"Count\"");
    assert!(plain.kind.is_none());
    assert!(plain.settings.is_none());
    let bare = AggregationDraft::parse("{\"Count\": 1}").expect("it is JSON");
    assert_eq!(bare.kind, Some("Count".to_string()));
    assert!(bare.settings.is_none());
    assert!(AggregationDraft::parse("{\"Count\"").is_none());
}
