use bittice::json_text::JsonCell;
use bittice::query::AggregationRequest;
use bittice::repl::catalog::{
    catalog_lines, entity_node, loaded_entity_lines, table_node, toggle_catalog_node, CatalogNode,
    LoadedTable,
};
use bittice::repl::console::{
    Area, BitticePanel, Console, ConsoleAction, ConsoleAreas, ConsoleEvent,
};
use bittice::repl::display::{catalog_sheet, pages, CountPage, ResultPage};
use bittice::repl::editor::{get_sorted_selection, split_lines, Editor, EditorAction};
use bittice::repl::fields::{get_field_values, get_filtered_fields, load_field_values};
use bittice::repl::grid::{cell, clip, fill, grid};
use bittice::repl::keys::{Held, Key};
use bittice::repl::lists::{next_index, previous_index};
use bittice::repl::load_form::{
    get_path_suggestions, suggestion_query, FolderEntry, LoadAction, LoadForm, LoadStep,
};
use bittice::repl::preview::{get_menu_lines, page_line};
use bittice::repl::search_panel::{show_filter, show_limit, SearchCriteria, SearchPanel, Task};
use bittice::repl::server_panel::{
    aggregation_values, SavedChange, SavedOperation, SavedQuery, ServerAction, ServerPanel,
};
use bittice::repl::sheet::{Line, Sheet};
use bittice::repl::startup_form::{
    CdcInfo, StartupAction, StartupForm, StartupStep,
};
use bittice::repl::state::{method_label, saved_list, App, MenuAction, Scroll};
use bittice::types::{ComparisonOp, Filter, Scalar};
use std::collections::HashMap;

fn texts(v: &[&str]) -> Vec<String> {
    v.iter().map(|s| s.to_string()).collect()
}

fn line_text(l: &Line) -> String {
    l.pieces.iter().map(|p| p.text.as_str()).collect()
}

fn sheet_texts(s: &Sheet) -> Vec<String> {
    s.lines.iter().map(line_text).collect()
}

const FREE: Held = Held { control: false, command: false, shift: false };
const SHIFT: Held = Held { control: false, command: false, shift: true };
const CONTROL: Held = Held { control: true, command: false, shift: false };

fn editor(lines: &[&str]) -> Editor {
    Editor {
        lines: texts(lines),
        cursor: (0, 0),
        selection: None,
        scroll: 0,
        viewport_height: 12,
        status: None,
    }
}

#[test]
fn typing_puts_characters_in() {
    let mut e = editor(&[""]);
    for c in "ab".chars() {
        assert!(matches!(e.handle_native_editor(Key::Char(c), FREE), EditorAction::Nothing));
    }
    e.handle_native_editor(Key::Enter, FREE);
    e.handle_native_editor(Key::Char('c'), FREE);
    assert_eq!(e.lines, texts(&["ab", "c"]));
    e.handle_native_editor(Key::Backspace, FREE);
    e.handle_native_editor(Key::Backspace, FREE);
    assert_eq!(e.lines, texts(&["ab"]));
    e.handle_native_editor(Key::Left, FREE);
    e.handle_native_editor(Key::Delete, FREE);
    assert_eq!(e.lines, texts(&["a"]));
}

#[test]
fn selected_text_is_copied_and_deleted() {
    let mut e = editor(&["hello", "world"]);
    e.handle_native_editor(Key::Right, SHIFT);
    e.handle_native_editor(Key::Right, SHIFT);
    assert_eq!(e.get_selected_text(), Some("he".to_string()));
    assert_eq!(get_sorted_selection(Some(((1, 0), (0, 3)))), Some(((0, 3), (1, 0))));
    match e.handle_native_editor(Key::Char('c'), CONTROL) {
        EditorAction::Copy(t) => assert_eq!(t, "he"),
        _ => panic!("there is a selection"),
    }
    assert!(e.delete_selection());
    assert_eq!(e.lines, texts(&["llo", "world"]));
    assert!(!e.delete_selection());
}

#[test]
fn pasted_json_is_formatted() {
    let mut e = editor(&[""]);
    e.paste_and_format("{\"a\":1}");
    assert_eq!(e.lines, texts(&["{", "  \"a\": 1", "}"]));
    let mut broken = editor(&["{"]);
    broken.validate_json_status();
    assert!(matches!(&broken.status, Some((_, false))));
    let mut whole = editor(&["[1]"]);
    whole.validate_json_status();
    assert!(!matches!(&whole.status, Some((_, false))));
}

#[test]
fn lines_are_split_like_text() {
    assert_eq!(split_lines("a\r\nb\n"), texts(&["a", "b"]));
    assert_eq!(split_lines(""), texts(&[""]));
    assert_eq!(split_lines("\n"), texts(&[""]));
}

fn tree() -> Vec<CatalogNode> {
    vec![
        entity_node("shop", vec![table_node("orders", &texts(&["id", "total"])), table_node("users", &[])]),
        entity_node("zoo", vec![]),
    ]
}

#[test]
fn catalogue_folds_and_unfolds() {
    let mut nodes = tree();
    let open = catalog_lines(&nodes);
    assert_eq!(
        open,
        texts(&[
            "\u{f01bc}shop",
            "├──\u{f04eb}orders",
            "│  ├──\u{f01fd}id",
            "│  └──\u{f01fd}total",
            "└──\u{f04eb}users",
            "\u{f01bc}zoo",
        ])
    );
    let mut at = 0;
    assert!(toggle_catalog_node(&mut nodes, 0, &mut at));
    let folded = catalog_lines(&nodes);
    assert_ne!(open, folded);
    let mut at = 0;
    toggle_catalog_node(&mut nodes, 0, &mut at);
    assert_eq!(catalog_lines(&nodes), open);
    let shown = sheet_texts(&catalog_sheet(&open));
    assert_eq!(shown.len(), open.len());
    assert_eq!(shown[1..5], open[1..5]);
    let loaded = loaded_entity_lines(
        "shop",
        &[LoadedTable { name: "orders".to_string(), fields: texts(&["id"]) }],
    );
    assert_eq!(
        loaded,
        texts(&["\u{f01bc}shop", "└──\u{f04eb}orders", "   └──\u{f01fd}id"])
    );
}

fn console() -> Console {
    let mut c = Console {
        focused: BitticePanel::Editor,
        catalog_nodes: vec![],
        catalog_data: vec![],
        catalog_selected: None,
        catalog_scroll: 0,
        editor: editor(&[""]),
        editor_scroll_x: 0,
        is_selecting: false,
        result_rows: None,
        results_scroll: 0,
    };
    c.show_catalog(tree());
    c
}

fn areas() -> ConsoleAreas {
    ConsoleAreas {
        catalog: Area { x: 0, y: 0, width: 20, height: 20 },
        editor: Area { x: 20, y: 0, width: 40, height: 10 },
        results: Area { x: 20, y: 10, width: 40, height: 10 },
    }
}

#[test]
fn console_routes_keys_and_clicks() {
    let mut c = console();
    let a = areas();
    c.handle_bittice_input(&a, ConsoleEvent::KeyPress { key: Key::Char('x'), held: FREE });
    assert_eq!(c.editor.lines, texts(&["x"]));
    c.handle_bittice_input(&a, ConsoleEvent::MouseDown { x: 1, y: 1 });
    assert!(matches!(c.focused, BitticePanel::Catalog));
    c.handle_bittice_input(&a, ConsoleEvent::MouseDown { x: 30, y: 12 });
    assert!(matches!(c.focused, BitticePanel::Results));
    assert!(a.editor.contains(20, 0));
    assert!(!a.editor.contains(60, 0));
    let r = c.handle_bittice_input(&a, ConsoleEvent::MouseUp);
    assert!(matches!(r, ConsoleAction::Nothing));
}

#[test]
fn grids_cut_and_fill_cells() {
    assert_eq!(fill("ab", 4), "ab  ");
    assert_eq!(clip("abcdefgh", 5).len(), 5);
    let g = grid(&texts(&["id", "city"]), &vec![texts(&["1", "rome"])]);
    let lines = sheet_texts(&g);
    assert!(lines.iter().any(|l| l.contains("rome")));
    assert!(lines.iter().all(|l| l.chars().count() == lines[0].chars().count()));
    assert!(cell("ab", 3).contains("ab"));
}

#[test]
fn results_are_shown_by_pages() {
    assert_eq!(pages(0, 100), 0);
    assert_eq!(pages(100, 100), 1);
    assert_eq!(pages(101, 100), 2);
    let page = ResultPage {
        headers: texts(&["id"]),
        rows: vec![texts(&["1"])],
        total: 1,
        counts: Some(vec![CountPage {
            headers: texts(&["city", "count"]),
            rows: vec![texts(&["rome", "2"])],
            sum: Some("2.00".to_string()),
        }]),
        micros: 1500,
        millis: "1.50".to_string(),
    };
    assert!(page.time_text(" ").contains("1.50"));
    let shown = sheet_texts(&page.show(1, 0));
    assert!(!shown.is_empty());
    assert!(shown.contains(&"  Total Sum: 2.00".to_string()));
    assert_eq!(
        line_text(&page_line(250, Some(100), 1)),
        " ← A  Page 1/3  D →   (Total found: 250)"
    );
}

#[test]
fn lists_go_round() {
    assert_eq!(next_index(Some(2), 3), 0);
    assert_eq!(next_index(None, 3), 0);
    assert_eq!(previous_index(Some(0), 3), 2);
    assert_eq!(previous_index(Some(next_index(Some(1), 3)), 3), 1);
}

#[test]
fn load_form_takes_a_typed_path() {
    let mut f = LoadForm::new();
    for c in "d.json".chars() {
        assert!(matches!(f.handle_load_input(Key::Char(c), '/', Some("d")), LoadAction::Suggest));
    }
    f.handle_load_input(Key::Enter, '/', Some("d"));
    assert_eq!(f.ndjson_path, "d.json");
    assert!(matches!(f.load_step, LoadStep::InputEntity));
    f.handle_load_input(Key::Char('e'), '/', Some("d"));
    f.handle_load_input(Key::Enter, '/', Some("d"));
    assert!(matches!(f.load_step, LoadStep::InputTable));
    assert!(matches!(f.handle_load_input(Key::Esc, '/', None), LoadAction::Leave));
}

#[test]
fn paths_are_suggested() {
    let entries = vec![
        FolderEntry { name: "d.ndjson".to_string(), path: "./d.ndjson".to_string(), is_folder: false },
        FolderEntry { name: "d.json".to_string(), path: "./d.json".to_string(), is_folder: false },
        FolderEntry { name: "docs".to_string(), path: "./docs".to_string(), is_folder: true },
        FolderEntry { name: "x".to_string(), path: "./x".to_string(), is_folder: false },
    ];
    let s = get_path_suggestions(&entries, "d", None, '/');
    assert_eq!(s, texts(&["./d.ndjson", "./docs/"]));
    assert_eq!(suggestion_query("~/a", Some("/home/me")), "/home/me/a");
}

fn read_op() -> SavedOperation {
    SavedOperation::Read(SavedQuery {
        name: "all".to_string(),
        entity: "shop".to_string(),
        table: "orders".to_string(),
        filter_values: vec![],
        limit_param: None,
        aggregation_values: vec![],
    })
}

fn change(name: &str) -> SavedChange {
    SavedChange { name: name.to_string(), entity: "shop".to_string(), table: "orders".to_string() }
}

#[test]
fn saved_operations_have_addresses() {
    let ops = vec![read_op(), SavedOperation::Insert(change("new"))];
    assert_eq!(ops[0].method(), "GET");
    assert_eq!(ops[1].method(), "POST");
    assert_eq!(ops[0].url("localhost", &ops), "http://localhost:3000/all");
    assert_eq!(ops[1].url("localhost", &ops), "http://localhost:3000/new");
    assert_eq!(ops[1].name(), "new");
    let mut panel = ServerPanel::started(None);
    panel.handle_server_input(Key::Down, &ops, "localhost:3000");
    assert!(matches!(
        panel.handle_server_input(Key::Esc, &ops, "localhost:3000"),
        ServerAction::Leave
    ));
    assert_eq!(
        saved_list(&ops, None),
        texts(&["all (Search: shop/orders)", "new (Insert: shop/orders)"])
    );
    assert_eq!(method_label(&ops[1]), "POST");
}

#[test]
fn main_menu_goes_down_and_up() {
    let mut app = App::new(vec![]);
    let first = app.menu_selected;
    app.menu_next();
    assert_ne!(app.menu_selected, first);
    app.menu_previous();
    assert_eq!(app.menu_selected, first);
    assert!(matches!(app.handle_main_menu_input(Key::Char('q')), MenuAction::Quit));
    app.scroll_results(Scroll::Down, false);
    app.scroll_results(Scroll::Up, false);
    assert_eq!(app.results_scroll, 0);
    assert!(!app.is_overlaid());
    let shown = sheet_texts(&get_menu_lines(&app.menu_items, app.menu_selected));
    assert_eq!(shown[1], "│ ◉ 1. Load                            │");
    assert_eq!(shown.len(), 6);
}

#[test]
fn search_panel_lists_its_items() {
    let mut p = SearchPanel::new();
    p.task = Some(Task::Search);
    p.criteria = SearchCriteria::Entity;
    p.entities = texts(&["shop"]);
    assert_eq!(
        sheet_texts(&p.left_items()),
        texts(&["Entity", "Table", "Filters", "Aggregations", "Order By", "Limit", "Fields"])
    );
    assert_eq!(sheet_texts(&p.middle_items()), texts(&["○ shop"]));
    p.entity = Some("shop".to_string());
    p.table = Some("orders".to_string());
    p.selected_fields = texts(&["a\"b", "c"]);
    assert_eq!(
        sheet_texts(&p.get_query_preview_lines(false)),
        texts(&[
            "Query Preview",
            "├── Entity: shop",
            "├── Table: orders",
            "├── Filters: ",
            "│   └── (None)",
            "├── Aggregations: ",
            "│   └── (None)",
            "├── Order By: []",
            "├── Limit: 100",
            "└── Fields: [\"a\\\"b\", \"c\"]",
        ])
    );
    assert_eq!(show_limit(Some(5)), "5");
    let f = Filter {
        field: "age".to_string(),
        op: ComparisonOp::Gt,
        value: Scalar::plain("3".to_string()),
        value_to: None,
        field_type: None,
        value_options: vec![],
        members: vec![],
    };
    assert_eq!(show_filter(&f), "age Gt 3");
}

#[test]
fn fields_and_values_are_offered() {
    assert_eq!(get_filtered_fields(&texts(&["b", "a"])), texts(&["a", "b"]));
    assert_eq!(
        get_field_values(&texts(&["y", "", "x"])),
        texts(&["Write value", "Variable (ask later)", "x", "y"])
    );
    let none: HashMap<String, u8> = HashMap::new();
    let file = bincode::serialize(&none).unwrap();
    assert_eq!(load_field_values(Some(&file)).len(), 2);
    assert_eq!(load_field_values(None).len(), 2);
}

#[test]
fn aggregations_are_told_by_json() {
    let q = AggregationRequest::parse(r#"{"TopN":{"field":"city","n":3}}"#).unwrap();
    assert_eq!(q.kind, Some("TopN".to_string()));
    assert_eq!(q.field, Some("city".to_string()));
    assert_eq!(q.n, Some(3));
    assert_eq!(q.group_by, None);
    assert!(AggregationRequest::parse("{}").is_none());
    assert_eq!(AggregationRequest::parse("7").unwrap().kind, None);
    let members = vec![("Count".to_string(), JsonCell::Nothing)];
    assert_eq!(AggregationRequest::of_members(&members).unwrap().kind, Some("Count".to_string()));
}

#[test]
fn startup_form_is_filled_in() {
    let empty = || CdcInfo {
        host: String::new(),
        port: String::new(),
        user: String::new(),
        pass: String::new(),
        database: String::new(),
        sync_all_databases: false,
        entity: String::new(),
        vpn_file: None,
    };
    let mut f = StartupForm {
        step: StartupStep::Host,
        selected: Some(0),
        input_buffer: String::new(),
        info: empty(),
        build_status: None,
    };
    for c in "db".chars() {
        assert!(matches!(f.handle_startup_input(Key::Char(c)), StartupAction::Nothing));
    }
    f.handle_startup_input(Key::Enter);
    assert_eq!(f.info.host, "db");
    assert!(matches!(f.step, StartupStep::Port));
}

#[test]
fn copying_is_reported() {
    let mut e = editor(&["ab"]);
    e.handle_native_editor(Key::Char('a'), CONTROL);
    match e.handle_native_editor(Key::Char('c'), CONTROL) {
        EditorAction::Copy(text) => assert_eq!(text, "ab"),
        _ => panic!("something is selected"),
    }
    e.report_copy(false);
    assert_eq!(e.status, None);
    e.report_copy(true);
    assert_eq!(e.status, Some(("Copied to clipboard".to_string(), true)));
}

#[test]
fn cursor_stays_in_the_text() {
    let mut e = editor(&["{}", "  b"]);
    e.cursor = (0, 1);
    for key in [
        Key::Enter,
        Key::Down,
        Key::Right,
        Key::Tab,
        Key::Char('x'),
        Key::Delete,
        Key::Backspace,
        Key::Left,
        Key::Up,
        Key::Up,
        Key::Delete,
    ] {
        e.handle_native_editor(key, FREE);
        assert!(e.cursor.0 < e.lines.len());
        assert!(e.cursor.1 <= e.lines[e.cursor.0].chars().count());
    }
}

#[test]
fn values_of_aggregations_are_their_texts() {
    let list: Vec<String> = ["{\"Distinct\": {\"field\": \"?\", \"n\": 2}}", "\"Count\"", "{\"Sum\": {\"expression\": \"a*b\"}}", "x"]
        .iter()
        .map(|s| s.to_string())
        .collect();
    assert_eq!(aggregation_values(&list), vec!["?".to_string(), "a*b".to_string()]);
    assert!(aggregation_values(&[]).is_empty());
}
