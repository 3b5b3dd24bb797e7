//! What holds of the panels: the menu, the console with its catalogue, its editor and its
//! results, and the panel of the server.

use crate::repl::catalog::{lines_of_tree, tree_toggled};
use crate::repl::console::{BitticePanel, ConsoleAreas, ConsoleEvent, ConsoleView};
use crate::repl::keys::{Held, Key};
use crate::repl::lists::{next_of, previous_of};
use crate::repl::search_panel::{SearchCriteria, Task};
use crate::repl::server_panel::{
    asked, batch_params, endpoint_url, named_from, params_of, query_params, OperationView,
    ServerActionView, ServerFocus, ServerView,
};
use crate::repl::state::{
    fits_task, fresh, offered_operations, saved_text, AppView, MenuAction, Scroll,
};
use crate::text::{decimal_spec, join_spec, text_less};
use crate::text_sort::{distinct_texts, law_distinct, law_texts_sorted, sorted_texts};
use vstd::prelude::*;

verus! {

/// The item behind one is the next, and behind the last the first; the item before one is
/// the one above, and before the first the last. Where none is selected, it is the first.
pub proof fn law_list_steps(i: usize, len: nat)
    requires
        i < len <= usize::MAX,
    ensures
        i + 1 < len ==> next_of(Some(i), len) == i + 1,
        i + 1 == len ==> next_of(Some(i), len) == 0,
        i > 0 ==> previous_of(Some(i), len) == i - 1,
        i == 0 ==> previous_of(Some(i), len) == len - 1,
        next_of(None, len) == 0,
        previous_of(None, len) == 0,
{
}

/// In the menu an arrow down selects the item below and an arrow up the one above, all
/// around; `q` and escape leave; and the first item begins loading.
pub proof fn law_menu(app: AppView, i: usize)
    requires
        app.selected == Some(i),
        i < app.items.len() <= usize::MAX,
    ensures
        ({
            let down = app.menu_key(Key::Down);
            let up = app.menu_key(Key::Up);
            let enter = app.menu_key(Key::Enter);
            &&& i + 1 < app.items.len() ==> down.0.selected == Some((i + 1) as usize)
            &&& i + 1 == app.items.len() ==> down.0.selected == Some(0usize)
            &&& i > 0 ==> up.0.selected == Some((i - 1) as usize)
            &&& i == 0 ==> up.0.selected == Some((app.items.len() - 1) as usize)
            &&& app.menu_key(Key::Char('q')) == (app, MenuAction::Quit)
            &&& app.menu_key(Key::Esc) == (app, MenuAction::Quit)
            &&& i == 0 ==> enter.1 == MenuAction::Suggest
            &&& i == 1 ==> enter.1 == MenuAction::StartChange(SearchCriteria::Create)
            &&& i == 2 ==> enter.1 == MenuAction::StartSearch
            &&& i == 3 ==> enter.1 == MenuAction::StartChange(SearchCriteria::Update)
            &&& i == 4 ==> enter.1 == MenuAction::StartChange(SearchCriteria::Delete)
            &&& i == 5 ==> enter.0.show_saved && !enter.0.editing
            &&& i == 6 ==> enter.1 == MenuAction::StartServer && enter.0.server.running
                && enter.0.server.logs.len() == 0
            &&& i == 8 ==> enter.1 == MenuAction::Quit
            &&& fresh(app.saved).selected == Some(0usize)
            &&& fresh(app.saved).page == 1
            &&& fresh(app.saved).search.limit == Some(100u64)
        }),
{
}

/// Scrolling up and down takes the results one line, and with shift, as to the left and to
/// the right, five columns, and never before the beginning.
pub proof fn law_results_scroll(app: AppView)
    requires
        app.scroll < 65530,
        app.scroll_x < 65530,
    ensures
        app.scrolled(Scroll::Down, false).scroll == app.scroll + 1,
        app.scrolled(Scroll::Down, false).scroll_x == app.scroll_x,
        app.scrolled(Scroll::Down, true).scroll_x == app.scroll_x + 5,
        app.scrolled(Scroll::Down, true).scroll == app.scroll,
        app.scroll > 0 ==> app.scrolled(Scroll::Up, false).scroll == app.scroll - 1,
        app.scroll == 0 ==> app.scrolled(Scroll::Up, false).scroll == 0,
        app.scroll_x >= 5 ==> app.scrolled(Scroll::Up, true).scroll_x == app.scroll_x - 5,
        app.scroll_x < 5 ==> app.scrolled(Scroll::Up, true).scroll_x == 0,
        app.scrolled(Scroll::Right, false).scroll_x == app.scroll_x + 5,
        app.scroll_x >= 5 ==> app.scrolled(Scroll::Left, false).scroll_x == app.scroll_x - 5,
        app.scroll_x < 5 ==> app.scrolled(Scroll::Left, false).scroll_x == 0,
{
}

/// The saved operations that are offered to a task are those of its kind, in their order,
/// each by its name, its kind and its table.
pub proof fn law_saved_operations(
    ops: Seq<OperationView>,
    last: OperationView,
    task: Option<Task>,
)
    ensures
        offered_operations(Seq::empty(), task).len() == 0,
        fits_task(last, task) ==> offered_operations(ops.push(last), task) == offered_operations(
            ops,
            task,
        ).push(saved_text(last)),
        !fits_task(last, task) ==> offered_operations(ops.push(last), task) == offered_operations(
            ops,
            task,
        ),
        last is Read ==> last.method() == "GET"@,
        last is Insert ==> last.method() == "POST"@,
        last is Update ==> last.method() == "PUT"@,
        last is Delete ==> last.method() == "DELETE"@,
        last is Batch ==> last.method() == "GET"@,
{
    assert(ops.push(last).drop_last() =~= ops);
}

proof fn lemma_asked(values: Seq<Seq<char>>, name: Seq<char>)
    ensures
        asked(values).contains(name) <==> values.contains(seq!['$'] + name),
    decreases values.len(),
{
    let whole = seq!['$'] + name;
    if values.len() > 0 {
        let front = values.drop_last();
        let last = values.last();
        lemma_asked(front, name);
        let old = asked(front);
        assert(whole.skip(1) =~= name);
        if last.len() > 0 && last[0] == '$' {
            assert(seq!['$'] + last.skip(1) =~= last);
        }
        if asked(values).contains(name) {
            let k = choose|k: int| 0 <= k < asked(values).len() && asked(values)[k] == name;
            if k < old.len() {
                assert(old[k] == name);
                let i = choose|i: int| 0 <= i < front.len() && front[i] == whole;
                assert(values[i] == whole);
            } else {
                assert(last == whole);
                assert(values[values.len() - 1] == whole);
            }
        }
        if values.contains(whole) {
            let i = choose|i: int| 0 <= i < values.len() && values[i] == whole;
            if i < front.len() {
                assert(front[i] == whole);
                let k = choose|k: int| 0 <= k < old.len() && old[k] == name;
                assert(asked(values)[k] == name);
            } else {
                assert(whole[0] == '$');
                assert(asked(values)[old.len() as int] == name);
            }
        }
    }
}

/// A saved query asks for a value by a name if and only if the value of a filter, the limit
/// or a text of an aggregation is a dollar sign and the name.
pub proof fn law_asked_values(
    filters: Seq<Seq<char>>,
    limit: Option<Seq<char>>,
    aggregations: Seq<Seq<char>>,
    name: Seq<char>,
)
    ensures
        query_params(filters, limit, aggregations).contains(name) <==> filters.contains(
            seq!['$'] + name,
        ) || limit == Some(seq!['$'] + name) || aggregations.contains(seq!['$'] + name),
{
    let whole = seq!['$'] + name;
    lemma_asked(filters, name);
    lemma_asked(aggregations, name);
    let a = asked(filters);
    let b = match limit {
        Some(p) => asked(seq![p]),
        None => Seq::empty(),
    };
    let c = asked(aggregations);
    if let Some(p) = limit {
        lemma_asked(seq![p], name);
        assert(seq![p].contains(whole) <==> p == whole) by {
            assert(seq![p][0] == p);
        }
    }
    let all = query_params(filters, limit, aggregations);
    assert(all == a + b + c);
    if all.contains(name) {
        let k = choose|k: int| 0 <= k < all.len() && all[k] == name;
        if k < a.len() {
            assert(a[k] == name);
        } else if k < a.len() + b.len() {
            assert(b[k - a.len()] == name);
        } else {
            assert(c[k - a.len() - b.len()] == name);
        }
    }
    if a.contains(name) {
        let k = choose|k: int| 0 <= k < a.len() && a[k] == name;
        assert(all[k] == name);
    }
    if b.contains(name) {
        let k = choose|k: int| 0 <= k < b.len() && b[k] == name;
        assert(all[a.len() + k] == name);
    }
    if c.contains(name) {
        let k = choose|k: int| 0 <= k < c.len() && c[k] == name;
        assert(all[a.len() + b.len() + k] == name);
    }
}

proof fn lemma_distinct_sorted(s: Seq<Seq<char>>)
    requires
        forall|i: int, j: int|
            #![trigger s[i], s[j]]
            0 <= i < j < s.len() ==> !text_less(s[j], s[i]),
    ensures
        forall|i: int, j: int|
            #![trigger distinct_texts(s)[i], distinct_texts(s)[j]]
            0 <= i < j < distinct_texts(s).len() ==> !text_less(
                distinct_texts(s)[j],
                distinct_texts(s)[i],
            ),
    decreases s.len(),
{
    if s.len() > 0 {
        let front = s.drop_last();
        assert forall|i: int, j: int|
            #![trigger front[i], front[j]]
            0 <= i < j < front.len() implies !text_less(front[j], front[i]) by {
            assert(front[i] == s[i] && front[j] == s[j]);
        }
        lemma_distinct_sorted(front);
        let old = distinct_texts(front);
        let new = distinct_texts(s);
        assert forall|i: int, j: int|
            #![trigger new[i], new[j]]
            0 <= i < j < new.len() implies !text_less(new[j], new[i]) by {
            assert(new[i] == old[i]);
            if j < old.len() {
                assert(new[j] == old[j]);
            } else {
                law_distinct(front, old[i]);
                assert(old.contains(old[i]));
                let k = choose|k: int| 0 <= k < front.len() && front[k] == old[i];
                assert(s[k] == old[i]);
                assert(s[s.len() - 1] == new[j]);
            }
        }
    }
}

/// The address of a saved operation is that of the server on port 3000 with its name, and
/// behind a question mark each value that it asks for, once, in the order of their names,
/// to be filled in.
pub proof fn law_addresses(host: Seq<char>, op: OperationView, ops: Seq<OperationView>)
    ensures
        ({
            let names = distinct_texts(sorted_texts(params_of(op, ops)));
            let base = "http://"@ + host + ":3000/"@ + op.name_of();
            &&& names.no_duplicates()
            &&& forall|i: int, j: int|
                #![trigger names[i], names[j]]
                0 <= i < j < names.len() ==> text_less(names[i], names[j])
            &&& forall|n: Seq<char>| #[trigger]
                names.contains(n) <==> params_of(op, ops).contains(n)
            &&& names.len() == 0 ==> endpoint_url(host, op, ops) == base
            &&& names.len() > 0 ==> endpoint_url(host, op, ops) == base + "?"@ + join_spec(
                Seq::new(names.len(), |i: int| names[i] + "=?"@),
                "&"@,
            )
        }),
{
    let all = params_of(op, ops);
    let sorted = sorted_texts(all);
    let names = distinct_texts(sorted);
    law_texts_sorted(all);
    lemma_distinct_sorted(sorted);
    law_distinct(sorted, Seq::empty());
    assert forall|i: int, j: int|
        #![trigger names[i], names[j]]
        0 <= i < j < names.len() implies text_less(names[i], names[j]) by {
        crate::text::lemma_text_less_total(names[i], names[j]);
    }
    assert forall|n: Seq<char>| #[trigger] names.contains(n) <==> all.contains(n) by {
        law_distinct(sorted, n);
        broadcast use vstd::seq_lib::group_to_multiset_ensures;

        assert(sorted.to_multiset().count(n) == all.to_multiset().count(n));
    }
    assert(crate::repl::server_panel::blanks(names) =~= Seq::new(
        names.len(),
        |i: int| names[i] + "=?"@,
    ));
}

proof fn lemma_named(ops: Seq<OperationView>, name: Seq<char>, from: int, at: int)
    requires
        0 <= from <= at < ops.len(),
        ops[at].name_of() == name,
        forall|i: int| from <= i < at ==> (#[trigger] ops[i]).name_of() != name,
    ensures
        named_from(ops, name, from) == Some(ops[at]),
    decreases at - from,
{
    if from < at {
        assert(ops[from].name_of() != name);
        lemma_named(ops, name, from + 1, at);
    }
}

/// A batch asks for what its queries ask for, in their order: those of the first saved
/// operation with the name, where that is a query.
pub proof fn law_batch_values(
    ops: Seq<OperationView>,
    names: Seq<Seq<char>>,
    name: Seq<char>,
    at: int,
)
    requires
        0 <= at < ops.len(),
        ops[at].name_of() == name,
        forall|i: int| 0 <= i < at ==> (#[trigger] ops[i]).name_of() != name,
    ensures
        batch_params(ops, Seq::empty()).len() == 0,
        batch_params(ops, names.push(name)) == batch_params(ops, names) + (match ops[at] {
            OperationView::Read { params, .. } => params,
            _ => Seq::empty(),
        }),
{
    lemma_named(ops, name, 0, at);
    assert(names.push(name).drop_last() =~= names);
    assert(batch_params(ops, names) + Seq::<Seq<char>>::empty() =~= batch_params(ops, names));
}

/// In the panel of the server an arrow goes through what has the focus, which tab changes;
/// `c` copies the address that is selected, or the line of the log, counted from the last;
/// and escape stops the server.
pub proof fn law_server_panel(s: ServerView, ops: Seq<OperationView>, host: Seq<char>, i: usize)
    requires
        i < ops.len() <= usize::MAX,
        s.endpoint == Some(i),
    ensures
        s.after(Key::Esc, ops, host).1 is Leave,
        !s.after(Key::Esc, ops, host).0.running,
        s.focus == ServerFocus::Endpoints <==> s.after(Key::Tab, ops, host).0.focus
            == ServerFocus::Logs,
        s.focus == ServerFocus::Endpoints ==> ({
            &&& s.after(Key::Down, ops, host).0.endpoint == Some(next_of(Some(i), ops.len()))
            &&& s.after(Key::Up, ops, host).0.endpoint == Some(previous_of(Some(i), ops.len()))
            &&& s.after(Key::Down, ops, host).0.log == s.log
            &&& s.after(Key::Char('c'), ops, host).1 == ServerActionView::Copy(
                endpoint_url(host, ops[i as int], ops),
            )
        }),
        s.focus == ServerFocus::Logs ==> (s.log matches Some(k) ==> (k < s.logs.len()
            <= usize::MAX ==> ({
            &&& s.after(Key::Down, ops, host).0.log == Some(next_of(Some(k), s.logs.len()))
            &&& s.after(Key::Up, ops, host).0.log == Some(previous_of(Some(k), s.logs.len()))
            &&& s.after(Key::Down, ops, host).0.endpoint == s.endpoint
            &&& s.after(Key::Char('c'), ops, host).1 == ServerActionView::Copy(
                s.logs.reverse()[k as int],
            )
        }))),
{
}

/// Tab goes from the catalogue to the editor and from the results to the catalogue, and
/// escape from the editor to the catalogue; elsewhere escape and `q` leave, and in the
/// catalogue `r` reads it again.
pub proof fn law_console_keys(c: ConsoleView, areas: ConsoleAreas, held: Held)
    ensures
        ({
            let tab = c.after(areas, ConsoleEvent::KeyPress { key: Key::Tab, held });
            let esc = c.after(areas, ConsoleEvent::KeyPress { key: Key::Esc, held });
            let quit = c.after(areas, ConsoleEvent::KeyPress { key: Key::Char('q'), held });
            let reload = c.after(areas, ConsoleEvent::KeyPress { key: Key::Char('r'), held });
            &&& c.focused == BitticePanel::Catalog ==> tab.0.focused == BitticePanel::Editor
                && esc.1 is Quit && quit.1 is Quit && reload.1 is Reload
            &&& c.focused == BitticePanel::Results ==> tab.0.focused == BitticePanel::Catalog
                && esc.1 is Quit && quit.1 is Quit && !(reload.1 is Reload)
            &&& c.focused == BitticePanel::Editor ==> esc.0.focused == BitticePanel::Catalog
                && esc.0.editor == c.editor && !(esc.1 is Quit) && !(quit.1 is Quit)
        }),
{
}

/// In the catalogue an arrow selects the line above or below, as far as there is one, and
/// the line that is selected is shown.
pub proof fn law_catalog_arrows(c: ConsoleView, areas: ConsoleAreas, i: usize, held: Held)
    requires
        c.focused == BitticePanel::Catalog,
        c.selected == Some(i),
        i < c.lines.len() <= usize::MAX,
        areas.catalog.height > 2,
        c.scroll <= i < c.scroll + areas.catalog.height - 2,
    ensures
        ({
            let up = c.after(areas, ConsoleEvent::KeyPress { key: Key::Up, held }).0;
            let down = c.after(areas, ConsoleEvent::KeyPress { key: Key::Down, held }).0;
            &&& i > 0 ==> up.selected == Some((i - 1) as usize)
            &&& i == 0 ==> up.selected == Some(i)
            &&& i + 1 < c.lines.len() ==> down.selected == Some((i + 1) as usize)
            &&& i + 1 == c.lines.len() ==> down.selected == Some(i)
            &&& up.scroll <= up.selected->0 < up.scroll + areas.catalog.height - 2
            &&& down.scroll <= down.selected->0 < down.scroll + areas.catalog.height - 2
            &&& up.lines == c.lines && down.lines == c.lines
        }),
{
}

/// A click in the editor puts the cursor where the mouse is: so many lines and columns
/// from the corner as the text is inside its border, behind the numbers of the lines, and
/// not beyond the last line or the end of the line. A selection begins there.
pub proof fn law_click_in_editor(c: ConsoleView, areas: ConsoleAreas, x: u16, y: u16)
    requires
        !areas.catalog.has(x, y),
        areas.editor.has(x, y),
        y > areas.editor.y,
        c.editor.lines.len() > 0,
        c.editor.lines.len() <= usize::MAX,
        forall|k: int| 0 <= k < c.editor.lines.len() ==> (#[trigger] c.editor.lines[k]).len()
            <= usize::MAX,
        x > areas.editor.x + decimal_spec(c.editor.lines.len()).len() + 2,
    ensures
        ({
            let t = c.after(areas, ConsoleEvent::MouseDown { x, y }).0;
            let l = y - areas.editor.y - 1 + c.editor.scroll;
            let col = x - areas.editor.x - 1 - (decimal_spec(c.editor.lines.len()).len() + 2)
                + c.scroll_x;
            &&& t.focused == BitticePanel::Editor
            &&& t.selecting
            &&& t.editor.lines == c.editor.lines
            &&& l < c.editor.lines.len() ==> t.editor.cursor.0 == l
            &&& l >= c.editor.lines.len() ==> t.editor.cursor.0 == c.editor.lines.len() - 1
            &&& col <= c.editor.lines[t.editor.cursor.0 as int].len() ==> t.editor.cursor.1 == col
            &&& col > c.editor.lines[t.editor.cursor.0 as int].len() ==> t.editor.cursor.1
                == c.editor.lines[t.editor.cursor.0 as int].len()
            &&& t.editor.selection == Some((t.editor.cursor, t.editor.cursor))
        }),
{
}

/// A click in the catalogue selects the line under the mouse, and opens or closes what
/// stands there; a click in the results goes there. Each panel has the focus after a click
/// into it.
pub proof fn law_click_in_catalog(c: ConsoleView, areas: ConsoleAreas, x: u16, y: u16)
    requires
        c.lines.len() <= usize::MAX,
    ensures
        ({
            let t = c.after(areas, ConsoleEvent::MouseDown { x, y }).0;
            let line = y - areas.catalog.y - 1 + c.scroll;
            &&& areas.catalog.has(x, y) ==> t.focused == BitticePanel::Catalog
            &&& areas.catalog.has(x, y) && y > areas.catalog.y && line < c.lines.len()
                ==> t.selected == Some(line as usize) && t.nodes
                == tree_toggled(c.nodes, line)
            &&& areas.catalog.has(x, y) && y > areas.catalog.y && line >= c.lines.len()
                ==> t.selected == c.selected && t.nodes == c.nodes
            &&& !areas.catalog.has(x, y) && !areas.editor.has(x, y) && areas.results.has(x, y)
                ==> t == (ConsoleView { focused: BitticePanel::Results, ..c })
            &&& !areas.catalog.has(x, y) && !areas.editor.has(x, y) && !areas.results.has(x, y)
                ==> t == c
        }),
{
}

/// A drag takes the end of the selection and the cursor along, and the beginning stays; and
/// where the mouse is let go where it was pressed, nothing is selected.
pub proof fn law_drag(c: ConsoleView, areas: ConsoleAreas, x: u16, y: u16)
    requires
        c.focused == BitticePanel::Editor,
        c.selecting,
        c.editor.selection is Some,
    ensures
        ({
            let t = c.after(areas, ConsoleEvent::MouseDrag { x, y }).0;
            let u = t.after(areas, ConsoleEvent::MouseUp).0;
            &&& t.editor.lines == c.editor.lines
            &&& t.editor.selection == Some(((c.editor.selection->0).0, t.editor.cursor))
            &&& !u.selecting
            &&& t.editor.cursor == (c.editor.selection->0).0 ==> u.editor.selection is None
            &&& t.editor.cursor != (c.editor.selection->0).0 ==> u.editor.selection
                == t.editor.selection
            &&& areas.editor.y < y < areas.editor.y + areas.editor.height - 1 ==> t.editor.scroll
                == c.editor.scroll
        }),
{
}

/// The wheel takes the panel that has the focus three lines, where the mouse is over it,
/// and no further than to the beginning and until the end is shown.
pub proof fn law_wheel(c: ConsoleView, areas: ConsoleAreas, x: u16, y: u16)
    requires
        c.lines.len() <= usize::MAX,
        c.editor.lines.len() <= usize::MAX,
    ensures
        ({
            let up = c.after(areas, ConsoleEvent::ScrollUp { x, y }).0;
            let down = c.after(areas, ConsoleEvent::ScrollDown { x, y }).0;
            let most = c.editor.lines.len() - (areas.editor.height - 2);
            &&& c.focused == BitticePanel::Editor && areas.editor.has(x, y) ==> ({
                &&& c.editor.scroll >= 3 ==> up.editor.scroll == c.editor.scroll - 3
                &&& c.editor.scroll < 3 ==> up.editor.scroll == 0
                &&& areas.editor.height >= 2 && c.editor.scroll + 3 <= most ==> down.editor.scroll
                    == c.editor.scroll + 3
                &&& areas.editor.height >= 2 && c.editor.scroll <= most < c.editor.scroll + 3
                    ==> down.editor.scroll == most
                &&& areas.editor.height >= 2 && c.editor.scroll > most ==> down == c
            })
            &&& c.focused == BitticePanel::Editor && !areas.editor.has(x, y) ==> up == c && down
                == c
            &&& c.focused == BitticePanel::Catalog && areas.catalog.has(x, y) ==> ({
                &&& c.scroll >= 3 ==> up.scroll == c.scroll - 3
                &&& c.scroll < 3 ==> up.scroll == 0
                &&& areas.catalog.height >= 2 && c.scroll + 3 <= c.lines.len() - (
                areas.catalog.height - 2) ==> down.scroll == c.scroll + 3
            })
            &&& c.focused == BitticePanel::Results && areas.results.has(x, y) ==> ({
                &&& c.results_scroll >= 3 ==> up.results_scroll == c.results_scroll - 3
                &&& c.results_scroll < 3 ==> up.results_scroll == 0
                &&& c.rows is None ==> down == c
                &&& areas.results.height >= 4 ==> (c.rows matches Some(n) ==> (c.results_scroll + 3
                    <= n - (areas.results.height - 4) < 65536 ==> down.results_scroll
                    == c.results_scroll + 3))
            })
        }),
{
}

/// What is pasted comes into the editor where it has the focus, and nowhere else.
pub proof fn law_paste_needs_focus(c: ConsoleView, areas: ConsoleAreas, text: String)
    ensures
        c.focused == BitticePanel::Editor ==> c.after(areas, ConsoleEvent::Paste(text)).0.editor
            == c.editor.pasted(text@),
        c.focused != BitticePanel::Editor ==> c.after(areas, ConsoleEvent::Paste(text)).0 == c,
{
}

/// In the catalogue enter opens or closes what is selected; in the results an arrow goes one
/// line up or down, and no further than to the beginning and until the end is shown.
pub proof fn law_enter_and_arrows(
    c: ConsoleView,
    areas: ConsoleAreas,
    held: Held,
    i: usize,
    rows: usize,
)
    requires
        i < c.lines.len(),
    ensures
        ({
            let enter = c.after(areas, ConsoleEvent::KeyPress { key: Key::Enter, held }).0;
            let up = c.after(areas, ConsoleEvent::KeyPress { key: Key::Up, held }).0;
            let down = c.after(areas, ConsoleEvent::KeyPress { key: Key::Down, held }).0;
            &&& c.focused == BitticePanel::Catalog && c.selected == Some(i) ==> enter.nodes
                == tree_toggled(c.nodes, i as int) && enter.lines == lines_of_tree(enter.nodes)
                && enter.selected == c.selected
            &&& c.focused == BitticePanel::Catalog && c.selected is None ==> enter == c
            &&& c.focused == BitticePanel::Results ==> ({
                &&& c.results_scroll > 0 ==> up.results_scroll == c.results_scroll - 1
                &&& c.results_scroll == 0 ==> up.results_scroll == 0
                &&& c.rows is None ==> down == c
                &&& c.rows == Some(rows) && areas.results.height >= 4 ==> ({
                    let most = rows - (areas.results.height - 4);
                    &&& c.results_scroll < most < 65536 ==> down.results_scroll == c.results_scroll
                        + 1
                    &&& most <= 0 ==> down.results_scroll == 0
                })
            })
        }),
{
}

} // verus!
