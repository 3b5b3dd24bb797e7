//! What holds of texts that are put together or taken apart: JSON, lines, ends of texts,
//! and the lines of the catalogue.

use crate::buffer_pool::{limit_of, within_budget};
use crate::entry_cache::{refreshed, trimmed, without};
use crate::json_text::{json_escape, json_escaped, JsonCellView};
use crate::phrase::{
    after_first, before_last, behind, end_stripped, end_trimmed, first_chars, last_chars,
    last_items, pieces, repeated, start_trimmed,
};
use crate::repl::catalog::{
    node_line, tree_height, tree_toggled, view_lines, CatalogNodeType, NodeView,
};
use crate::repl::editor::{plain_quote, text_lines, whole_lines};
use crate::text::{parsed_number, trim_spec};
use vstd::prelude::*;

verus! {

/// A text in JSON is that of its parts, one behind the other; a quote and a backslash come
/// behind a backslash, the line breaks and the tab by their letters, and no control
/// character as it is. Anything else stays.
pub proof fn law_json_text(a: Seq<char>, c: char)
    ensures
        json_escaped(Seq::empty()).len() == 0,
        json_escaped(a.push(c)) == json_escaped(a) + json_escape(c),
        json_escape('"') == seq!['\\', '"'],
        json_escape('\\') == seq!['\\', '\\'],
        json_escape('\n') == seq!['\\', 'n'],
        json_escape('\r') == seq!['\\', 'r'],
        json_escape('\t') == seq!['\\', 't'],
        c as u32 >= 0x20 && c != '"' && c != '\\' ==> json_escape(c) == seq![c],
        (c as u32) < 0x20 ==> json_escape(c)[0] == '\\' && json_escape(c).len() >= 2,
        JsonCellView::Text(a).written() == seq!['"'] + json_escaped(a) + seq!['"'],
        JsonCellView::Number(a).written() == a,
        JsonCellView::Other(a).written() == a,
        JsonCellView::Flag(true).written() == "true"@,
        JsonCellView::Flag(false).written() == "false"@,
        JsonCellView::Nothing.written() == "null"@,
        JsonCellView::Text(a).string() == Some(a),
        JsonCellView::Number(a).string() is None,
{
    assert(a.push(c).drop_last() =~= a);
}

/// A text is repeated as often as it is said; a front and an end can be taken off; and of
/// the characters and of the items the first or the last are kept.
pub proof fn law_ends_of_texts(s: Seq<char>, c: char, part: Seq<char>, n: nat)
    ensures
        repeated(s, 0).len() == 0,
        repeated(s, n + 1) == repeated(s, n) + s,
        end_trimmed(s.push(c), c) == end_trimmed(s, c),
        s.len() > 0 && s.last() != c ==> end_trimmed(s, c) == s,
        start_trimmed(seq![c] + s, c) == start_trimmed(s, c),
        s.len() > 0 && s[0] != c ==> start_trimmed(s, c) == s,
        part.len() > 0 ==> end_stripped(s + part, part) == end_stripped(s, part),
        !part.is_suffix_of(s) ==> end_stripped(s, part) == s,
        behind(part + s, part) == s,
        before_last(s.push(c)) == s,
        after_first(seq![c] + s) == s,
        first_chars(s, n as int).len() <= n || first_chars(s, n as int) == s,
        first_chars(s, n as int).is_prefix_of(s),
        s.len() > n ==> first_chars(s, n as int).len() == n && last_chars(s, n as int).len() == n,
        last_chars(s, n as int).is_suffix_of(s),
        s.len() <= n ==> last_chars(s, n as int) == s && first_chars(s, n as int) == s,
{
    assert(s.push(c).drop_last() =~= s);
    assert((seq![c] + s).skip(1) =~= s);
    if part.len() > 0 {
        let t = s + part;
        assert(t.skip(t.len() - part.len()) =~= part);
        assert(part.is_suffix_of(t));
        assert(t.take(t.len() - part.len()) =~= s);
    }
    assert((part + s).skip(part.len() as int) =~= s);
    if s.len() > n {
        let f = s.take(n as int);
        assert(s.take(f.len() as int) =~= f);
        let l = s.skip(s.len() - n);
        assert(s.skip(s.len() - l.len()) =~= l);
    } else {
        assert(s.take(s.len() as int) =~= s);
        assert(s.skip(0) =~= s);
    }
}

/// Of many lines the last are kept, in their order.
pub proof fn law_last_lines(v: Seq<Seq<char>>, n: nat, i: int)
    ensures
        v.len() <= n ==> last_items(v, n as int) == v,
        v.len() > n ==> last_items(v, n as int).len() == n,
        v.len() > n && 0 <= i < n ==> last_items(v, n as int)[i] == v[v.len() - n + i],
{
}

/// The pieces of a text: those before a cut and those behind it, and one where there is no
/// cut.
pub proof fn law_pieces(a: Seq<char>, c: char, b: Seq<char>)
    ensures
        pieces(a.push(c) + b, c) == pieces(a, c) + pieces(b, c),
        !a.contains(c) ==> pieces(a, c) == seq![a],
{
    let cut = crate::phrase::is_the(c);
    assert(cut(c));
    if !a.contains(c) {
        assert forall|i: int| 0 <= i < a.len() implies !cut(#[trigger] a[i]) by {
            assert(a.contains(a[i]));
        }
    }
    crate::laws::texts::law_cut_texts(a, c, b, cut);
}

proof fn lemma_whole_lines(line: Seq<char>, rest: Seq<char>, n: int)
    requires
        !line.contains('\n'),
        0 <= n <= rest.len(),
    ensures
        ({
            let s = line.push('\n') + rest;
            let got = whole_lines(s, line.len() + 1 + n);
            let want = whole_lines(rest, n);
            got.0 == seq![crate::repl::editor::without_return(line)] + want.0 && got.1 == want.1
        }),
    decreases n,
{
    let s = line.push('\n') + rest;
    if n == 0 {
        lemma_open_line(line, s, line.len() as int);
        assert(line.take(line.len() as int) =~= line);
        let first = crate::repl::editor::without_return(line);
        assert(s[line.len() as int] == '\n');
        assert(seq![first] + Seq::<Seq<char>>::empty() =~= seq![first]);
        assert(Seq::<Seq<char>>::empty().push(first) =~= seq![first]);
    } else {
        lemma_whole_lines(line, rest, n - 1);
        assert(s[line.len() + n] == rest[n - 1]);
        let first = crate::repl::editor::without_return(line);
        let done = whole_lines(rest, n - 1).0;
        let open_line = whole_lines(rest, n - 1).1;
        let next = crate::repl::editor::without_return(open_line);
        assert((seq![first] + done).push(next) =~= seq![first] + done.push(next));
    }
}

proof fn lemma_open_line(line: Seq<char>, s: Seq<char>, n: int)
    requires
        0 <= n <= line.len() <= s.len(),
        !line.contains('\n'),
        forall|i: int| 0 <= i < line.len() ==> #[trigger] s[i] == line[i],
    ensures
        whole_lines(s, n) == (Seq::<Seq<char>>::empty(), line.take(n)),
    decreases n,
{
    if n > 0 {
        lemma_open_line(line, s, n - 1);
        assert(s[n - 1] == line[n - 1]);
        assert(line.contains(line[n - 1]));
        assert(line.take(n - 1).push(line[n - 1]) =~= line.take(n));
    } else {
        assert(line.take(0) =~= Seq::empty());
    }
}

/// The lines of a text: what is before a line break, without a carriage return at its end,
/// and then those of what is behind it; a text without line breaks is one line, and an empty
/// one none.
pub proof fn law_lines(line: Seq<char>, rest: Seq<char>)
    requires
        !line.contains('\n'),
    ensures
        text_lines(line.push('\n') + rest) == seq![
            if line.len() > 0 && line.last() == '\r' {
                line.drop_last()
            } else {
                line
            },
        ] + text_lines(rest),
        line.len() > 0 ==> text_lines(line) == seq![line],
        text_lines(Seq::empty()).len() == 0,
{
    let s = line.push('\n') + rest;
    lemma_whole_lines(line, rest, rest.len() as int);
    let n = line.len() + 1 + rest.len();
    assert(s.len() == n);
    let first = crate::repl::editor::without_return(line);
    let (done, open_line) = whole_lines(rest, rest.len() as int);
    assert((seq![first] + done).push(open_line) =~= seq![first] + done.push(open_line));
    lemma_open_line(line, line, line.len() as int);
    assert(line.take(line.len() as int) =~= line);
    assert(Seq::<Seq<char>>::empty().push(line) =~= seq![line]);
}

/// What is pasted has plain quotes in place of curly ones.
pub proof fn law_quotes(c: char)
    ensures
        plain_quote('\u{201c}') == '"',
        plain_quote('\u{201d}') == '"',
        plain_quote('\u{2018}') == '\'',
        plain_quote('\u{2019}') == '\'',
        c != '\u{201c}' && c != '\u{201d}' && c != '\u{2018}' && c != '\u{2019}' ==> plain_quote(c)
            == c,
{
}

/// The limit on what is read ahead is told in mebibytes; where none is told, there is none.
/// What would go beyond it is not read.
pub proof fn law_read_ahead(setting: Seq<char>, mb: u64, fetched: u64, more: u64, limit: u64)
    requires
        mb < 0x100_0000_0000,
    ensures
        limit_of(None) is None,
        parsed_number(trim_spec(setting)) == Some(mb) ==> limit_of(Some(setting)) == Some(
            (mb * 1024 * 1024) as u64,
        ),
        parsed_number(trim_spec(setting)) is None ==> limit_of(Some(setting)) is None,
        within_budget(fetched, more, None),
        more > 0 && limit < u64::MAX ==> (within_budget(fetched, more, Some(limit)) <==> fetched
            + more <= limit),
{
}

proof fn lemma_without(
    s: Seq<(u128, Seq<(u64, Set<u32>)>)>,
    k: u128,
    e: (u128, Seq<(u64, Set<u32>)>),
)
    ensures
        without(s, k).contains(e) <==> s.contains(e) && e.0 != k,
    decreases s.len(),
{
    reveal(Seq::filter);
    if s.len() > 0 {
        let front = s.drop_last();
        let last = s.last();
        lemma_without(front, k, e);
        let w = without(front, k);
        if last.0 != k {
            assert(without(s, k) == w.push(last));
            assert(w.push(last)[w.len() as int] == last);
            if w.contains(e) {
                let j = choose|j: int| 0 <= j < w.len() && w[j] == e;
                assert(w.push(last)[j] == e);
            }
        } else {
            assert(without(s, k) == w);
        }
        if front.contains(e) {
            let j = choose|j: int| 0 <= j < front.len() && front[j] == e;
            assert(s[j] == e);
        }
        assert(s[s.len() - 1] == last);
        if s.contains(e) {
            let j = choose|j: int| 0 <= j < s.len() && s[j] == e;
            if j < front.len() {
                assert(front[j] == e);
            }
        }
    }
}

/// A list that is used comes to the front of what is kept, once; and where there are too
/// many, the one that was not used for the longest time leaves.
pub proof fn law_kept_lists(
    s: Seq<(u128, Seq<(u64, Set<u32>)>)>,
    k: u128,
    v: Seq<(u64, Set<u32>)>,
    limit: nat,
)
    ensures
        refreshed(s, k, v)[0] == (k, v),
        forall|i: int|
            0 < i < refreshed(s, k, v).len() ==> (#[trigger] refreshed(s, k, v)[i]).0 != k
                && s.contains(refreshed(s, k, v)[i]),
        forall|e: (u128, Seq<(u64, Set<u32>)>)|
            e.0 != k && #[trigger] s.contains(e) ==> refreshed(s, k, v).contains(e),
        s.len() <= limit ==> trimmed(s, limit) == s,
        s.len() > limit ==> trimmed(s, limit) == s.take(s.len() - 1),
{
    let r = refreshed(s, k, v);
    let w = without(s, k);
    assert forall|i: int| 0 < i < r.len() implies (#[trigger] r[i]).0 != k && s.contains(r[i]) by {
        assert(r[i] == w[i - 1]);
        assert(w.contains(w[i - 1]));
        lemma_without(s, k, w[i - 1]);
    }
    assert forall|e: (u128, Seq<(u64, Set<u32>)>)|
        e.0 != k && #[trigger] s.contains(e) implies r.contains(e) by {
        lemma_without(s, k, e);
        let j = choose|j: int| 0 <= j < w.len() && w[j] == e;
        assert(r[j + 1] == e);
    }
    if s.len() > limit {
        assert(s.drop_last() =~= s.take(s.len() - 1));
    }
}

/// A tree is shown node by node: an entity, a table or a field by its mark and its name, the
/// last one of its kind with the mark of the last; and below a node that is open what it
/// holds.
pub proof fn law_tree_lines(nodes: Seq<NodeView>, node: NodeView, parents: Seq<bool>)
    ensures
        view_lines(Seq::empty(), 0, parents).len() == 0,
        ({
            let n = nodes.len();
            let all = nodes.push(node);
            let before = view_lines(all, n, parents);
            let line = node_line(node.node_type, node.name, parents, true);
            &&& !node.is_expanded ==> view_lines(all, n + 1, parents) == before.push(line)
            &&& node.is_expanded ==> view_lines(all, n + 1, parents) == before.push(line)
                + view_lines(node.children, node.children.len(), parents.push(true))
        }),
        node_line(CatalogNodeType::Entity, node.name, parents, true) == "\u{f01bc}"@ + node.name,
        node_line(CatalogNodeType::Table, node.name, parents, true) == "\u{2514}\u{2500}\u{2500}"@
            + "\u{f04eb}"@ + node.name,
        node_line(CatalogNodeType::Table, node.name, parents, false) == "\u{251c}\u{2500}\u{2500}"@
            + "\u{f04eb}"@ + node.name,
{
    let n = nodes.len();
    let all = nodes.push(node);
    let line = node_line(node.node_type, node.name, parents, true);
    assert(all[n as int] == node);
    let before = view_lines(all, n, parents).push(line);
    if node.children.len() == 0 {
        assert(view_lines(node.children, 0, parents.push(true)) =~= Seq::empty());
        assert(before + Seq::<Seq<char>>::empty() =~= before);
    }
}

/// Closing an open node leaves its line and hides what it holds; opening it shows that
/// again.
pub proof fn law_toggled_node(node: NodeView)
    ensures
        tree_toggled(seq![node], 0)[0].is_expanded == !node.is_expanded,
        tree_toggled(seq![node], 0)[0].name == node.name,
        tree_toggled(seq![node], 0)[0].children == node.children,
        !node.is_expanded ==> tree_height(seq![node]) == 1,
        node.is_expanded ==> tree_height(seq![node]) == 1 + tree_height(node.children),
{
    let none = Seq::<NodeView>::empty();
    assert(seq![node].drop_last() =~= none);
    assert(tree_height(none) == 0);
    assert(seq![node].last() == node);
    assert(none.push(crate::repl::catalog::node_toggled(node, 0))[0]
        == crate::repl::catalog::node_toggled(node, 0));
}

} // verus!
