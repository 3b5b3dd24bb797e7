//! The tree of entities, tables and fields.

use crate::phrase::{cat2, cat3, cat4};
use crate::text::{clone_texts, same_text, texts};
use crate::text_sort::{law_texts_sorted, sort_texts, sorted_texts};
use vstd::prelude::*;

verus! {

/// What a node of the tree stands for.
#[derive(Clone, Copy, Debug, PartialEq, Eq, Structural)]
pub enum CatalogNodeType {
    Entity,
    Table,
    Field,
}

/// A node of the tree.
#[derive(Debug)]
pub struct CatalogNode {
    pub name: String,
    pub node_type: CatalogNodeType,
    pub children: Vec<CatalogNode>,
    pub is_expanded: bool,
    pub depth: usize,
}

/// The guides before a field: one step for each table above it.
pub open spec fn guides(parents: Seq<bool>, n: int) -> Seq<char>
    decreases n,
{
    if n <= 1 {
        Seq::empty()
    } else {
        guides(parents, n - 1) + (if parents[n - 1] {
            "   "@
        } else {
            "\u{2502}  "@
        })
    }
}

/// The branch before a node.
pub open spec fn branch(is_last: bool) -> Seq<char> {
    if is_last {
        "\u{2514}\u{2500}\u{2500}"@
    } else {
        "\u{251c}\u{2500}\u{2500}"@
    }
}

/// The line of a node.
pub open spec fn node_line(
    node_type: CatalogNodeType,
    name: Seq<char>,
    parents: Seq<bool>,
    is_last: bool,
) -> Seq<char> {
    match node_type {
        CatalogNodeType::Entity => "\u{f01bc}"@ + name,
        CatalogNodeType::Table => branch(is_last) + "\u{f04eb}"@ + name,
        CatalogNodeType::Field => guides(parents, parents.len() as int) + branch(is_last)
            + "\u{f01fd}"@ + name,
    }
}

/// The lines of the first `n` nodes of a list and of what is open below them.
pub open spec fn tree_lines(nodes: Seq<CatalogNode>, n: nat, parents: Seq<bool>) -> Seq<Seq<char>>
    decreases nodes, n,
{
    if n == 0 || n > nodes.len() {
        Seq::empty()
    } else {
        let node = nodes[n - 1];
        let is_last = n == nodes.len();
        let line = node_line(node.node_type, node.name@, parents, is_last);
        let front = tree_lines(nodes, (n - 1) as nat, parents).push(line);
        if node.is_expanded && node.children@.len() > 0 {
            front + tree_lines(node.children@, node.children@.len(), parents.push(is_last))
        } else {
            front
        }
    }
}

fn guide_text(parents: &[bool]) -> (r: String)
    requires
        parents@.len() > 0,
    ensures
        r@ == guides(parents@, parents@.len() as int),
{
    let mut out = String::new();
    let mut i: usize = 1;
    assert(out@ =~= Seq::empty());
    while i < parents.len()
        invariant
            1 <= i <= parents@.len(),
            out@ == guides(parents@, i as int),
        decreases parents@.len() - i,
    {
        if parents[i] {
            out.append("   ");
        } else {
            out.append("\u{2502}  ");
        }
        i = i + 1;
    }
    out
}

fn line_of(node: &CatalogNode, parents: &[bool], is_last: bool) -> (r: String)
    requires
        node.node_type == CatalogNodeType::Field ==> parents@.len() > 0,
    ensures
        r@ == node_line(node.node_type, node.name@, parents@, is_last),
{
    let twig = if is_last {
        "\u{2514}\u{2500}\u{2500}"
    } else {
        "\u{251c}\u{2500}\u{2500}"
    };
    match node.node_type {
        CatalogNodeType::Entity => cat2("\u{f01bc}", node.name.as_str()),
        CatalogNodeType::Table => cat3(twig, "\u{f04eb}", node.name.as_str()),
        CatalogNodeType::Field => {
            let front = guide_text(parents);
            cat4(front.as_str(), twig, "\u{f01fd}", node.name.as_str())
        },
    }
}

/// Whether no field stands at the top of a tree.
pub open spec fn fields_below(nodes: Seq<CatalogNode>, parents: Seq<bool>) -> bool {
    parents.len() > 0 || forall|i: int|
        0 <= i < nodes.len() ==> (#[trigger] nodes[i]).node_type != CatalogNodeType::Field
}

/// Puts the lines of the nodes, and of what is open below them, behind the others.
pub fn flatten_catalog_nodes(
    nodes: &Vec<CatalogNode>,
    result: &mut Vec<String>,
    parent_is_last: &[bool],
)
    requires
        fields_below(nodes@, parent_is_last@),
    ensures
        texts(final(result)@) == texts(old(result)@) + tree_lines(
            nodes@,
            nodes@.len(),
            parent_is_last@,
        ),
    decreases nodes@,
{
    let ghost start = texts(result@);
    let n = nodes.len();
    let mut i: usize = 0;
    assert(start + tree_lines(nodes@, 0, parent_is_last@) =~= start);
    while i < n
        invariant
            i <= n == nodes@.len(),
            fields_below(nodes@, parent_is_last@),
            texts(result@) == start + tree_lines(nodes@, i as nat, parent_is_last@),
        decreases n - i,
    {
        let node = &nodes[i];
        let is_last = i == n - 1;
        let ghost before = texts(result@);
        let line = line_of(node, parent_is_last, is_last);
        let ghost one = line@;
        result.push(line);
        let ghost front = tree_lines(nodes@, i as nat, parent_is_last@).push(one);
        assert(texts(result@) =~= before.push(one));
        assert(texts(result@) =~= start + front);
        if node.is_expanded && node.children.len() > 0 {
            let mut next: Vec<bool> = Vec::new();
            let mut j: usize = 0;
            while j < parent_is_last.len()
                invariant
                    j <= parent_is_last@.len(),
                    next@ == parent_is_last@.take(j as int),
                decreases parent_is_last@.len() - j,
            {
                next.push(parent_is_last[j]);
                j = j + 1;
                assert(next@ =~= parent_is_last@.take(j as int));
            }
            assert(parent_is_last@.take(j as int) =~= parent_is_last@);
            next.push(is_last);
            assert(next@ =~= parent_is_last@.push(is_last));
            flatten_catalog_nodes(&node.children, result, next.as_slice());
            assert(texts(result@) =~= start + (front + tree_lines(
                node.children@,
                node.children@.len(),
                parent_is_last@.push(is_last),
            )));
        }
        i = i + 1;
    }
}

/// What a `CatalogNode` stands for.
#[verifier::ext_equal]
pub struct NodeView {
    pub name: Seq<char>,
    pub node_type: CatalogNodeType,
    pub children: Seq<NodeView>,
    pub is_expanded: bool,
    pub depth: usize,
}

/// What a node stands for.
pub open spec fn node_view(node: CatalogNode) -> NodeView
    decreases node, 0nat,
{
    NodeView {
        name: node.name@,
        node_type: node.node_type,
        children: node_views(node.children@, node.children@.len()),
        is_expanded: node.is_expanded,
        depth: node.depth,
    }
}

/// What the first `n` nodes of a list stand for.
pub open spec fn node_views(nodes: Seq<CatalogNode>, n: nat) -> Seq<NodeView>
    decreases nodes, n,
{
    if n == 0 || n > nodes.len() {
        Seq::empty()
    } else {
        node_views(nodes, (n - 1) as nat).push(node_view(nodes[n - 1]))
    }
}

/// What the nodes of a list stand for.
pub open spec fn tree_view(nodes: Seq<CatalogNode>) -> Seq<NodeView> {
    node_views(nodes, nodes.len())
}

proof fn lemma_tree_view(nodes: Seq<CatalogNode>, n: nat)
    requires
        n <= nodes.len(),
    ensures
        node_views(nodes, n).len() == n,
        forall|i: int| 0 <= i < n ==> node_views(nodes, n)[i] == node_view(#[trigger] nodes[i]),
    decreases n,
{
    if n > 0 {
        lemma_tree_view(nodes, (n - 1) as nat);
    }
}

/// How many lines a node and what is open below it take.
pub open spec fn node_height(node: NodeView) -> nat
    decreases node, 0nat,
{
    if node.is_expanded {
        1 + tree_height(node.children)
    } else {
        1
    }
}

/// How many lines nodes and what is open below them take.
pub open spec fn tree_height(nodes: Seq<NodeView>) -> nat
    decreases nodes, 1nat,
{
    if nodes.len() == 0 {
        0
    } else {
        tree_height(nodes.drop_last()) + node_height(nodes.last())
    }
}

/// The node with the one on a line opened or closed.
pub open spec fn node_toggled(node: NodeView, line: int) -> NodeView
    decreases node, 0nat,
{
    if line == 0 {
        NodeView { is_expanded: !node.is_expanded, ..node }
    } else {
        NodeView { children: tree_toggled(node.children, line - 1), ..node }
    }
}

/// The nodes with the one on a line opened or closed.
pub open spec fn tree_toggled(nodes: Seq<NodeView>, line: int) -> Seq<NodeView>
    decreases nodes, 1nat,
{
    if nodes.len() == 0 {
        nodes
    } else {
        let above = tree_height(nodes.drop_last()) as int;
        if line < above {
            tree_toggled(nodes.drop_last(), line).push(nodes.last())
        } else if line < above + node_height(nodes.last()) {
            nodes.drop_last().push(node_toggled(nodes.last(), line - above))
        } else {
            nodes
        }
    }
}

proof fn lemma_height_step(nodes: Seq<NodeView>, i: int)
    requires
        0 <= i < nodes.len(),
    ensures
        tree_height(nodes.take(i + 1)) == tree_height(nodes.take(i)) + node_height(nodes[i]),
        tree_height(nodes.take(i + 1)) <= tree_height(nodes),
    decreases nodes.len(),
{
    assert(nodes.take(i + 1).drop_last() =~= nodes.take(i));
    assert(nodes.take(i + 1).last() == nodes[i]);
    if i == nodes.len() - 1 {
        assert(nodes.take(i + 1) =~= nodes);
    } else {
        let front = nodes.drop_last();
        lemma_height_step(front, i);
        assert(front.take(i + 1) =~= nodes.take(i + 1));
    }
}

proof fn lemma_toggled_at(nodes: Seq<NodeView>, i: int, line: int)
    requires
        0 <= i < nodes.len(),
        tree_height(nodes.take(i)) <= line < tree_height(nodes.take(i)) + node_height(nodes[i]),
    ensures
        tree_toggled(nodes, line) == nodes.update(
            i,
            node_toggled(nodes[i], line - tree_height(nodes.take(i))),
        ),
    decreases nodes.len(),
{
    let front = nodes.drop_last();
    let want = nodes.update(i, node_toggled(nodes[i], line - tree_height(nodes.take(i))));
    if i == nodes.len() - 1 {
        assert(nodes.take(i) =~= front);
        assert(tree_toggled(nodes, line) =~= want);
    } else {
        assert(front.take(i) =~= nodes.take(i));
        lemma_toggled_at(front, i, line);
        lemma_height_step(front, i);
        assert(tree_toggled(nodes, line) =~= want);
    }
}

/// Opens or closes the node on a line, counted from a number on, and tells whether
/// there is such a line; if not, the count goes on behind the last one.
pub fn toggle_catalog_node(
    nodes: &mut Vec<CatalogNode>,
    target_index: usize,
    current_index: &mut usize,
) -> (r: bool)
    requires
        *old(current_index) + tree_height(tree_view(old(nodes)@)) <= usize::MAX,
    ensures
        r == (*old(current_index) <= target_index < *old(current_index) + tree_height(
            tree_view(old(nodes)@),
        )),
        r ==> tree_view(final(nodes)@) == tree_toggled(
            tree_view(old(nodes)@),
            target_index - *old(current_index),
        ) && *final(current_index) == target_index,
        !r ==> tree_view(final(nodes)@) == tree_view(old(nodes)@) && *final(current_index)
            == *old(current_index) + tree_height(tree_view(old(nodes)@)),
    decreases old(nodes)@,
{
    let ghost start = nodes@;
    let ghost view = tree_view(start);
    let ghost at = *current_index as int;
    proof {
        lemma_tree_view(start, start.len());
        assert(view.take(0) =~= Seq::empty());
    }
    let n = nodes.len();
    let mut i: usize = 0;
    while i < n
        invariant
            i <= n == nodes@.len(),
            start == old(nodes)@,
            start.len() == n,
            view == tree_view(start),
            view.len() == n,
            forall|j: int| 0 <= j < n ==> view[j] == node_view(#[trigger] start[j]),
            forall|j: int| i <= j < n ==> #[trigger] nodes@[j] == start[j],
            forall|j: int| 0 <= j < n ==> node_view(#[trigger] nodes@[j]) == view[j],
            at == *old(current_index),
            at + tree_height(view) <= usize::MAX,
            *current_index == at + tree_height(view.take(i as int)),
            !(at <= target_index < *current_index),
        decreases n - i,
    {
        let ghost before = nodes@;
        proof {
            lemma_height_step(view, i as int);
            assert(view[i as int] == node_view(start[i as int]));
            assert(nodes@[i as int] == start[i as int]);
        }
        if *current_index == target_index {
            let open: bool = nodes[i].is_expanded;
            nodes[i].is_expanded = !open;
            proof {
                let line = target_index - at;
                lemma_toggled_at(view, i as int, line);
                let flipped = node_toggled(view[i as int], 0);
                assert(node_view(nodes@[i as int]) =~= flipped);
                lemma_tree_view(nodes@, nodes@.len());
                assert(tree_view(nodes@) =~= view.update(i as int, flipped)) by {
                    assert forall|j: int| 0 <= j < n implies tree_view(nodes@)[j] == view.update(
                        i as int,
                        flipped,
                    )[j] by {
                        if j != i {
                            assert(nodes@[j] == before[j]);
                        }
                        assert(node_view(nodes@[j]) == tree_view(nodes@)[j]);
                    }
                }
            }
            return true;
        }
        *current_index = *current_index + 1;
        if nodes[i].is_expanded && nodes[i].children.len() > 0 {
            let ghost kids = tree_view(nodes@[i as int].children@);
            let ghost inner = *current_index as int;
            let found = toggle_catalog_node(&mut nodes[i].children, target_index, current_index);
            proof {
                assert(view[i as int].children == kids);
                assert(nodes@[i as int].name == before[i as int].name);
                if found {
                    let line = target_index - at;
                    lemma_toggled_at(view, i as int, line);
                    let changed = node_toggled(
                        view[i as int],
                        line - tree_height(view.take(i as int)),
                    );
                    assert(node_view(nodes@[i as int]) =~= changed);
                    lemma_tree_view(nodes@, nodes@.len());
                    assert(tree_view(nodes@) =~= view.update(i as int, changed)) by {
                        assert forall|j: int| 0 <= j < n implies tree_view(nodes@)[j]
                            == view.update(i as int, changed)[j] by {
                            if j != i {
                                assert(nodes@[j] == before[j]);
                            }
                            assert(node_view(nodes@[j]) == tree_view(nodes@)[j]);
                        }
                    }
                } else {
                    assert(node_view(nodes@[i as int]) =~= view[i as int]);
                }
            }
            if found {
                return true;
            }
            proof {
                assert forall|j: int| 0 <= j < n implies node_view(#[trigger] nodes@[j])
                    == view[j] by {
                    if j != i {
                        assert(nodes@[j] == before[j]);
                    }
                }
                assert forall|j: int| i + 1 <= j < n implies #[trigger] nodes@[j] == start[j] by {
                    assert(nodes@[j] == before[j]);
                }
            }
        } else {
            proof {
                if view[i as int].is_expanded {
                    assert(view[i as int].children =~= Seq::empty());
                }
            }
        }
        i = i + 1;
    }
    proof {
        assert(view.take(i as int) =~= view);
        lemma_tree_view(nodes@, nodes@.len());
        assert(tree_view(nodes@) =~= view) by {
            assert forall|j: int| 0 <= j < n implies tree_view(nodes@)[j] == view[j] by {
                assert(node_view(nodes@[j]) == view[j]);
            }
        }
    }
    false
}

/// Opening or closing the node on a line twice gives the tree back.
pub proof fn law_toggle_twice(nodes: Seq<NodeView>, line: int)
    requires
        0 <= line < tree_height(nodes),
    ensures
        tree_toggled(tree_toggled(nodes, line), line) == nodes,
        line < tree_height(tree_toggled(nodes, line)),
    decreases nodes, 1nat,
{
    let front = nodes.drop_last();
    let above = tree_height(front) as int;
    let once = tree_toggled(nodes, line);
    if line < above {
        law_toggle_twice(front, line);
        assert(once.drop_last() =~= tree_toggled(front, line));
        assert(tree_toggled(once, line) =~= nodes);
    } else {
        lemma_node_twice(nodes.last(), line - above);
        assert(once.drop_last() =~= front);
        assert(tree_toggled(once, line) =~= nodes);
    }
}

proof fn lemma_node_twice(node: NodeView, line: int)
    requires
        0 <= line < node_height(node),
    ensures
        node_toggled(node_toggled(node, line), line) == node,
        line < node_height(node_toggled(node, line)),
    decreases node, 0nat,
{
    if line > 0 {
        law_toggle_twice(node.children, line - 1);
        assert(node_toggled(node_toggled(node, line), line) =~= node);
    } else {
        assert(node_toggled(node_toggled(node, line), line) =~= node);
    }
}

/// The tree has as many lines as nodes can be opened or closed by a line.
pub proof fn law_one_line_per_node(nodes: Seq<CatalogNode>, n: nat, parents: Seq<bool>)
    requires
        n <= nodes.len(),
    ensures
        tree_lines(nodes, n, parents).len() == tree_height(node_views(nodes, n)),
    decreases nodes, n,
{
    if n > 0 {
        let node = nodes[n - 1];
        let is_last = n == nodes.len();
        law_one_line_per_node(nodes, (n - 1) as nat, parents);
        assert(node_views(nodes, n).drop_last() =~= node_views(nodes, (n - 1) as nat));
        law_one_line_per_node(node.children@, node.children@.len(), parents.push(is_last));
        if node.children@.len() == 0 {
            assert(node_views(node.children@, 0) =~= Seq::empty());
        }
        assert(node_views(nodes, n).last() == node_view(node));
        assert(tree_height(node_views(nodes, n)) == tree_height(node_views(nodes, (n - 1) as nat))
            + node_height(node_view(node)));
    } else {
        assert(node_views(nodes, n) =~= Seq::empty());
    }
}

/// A closed node of a field.
pub open spec fn field_view(name: Seq<char>) -> NodeView {
    NodeView {
        name,
        node_type: CatalogNodeType::Field,
        children: Seq::empty(),
        is_expanded: false,
        depth: 2,
    }
}

/// The open node of a table, with its fields in order.
pub fn table_node(name: &str, fields: &[String]) -> (r: CatalogNode)
    ensures
        node_view(r) == (NodeView {
            name: name@,
            node_type: CatalogNodeType::Table,
            children: sorted_texts(texts(fields@)).map_values(|f: Seq<char>| field_view(f)),
            is_expanded: true,
            depth: 1,
        }),
{
    let sorted = sort_texts(fields);
    let ghost want = texts(sorted@).map_values(|f: Seq<char>| field_view(f));
    let mut children: Vec<CatalogNode> = Vec::new();
    let mut i: usize = 0;
    while i < sorted.len()
        invariant
            i <= sorted@.len(),
            children@.len() == i,
            want == texts(sorted@).map_values(|f: Seq<char>| field_view(f)),
            forall|k: int| 0 <= k < i ==> node_view(#[trigger] children@[k]) == want[k],
        decreases sorted@.len() - i,
    {
        let node = CatalogNode {
            name: sorted[i].clone(),
            node_type: CatalogNodeType::Field,
            children: Vec::new(),
            is_expanded: false,
            depth: 2,
        };
        proof {
            assert(node_views(node.children@, 0) =~= Seq::empty());
            assert(node_view(node) =~= want[i as int]);
        }
        children.push(node);
        i = i + 1;
    }
    let r = CatalogNode {
        name: name.to_owned(),
        node_type: CatalogNodeType::Table,
        children,
        is_expanded: true,
        depth: 1,
    };
    proof {
        lemma_tree_view(r.children@, r.children@.len());
        assert(tree_view(r.children@) =~= want) by {
            assert forall|k: int| 0 <= k < want.len() implies tree_view(r.children@)[k]
                == want[k] by {
                assert(node_view(r.children@[k]) == want[k]);
            }
        }
    }
    r
}

/// The open node of an entity, with its tables.
pub fn entity_node(name: &str, tables: Vec<CatalogNode>) -> (r: CatalogNode)
    ensures
        node_view(r) == (NodeView {
            name: name@,
            node_type: CatalogNodeType::Entity,
            children: tree_view(tables@),
            is_expanded: true,
            depth: 0,
        }),
{
    CatalogNode {
        name: name.to_owned(),
        node_type: CatalogNodeType::Entity,
        children: tables,
        is_expanded: true,
        depth: 0,
    }
}

/// A table and its fields, as they were found.
pub struct LoadedTable {
    pub name: String,
    pub fields: Vec<String>,
}

/// What a `LoadedTable` stands for.
#[verifier::ext_equal]
pub struct TableListing {
    pub name: Seq<char>,
    pub fields: Seq<Seq<char>>,
}

impl View for LoadedTable {
    type V = TableListing;

    open spec fn view(&self) -> TableListing {
        TableListing { name: self.name@, fields: texts(self.fields@) }
    }
}

/// What tables stand for.
pub open spec fn table_listings(v: Seq<LoadedTable>) -> Seq<TableListing> {
    v.map_values(|t: LoadedTable| t@)
}

/// An entity and its tables, as they were found.
pub struct LoadedEntity {
    pub name: String,
    pub tables: Vec<LoadedTable>,
}

/// What a `LoadedEntity` stands for.
#[verifier::ext_equal]
pub struct EntityListing {
    pub name: Seq<char>,
    pub tables: Seq<TableListing>,
}

impl View for LoadedEntity {
    type V = EntityListing;

    open spec fn view(&self) -> EntityListing {
        EntityListing { name: self.name@, tables: table_listings(self.tables@) }
    }
}

/// What entities stand for.
pub open spec fn entity_listings(v: Seq<LoadedEntity>) -> Seq<EntityListing> {
    v.map_values(|e: LoadedEntity| e@)
}

/// The first place of a name in a list.
pub open spec fn first_place(names: Seq<Seq<char>>, name: Seq<char>, from: int) -> int
    decreases names.len() - from,
{
    if from < 0 || from >= names.len() || names[from] == name {
        from
    } else {
        first_place(names, name, from + 1)
    }
}

/// The places of names in the order of the names; names in a folder are distinct.
pub open spec fn name_order(names: Seq<Seq<char>>) -> Seq<int> {
    sorted_texts(names).map_values(|n: Seq<char>| first_place(names, n, 0))
}

/// The names of tables.
pub open spec fn table_names(v: Seq<TableListing>) -> Seq<Seq<char>> {
    v.map_values(|t: TableListing| t.name)
}

/// The names of entities.
pub open spec fn entity_names(v: Seq<EntityListing>) -> Seq<Seq<char>> {
    v.map_values(|e: EntityListing| e.name)
}

/// The tables in the order of their names.
pub open spec fn tables_in_order(v: Seq<TableListing>) -> Seq<TableListing> {
    name_order(table_names(v)).map_values(|i: int| v[i])
}

/// The entities in the order of their names.
pub open spec fn entities_in_order(v: Seq<EntityListing>) -> Seq<EntityListing> {
    name_order(entity_names(v)).map_values(|i: int| v[i])
}

proof fn lemma_first_place(names: Seq<Seq<char>>, name: Seq<char>, from: int)
    requires
        0 <= from <= names.len(),
        exists|k: int| from <= k < names.len() && names[k] == name,
    ensures
        from <= first_place(names, name, from) < names.len(),
        names[first_place(names, name, from)] == name,
    decreases names.len() - from,
{
    if names[from] != name {
        let k = choose|k: int| from <= k < names.len() && names[k] == name;
        assert(from + 1 <= k);
        lemma_first_place(names, name, from + 1);
    }
}

/// Ordered places are places of the list, and hold the names in order.
pub(crate) proof fn lemma_name_order(names: Seq<Seq<char>>)
    ensures
        name_order(names).len() == names.len(),
        forall|k: int|
            0 <= k < names.len() ==> 0 <= #[trigger] name_order(names)[k] < names.len()
                && names[name_order(names)[k]] == sorted_texts(names)[k],
{
    law_texts_sorted(names);
    assert(sorted_texts(names).len() == names.len());
    assert forall|k: int| 0 <= k < names.len() implies 0 <= #[trigger] name_order(names)[k]
        < names.len() && names[name_order(names)[k]] == sorted_texts(names)[k] by {
        let n = sorted_texts(names)[k];
        assert(sorted_texts(names).to_multiset().count(n) > 0) by {
            sorted_texts(names).to_multiset_ensures();
            assert(sorted_texts(names).contains(n));
        }
        assert(names.contains(n)) by {
            names.to_multiset_ensures();
        }
        let j = choose|j: int| 0 <= j < names.len() && names[j] == n;
        lemma_first_place(names, n, 0);
    }
}

fn order_of(names: &Vec<String>) -> (r: Vec<usize>)
    ensures
        r@.len() == names@.len(),
        forall|k: int|
            0 <= k < r@.len() ==> #[trigger] r@[k] == name_order(texts(names@))[k] && r@[k]
                < names@.len(),
{
    let ghost view = texts(names@);
    proof {
        lemma_name_order(view);
    }
    let sorted = sort_texts(names.as_slice());
    let mut out: Vec<usize> = Vec::new();
    let mut i: usize = 0;
    assert(texts(sorted@).len() == sorted@.len());
    assert(view.len() == names@.len());
    while i < sorted.len()
        invariant
            i <= sorted@.len(),
            sorted@.len() == view.len(),
            view == texts(names@),
            view.len() == names@.len(),
            texts(sorted@) == sorted_texts(view),
            out@.len() == i,
            forall|k: int|
                0 <= k < view.len() ==> 0 <= #[trigger] name_order(view)[k] < view.len(),
            forall|k: int|
                0 <= k < out@.len() ==> #[trigger] out@[k] == name_order(view)[k] && out@[k]
                    < names@.len(),
        decreases sorted@.len() - i,
    {
        assert(texts(sorted@)[i as int] == sorted@[i as int]@);
        let ghost want = name_order(view)[i as int];
        assert(want == first_place(view, sorted@[i as int]@, 0));
        let mut k: usize = 0;
        while k < names.len() && !same_text(names[k].as_str(), sorted[i].as_str())
            invariant
                i < sorted@.len(),
                k <= names@.len(),
                view == texts(names@),
                want == first_place(view, sorted@[i as int]@, k as int),
            decreases names@.len() - k,
        {
            assert(view[k as int] == names@[k as int]@);
            k = k + 1;
        }
        proof {
            if k < names@.len() {
                assert(view[k as int] == names@[k as int]@);
            }
        }
        assert(k == want);
        out.push(k);
        i = i + 1;
    }
    out
}

fn copy_table(t: &LoadedTable) -> (r: LoadedTable)
    ensures
        r@ == t@,
{
    let r = LoadedTable { name: t.name.clone(), fields: clone_texts(t.fields.as_slice()) };
    assert(r@ =~= t@);
    r
}

fn sort_tables(tables: &Vec<LoadedTable>) -> (r: Vec<LoadedTable>)
    ensures
        table_listings(r@) == tables_in_order(table_listings(tables@)),
{
    let ghost view = table_listings(tables@);
    let mut names: Vec<String> = Vec::new();
    let mut i: usize = 0;
    while i < tables.len()
        invariant
            i <= tables@.len(),
            view == table_listings(tables@),
            names@.len() == i,
            forall|k: int| 0 <= k < i ==> (#[trigger] names@[k])@ == view[k].name,
        decreases tables@.len() - i,
    {
        assert(view[i as int] == tables@[i as int]@);
        names.push(tables[i].name.clone());
        i = i + 1;
    }
    assert(texts(names@) =~= table_names(view));
    let order = order_of(&names);
    let ghost want = tables_in_order(view);
    let mut out: Vec<LoadedTable> = Vec::new();
    let mut k: usize = 0;
    proof {
        lemma_name_order(table_names(view));
    }
    assert(table_listings(out@) =~= want.take(0));
    while k < order.len()
        invariant
            k <= order@.len(),
            order@.len() == tables@.len(),
            view == table_listings(tables@),
            want == tables_in_order(view),
            want.len() == tables@.len(),
            forall|j: int|
                0 <= j < order@.len() ==> #[trigger] order@[j] == name_order(table_names(view))[j]
                    && order@[j] < tables@.len(),
            table_listings(out@) == want.take(k as int),
        decreases order@.len() - k,
    {
        let ghost held = table_listings(out@);
        let at = order[k];
        assert(view[at as int] == tables@[at as int]@);
        assert(want[k as int] == view[at as int]);
        let t = copy_table(&tables[at]);
        let ghost tv = t@;
        out.push(t);
        assert(table_listings(out@) =~= held.push(tv));
        assert(want.take(k + 1) =~= want.take(k as int).push(want[k as int]));
        k = k + 1;
    }
    assert(want.take(k as int) =~= want);
    out
}

fn entity_order(entities: &Vec<LoadedEntity>) -> (r: Vec<usize>)
    ensures
        r@.len() == entities@.len(),
        forall|k: int|
            0 <= k < r@.len() ==> #[trigger] r@[k] == name_order(
                entity_names(entity_listings(entities@)),
            )[k] && r@[k] < entities@.len(),
{
    let ghost view = entity_listings(entities@);
    let mut names: Vec<String> = Vec::new();
    let mut i: usize = 0;
    while i < entities.len()
        invariant
            i <= entities@.len(),
            view == entity_listings(entities@),
            names@.len() == i,
            forall|k: int| 0 <= k < i ==> (#[trigger] names@[k])@ == view[k].name,
        decreases entities@.len() - i,
    {
        assert(view[i as int] == entities@[i as int]@);
        names.push(entities[i].name.clone());
        i = i + 1;
    }
    assert(texts(names@) =~= entity_names(view));
    order_of(&names)
}

/// The open node of a table that was found.
pub open spec fn table_tree(t: TableListing) -> NodeView {
    NodeView {
        name: t.name,
        node_type: CatalogNodeType::Table,
        children: sorted_texts(t.fields).map_values(|f: Seq<char>| field_view(f)),
        is_expanded: true,
        depth: 1,
    }
}

/// The open node of an entity that was found.
pub open spec fn entity_tree(e: EntityListing) -> NodeView {
    NodeView {
        name: e.name,
        node_type: CatalogNodeType::Entity,
        children: tables_in_order(e.tables).map_values(|t: TableListing| table_tree(t)),
        is_expanded: true,
        depth: 0,
    }
}

/// The tree of all that was found: entities, tables and fields in the order of their
/// names.
pub open spec fn catalog_of(entities: Seq<EntityListing>) -> Seq<NodeView> {
    entities_in_order(entities).map_values(|e: EntityListing| entity_tree(e))
}

fn entity_branch(e: &LoadedEntity) -> (r: CatalogNode)
    ensures
        node_view(r) == entity_tree(e@),
{
    let tables = sort_tables(&e.tables);
    let ghost listed = table_listings(tables@);
    let ghost want = listed.map_values(|t: TableListing| table_tree(t));
    let mut nodes: Vec<CatalogNode> = Vec::new();
    let mut i: usize = 0;
    while i < tables.len()
        invariant
            i <= tables@.len(),
            listed == table_listings(tables@),
            want == listed.map_values(|t: TableListing| table_tree(t)),
            nodes@.len() == i,
            forall|k: int| 0 <= k < i ==> node_view(#[trigger] nodes@[k]) == want[k],
        decreases tables@.len() - i,
    {
        assert(listed[i as int] == tables@[i as int]@);
        let n = table_node(tables[i].name.as_str(), tables[i].fields.as_slice());
        assert(node_view(n) == want[i as int]);
        nodes.push(n);
        i = i + 1;
    }
    proof {
        lemma_tree_view(nodes@, nodes@.len());
        assert(tree_view(nodes@) =~= want) by {
            assert forall|k: int| 0 <= k < want.len() implies tree_view(nodes@)[k]
                == want[k] by {
                assert(node_view(nodes@[k]) == want[k]);
            }
        }
    }
    entity_node(e.name.as_str(), nodes)
}

/// The tree of all that was found.
pub fn get_catalog_tree(entities: &Vec<LoadedEntity>) -> (r: Vec<CatalogNode>)
    ensures
        tree_view(r@) == catalog_of(entity_listings(entities@)),
        tops_fit(tree_view(r@)),
{
    let ghost view = entity_listings(entities@);
    let ghost want = catalog_of(view);
    let order = entity_order(entities);
    proof {
        lemma_name_order(entity_names(view));
    }
    let mut nodes: Vec<CatalogNode> = Vec::new();
    let mut i: usize = 0;
    while i < order.len()
        invariant
            i <= order@.len(),
            order@.len() == entities@.len(),
            view == entity_listings(entities@),
            want == catalog_of(view),
            want.len() == entities@.len(),
            forall|j: int|
                0 <= j < order@.len() ==> #[trigger] order@[j] == name_order(
                    entity_names(view),
                )[j] && order@[j] < entities@.len(),
            nodes@.len() == i,
            forall|k: int| 0 <= k < i ==> node_view(#[trigger] nodes@[k]) == want[k],
        decreases order@.len() - i,
    {
        let at = order[i];
        assert(view[at as int] == entities@[at as int]@);
        let n = entity_branch(&entities[at]);
        assert(entities_in_order(view)[i as int] == view[at as int]);
        assert(node_view(n) == want[i as int]);
        nodes.push(n);
        i = i + 1;
    }
    proof {
        lemma_tree_view(nodes@, nodes@.len());
        assert(tree_view(nodes@) =~= want) by {
            assert forall|k: int| 0 <= k < want.len() implies tree_view(nodes@)[k]
                == want[k] by {
                assert(node_view(nodes@[k]) == want[k]);
            }
        }
    }
    nodes
}

/// The line of a field below a table.
pub open spec fn loaded_field_line(
    last_table: bool,
    last_field: bool,
    field: Seq<char>,
) -> Seq<char> {
    (if last_table {
        "   "@
    } else {
        "\u{2502}  "@
    }) + branch(last_field) + "\u{f01fd}"@ + field
}

/// The lines of a table and its fields.
pub open spec fn loaded_table_lines(t: TableListing, is_last: bool) -> Seq<Seq<char>> {
    seq![branch(is_last) + "\u{f04eb}"@ + t.name] + Seq::new(
        t.fields.len(),
        |j: int| loaded_field_line(is_last, j == t.fields.len() - 1, t.fields[j]),
    )
}

/// The lines of the first `n` tables.
pub open spec fn loaded_lines(tables: Seq<TableListing>, n: nat) -> Seq<Seq<char>>
    decreases n,
{
    if n == 0 || n > tables.len() {
        Seq::empty()
    } else {
        loaded_lines(tables, (n - 1) as nat) + loaded_table_lines(
            tables[n - 1],
            n == tables.len(),
        )
    }
}

/// The lines of an entity that has tables; none for one without.
pub open spec fn entity_lines(entity: Seq<char>, tables: Seq<TableListing>) -> Seq<Seq<char>> {
    if tables.len() == 0 {
        Seq::empty()
    } else {
        seq!["\u{f01bc}"@ + entity] + loaded_lines(tables, tables.len())
    }
}

/// The lines of an entity and its tables.
pub fn loaded_entity_lines(entity: &str, tables: &[LoadedTable]) -> (r: Vec<String>)
    ensures
        texts(r@) == entity_lines(entity@, table_listings(tables@)),
{
    let ghost view = table_listings(tables@);
    let mut out: Vec<String> = Vec::new();
    if tables.len() == 0 {
        assert(texts(out@) =~= Seq::empty());
        return out;
    }
    out.push(cat2("\u{f01bc}", entity));
    let ghost head = seq!["\u{f01bc}"@ + entity@];
    assert(texts(out@) =~= head + loaded_lines(view, 0));
    let n = tables.len();
    let mut i: usize = 0;
    while i < n
        invariant
            i <= n == tables@.len(),
            view == table_listings(tables@),
            texts(out@) == head + loaded_lines(view, i as nat),
        decreases n - i,
    {
        let t = &tables[i];
        let is_last = i == n - 1;
        let ghost before = texts(out@);
        let twig = if is_last {
            "\u{2514}\u{2500}\u{2500}"
        } else {
            "\u{251c}\u{2500}\u{2500}"
        };
        assert(view[i as int] == t@);
        out.push(cat3(twig, "\u{f04eb}", t.name.as_str()));
        let ghost lines = loaded_table_lines(t@, is_last);
        assert(texts(out@) =~= before + lines.take(1));
        let m = t.fields.len();
        let mut j: usize = 0;
        assert(t@.fields.len() == m);
        while j < m
            invariant
                j <= m == t.fields@.len(),
                t@.fields.len() == m,
                lines == loaded_table_lines(t@, is_last),
                texts(out@) == before + lines.take(j + 1),
            decreases m - j,
        {
            let guide = if is_last {
                "   "
            } else {
                "\u{2502}  "
            };
            let end = if j == m - 1 {
                "\u{2514}\u{2500}\u{2500}"
            } else {
                "\u{251c}\u{2500}\u{2500}"
            };
            let ghost soon = texts(out@);
            assert(t@.fields[j as int] == t.fields@[j as int]@);
            out.push(cat4(guide, end, "\u{f01fd}", t.fields[j].as_str()));
            assert(texts(out@) =~= soon.push(lines[j + 1]));
            j = j + 1;
            assert(texts(out@) =~= before + lines.take(j + 1));
        }
        assert(lines.take(m + 1) =~= lines);
        i = i + 1;
        assert(texts(out@) =~= head + loaded_lines(view, i as nat));
    }
    out
}

/// The lines of the first `n` entities, each with its tables in the order of their names.
pub open spec fn data_lines(entities: Seq<EntityListing>, n: nat) -> Seq<Seq<char>>
    decreases n,
{
    if n == 0 || n > entities.len() {
        Seq::empty()
    } else {
        data_lines(entities, (n - 1) as nat) + entity_lines(
            entities[n - 1].name,
            tables_in_order(entities[n - 1].tables),
        )
    }
}

/// The lines of all that was found, the entities in the order of their names.
pub fn get_loaded_data(entities: &Vec<LoadedEntity>) -> (r: Vec<String>)
    ensures
        texts(r@) == data_lines(
            entities_in_order(entity_listings(entities@)),
            entities@.len(),
        ),
{
    let ghost view = entity_listings(entities@);
    let ghost ordered = entities_in_order(view);
    let order = entity_order(entities);
    proof {
        lemma_name_order(entity_names(view));
    }
    let mut out: Vec<String> = Vec::new();
    let mut i: usize = 0;
    assert(texts(out@) =~= Seq::empty());
    while i < order.len()
        invariant
            i <= order@.len(),
            order@.len() == entities@.len(),
            view == entity_listings(entities@),
            ordered == entities_in_order(view),
            ordered.len() == entities@.len(),
            forall|j: int|
                0 <= j < order@.len() ==> #[trigger] order@[j] == name_order(
                    entity_names(view),
                )[j] && order@[j] < entities@.len(),
            texts(out@) == data_lines(ordered, i as nat),
        decreases order@.len() - i,
    {
        let at = order[i];
        let e = &entities[at];
        assert(view[at as int] == e@);
        assert(ordered[i as int] == view[at as int]);
        let tables = sort_tables(&e.tables);
        let mut more = loaded_entity_lines(e.name.as_str(), tables.as_slice());
        let ghost held = texts(out@);
        let ghost new = texts(more@);
        out.append(&mut more);
        assert(texts(out@) =~= held + new);
        i = i + 1;
    }
    out
}

/// The entities of the tree stand in the order of their names, and none is left out.
pub proof fn law_catalog_is_in_order(entities: Seq<EntityListing>)
    ensures
        catalog_of(entities).map_values(|n: NodeView| n.name) == sorted_texts(
            entity_names(entities),
        ),
{
    lemma_name_order(entity_names(entities));
    law_texts_sorted(entity_names(entities));
    let names = catalog_of(entities).map_values(|n: NodeView| n.name);
    assert forall|k: int| 0 <= k < names.len() implies names[k] == sorted_texts(
        entity_names(entities),
    )[k] by {
        let at = name_order(entity_names(entities))[k];
        assert(0 <= at < entities.len());
        assert(entity_names(entities)[at] == entities[at].name);
    }
    assert(names =~= sorted_texts(entity_names(entities)));
}

/// The lines of the first `n` nodes of a list and of what is open below them.
pub open spec fn view_lines(nodes: Seq<NodeView>, n: nat, parents: Seq<bool>) -> Seq<Seq<char>>
    decreases nodes, n,
{
    if n == 0 || n > nodes.len() {
        Seq::empty()
    } else {
        let node = nodes[n - 1];
        let is_last = n == nodes.len();
        let line = node_line(node.node_type, node.name, parents, is_last);
        let front = view_lines(nodes, (n - 1) as nat, parents).push(line);
        if node.is_expanded && node.children.len() > 0 {
            front + view_lines(node.children, node.children.len(), parents.push(is_last))
        } else {
            front
        }
    }
}

/// The lines of a tree.
pub open spec fn lines_of_tree(nodes: Seq<NodeView>) -> Seq<Seq<char>> {
    view_lines(nodes, nodes.len(), Seq::empty())
}

proof fn lemma_lines_by_view(nodes: Seq<CatalogNode>, n: nat, parents: Seq<bool>)
    requires
        n <= nodes.len(),
    ensures
        tree_lines(nodes, n, parents) == view_lines(tree_view(nodes), n, parents),
    decreases nodes, n,
{
    if n > 0 {
        lemma_tree_view(nodes, nodes.len());
        lemma_lines_by_view(nodes, (n - 1) as nat, parents);
        let node = nodes[n - 1];
        assert(tree_view(nodes)[n - 1] == node_view(node));
        lemma_tree_view(node.children@, node.children@.len());
        lemma_lines_by_view(
            node.children@,
            node.children@.len(),
            parents.push(n == nodes.len()),
        );
    }
}

/// Whether no field stands at the top of a tree.
pub open spec fn tops_fit(nodes: Seq<NodeView>) -> bool {
    forall|i: int|
        0 <= i < nodes.len() ==> (#[trigger] nodes[i]).node_type != CatalogNodeType::Field
}

/// The lines of a tree.
pub fn catalog_lines(nodes: &Vec<CatalogNode>) -> (r: Vec<String>)
    requires
        tops_fit(tree_view(nodes@)),
    ensures
        texts(r@) == lines_of_tree(tree_view(nodes@)),
{
    let mut out: Vec<String> = Vec::new();
    let none: Vec<bool> = Vec::new();
    proof {
        lemma_tree_view(nodes@, nodes@.len());
        assert forall|i: int| 0 <= i < nodes@.len() implies (#[trigger] nodes@[i]).node_type
            != CatalogNodeType::Field by {
            assert(tree_view(nodes@)[i] == node_view(nodes@[i]));
        }
        lemma_lines_by_view(nodes@, nodes@.len(), none@);
        assert(none@ =~= Seq::empty());
        assert(texts(out@) =~= Seq::empty());
    }
    flatten_catalog_nodes(nodes, &mut out, none.as_slice());
    assert(texts(out@) =~= lines_of_tree(tree_view(nodes@)));
    out
}

/// A tree has as many lines as its height tells.
pub proof fn lemma_line_count(nodes: Seq<NodeView>, n: nat, parents: Seq<bool>)
    requires
        n <= nodes.len(),
    ensures
        view_lines(nodes, n, parents).len() == tree_height(nodes.take(n as int)),
    decreases nodes, n,
{
    if n > 0 {
        let node = nodes[n - 1];
        lemma_line_count(nodes, (n - 1) as nat, parents);
        lemma_height_step(nodes, n - 1);
        lemma_line_count(node.children, node.children.len(), parents.push(n == nodes.len()));
        assert(node.children.take(node.children.len() as int) =~= node.children);
    } else {
        assert(nodes.take(0) =~= Seq::empty());
    }
}

/// Opening or closing a node leaves every other node at its place, and the tops of a
/// tree what they are.
pub proof fn law_toggle_keeps_tops(nodes: Seq<NodeView>, line: int)
    ensures
        tree_toggled(nodes, line).len() == nodes.len(),
        forall|i: int|
            0 <= i < nodes.len() ==> (#[trigger] tree_toggled(nodes, line)[i]).node_type
                == nodes[i].node_type && tree_toggled(nodes, line)[i].name == nodes[i].name,
    decreases nodes.len(),
{
    if nodes.len() > 0 {
        let front = nodes.drop_last();
        law_toggle_keeps_tops(front, line);
        assert forall|i: int| 0 <= i < nodes.len() implies (#[trigger] tree_toggled(
            nodes,
            line,
        )[i]).node_type == nodes[i].node_type && tree_toggled(nodes, line)[i].name
            == nodes[i].name by {
            let above = tree_height(front) as int;
            if i < front.len() {
                assert(front[i] == nodes[i]);
                assert(tree_toggled(front, line)[i].node_type == front[i].node_type);
            } else if above <= line < above + node_height(nodes.last()) {
                let last = node_toggled(nodes.last(), line - above);
                assert(last.node_type == nodes.last().node_type && last.name
                    == nodes.last().name);
            }
        }
    }
}

} // verus!
