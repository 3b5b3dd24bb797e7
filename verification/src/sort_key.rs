//! How rows are put in order: cells that read as numbers first, then texts, then
//! rows without a cell.

use crate::column::{exact_text, read_exact};
use crate::segment::SegmentView;
use crate::sorting::{arrangement, decides, orders_below, sort_indices};
use crate::table::{find_first, first_segment, Table, TableView};
use crate::text::{
    chars_of, compare_text, lemma_text_less_asymmetric, lemma_text_less_total,
    lemma_text_less_transitive, text_less, Place,
};
use crate::types::{compare_doubles, not_a_number, number_key, SortDirection};
use vstd::prelude::*;

verus! {

/// By what a row is put in order.
#[derive(Debug)]
pub enum SortKey {
    /// A number, by its bits.
    Num(u64),
    Str(String),
    Missing,
}

/// What a `SortKey` stands for.
pub enum KeyView {
    Num(int),
    Str(Seq<char>),
    Missing,
}

impl View for SortKey {
    type V = KeyView;

    open spec fn view(&self) -> KeyView {
        match self {
            SortKey::Num(bits) => KeyView::Num(number_key(*bits)),
            SortKey::Str(s) => KeyView::Str(s@),
            SortKey::Missing => KeyView::Missing,
        }
    }
}

impl SortKey {
    /// Whether the key is no undefined number.
    pub open spec fn wf(&self) -> bool {
        self matches SortKey::Num(bits) ==> !not_a_number(*bits)
    }
}

/// Whether a key may stand before another in ascending order.
pub open spec fn key_at_most(a: KeyView, b: KeyView) -> bool {
    match (a, b) {
        (KeyView::Num(x), KeyView::Num(y)) => x <= y,
        (KeyView::Str(x), KeyView::Str(y)) => !text_less(y, x),
        (KeyView::Missing, KeyView::Missing) => true,
        (KeyView::Num(_), _) => true,
        (KeyView::Str(_), KeyView::Missing) => true,
        _ => false,
    }
}

/// Whether a key may stand before another.
pub open spec fn key_before(a: KeyView, b: KeyView, direction: SortDirection) -> bool {
    match direction {
        SortDirection::Asc => key_at_most(a, b),
        SortDirection::Desc => key_at_most(b, a),
    }
}

/// Of two keys one may stand before the other, and what may stand before a key may
/// stand before those behind it.
pub proof fn law_keys_ordered(a: KeyView, b: KeyView, c: KeyView, direction: SortDirection)
    ensures
        key_before(a, b, direction) || key_before(b, a, direction),
        key_before(a, b, direction) && key_before(b, c, direction) ==> key_before(a, c, direction),
{
    lemma_at_most(a, b, c);
    lemma_at_most(c, b, a);
}

proof fn lemma_at_most(a: KeyView, b: KeyView, c: KeyView)
    ensures
        key_at_most(a, b) || key_at_most(b, a),
        key_at_most(a, b) && key_at_most(b, c) ==> key_at_most(a, c),
{
    match (a, b) {
        (KeyView::Str(x), KeyView::Str(y)) => {
            lemma_text_less_asymmetric(x, y);
            if let KeyView::Str(z) = c {
                if !text_less(y, x) && !text_less(z, y) && text_less(z, x) {
                    lemma_text_less_total(x, y);
                    if x != y {
                        lemma_text_less_transitive(z, x, y);
                    }
                }
            }
        },
        _ => {},
    }
}

/// Whether a key may stand before another.
pub fn stands_before(a: &SortKey, b: &SortKey, direction: SortDirection) -> (r: bool)
    requires
        a.wf(),
        b.wf(),
    ensures
        r == key_before(a@, b@, direction),
{
    match direction {
        SortDirection::Asc => at_most(a, b),
        SortDirection::Desc => at_most(b, a),
    }
}

fn at_most(a: &SortKey, b: &SortKey) -> (r: bool)
    requires
        a.wf(),
        b.wf(),
    ensures
        r == key_at_most(a@, b@),
{
    match (a, b) {
        (SortKey::Num(x), SortKey::Num(y)) => match compare_doubles(*x, *y) {
            Some(Place::Greater) => false,
            _ => true,
        },
        (SortKey::Str(x), SortKey::Str(y)) => {
            proof {
                lemma_text_less_asymmetric(x@, y@);
            }
            match compare_text(x.as_str(), y.as_str()) {
                Place::Greater => false,
                _ => true,
            }
        },
        (SortKey::Missing, SortKey::Missing) => true,
        (SortKey::Num(_), _) => true,
        (SortKey::Str(_), SortKey::Missing) => true,
        _ => false,
    }
}

/// Whether a text begins with an ASCII digit.
pub open spec fn starts_with_digit(s: Seq<char>) -> bool {
    s.len() > 0 && '0' <= s[0] && s[0] <= '9'
}

/// The key of a text: a number, where it begins with a digit and reads as one.
pub open spec fn text_key(t: TableView, text: Seq<char>) -> KeyView {
    match t.reading(text).number {
        Some(bits) => if starts_with_digit(text) && !not_a_number(bits) {
            KeyView::Num(number_key(bits))
        } else {
            KeyView::Str(text)
        },
        None => KeyView::Str(text),
    }
}

/// The segment whose column gives the keys.
pub open spec fn key_holder(t: TableView, id: u64) -> Option<SegmentView> {
    if t.active is Some && t.active->0.segment.id == id {
        Some(t.active->0.segment)
    } else {
        match first_segment(t.segments, id) {
            Some(i) => Some(t.segments[i]),
            None => None,
        }
    }
}

/// The key of the row at a place.
pub open spec fn place_key(t: TableView, place: (u64, u32), field: Seq<char>) -> KeyView {
    match key_holder(t, place.0) {
        Some(s) => if s.columns.contains_key(field) {
            match exact_text(s.columns[field].data, s.columns[field].offsets, place.1 as int) {
                Some(text) => text_key(t, text),
                None => KeyView::Missing,
            }
        } else {
            KeyView::Missing
        },
        None => KeyView::Missing,
    }
}

/// Whether an order of places puts the rows in order by a field.
pub open spec fn ordered_by(
    t: TableView,
    ids: Seq<(u64, u32)>,
    order: Seq<usize>,
    field: Seq<char>,
    direction: SortDirection,
) -> bool {
    &&& arrangement(order, ids.len() as int)
    &&& forall|i: int, j: int|
        #![trigger order[i], order[j]]
        0 <= i < j < order.len() ==> key_before(
            place_key(t, ids[order[i] as int], field),
            place_key(t, ids[order[j] as int], field),
            direction,
        )
}

/// The rows in an order of places.
pub open spec fn arranged(ids: Seq<(u64, u32)>, order: Seq<usize>) -> Seq<(u64, u32)> {
    order.map_values(|k: usize| ids[k as int])
}

impl Table {
    fn text_key(&self, text: String) -> (r: SortKey)
        ensures
            r@ == text_key(self@, text@),
            r.wf(),
    {
        let value = self.reading(text.as_str());
        let cs = chars_of(text.as_str());
        if cs.len() > 0 && '0' <= cs[0] && cs[0] <= '9' {
            if let Some(bits) = value.number {
                if compare_doubles(bits, bits).is_some() {
                    return SortKey::Num(bits);
                }
            }
        }
        SortKey::Str(text)
    }

    fn place_key(&self, place: (u64, u32), field: &str) -> (r: SortKey)
        ensures
            r@ == place_key(self@, place, field@),
            r.wf(),
    {
        let mut column = None;
        let mut active = false;
        if let Some(w) = &self.active {
            if w.segment.id == place.0 {
                active = true;
                column = w.segment.columns.get(field);
                assert(column matches Some(c) ==> w.segment@.columns[field@] == c@);
            }
        }
        if !active {
            if let Some(i) = find_first(self.segments.as_slice(), place.0) {
                column = self.segments[i].columns.get(field);
                assert(column matches Some(c) ==> self.segments@[i as int]@.columns[field@] == c@);
            }
        }
        match column {
            Some(c) => match read_exact(c.data.as_slice(), c.offsets.as_slice(), place.1) {
                Some(text) => self.text_key(text),
                None => SortKey::Missing,
            },
            None => SortKey::Missing,
        }
    }

    /// Puts rows in order by a field.
    pub fn order_rows(&self, ids: &[(u64, u32)], field: &str, direction: SortDirection) -> (r: Vec<
        (u64, u32),
    >)
        ensures
            exists|order: Seq<usize>| #[trigger]
                ordered_by(self@, ids@, order, field@, direction) && r@ == arranged(ids@, order),
    {
        let mut keys: Vec<SortKey> = Vec::new();
        let n = ids.len();
        let mut i: usize = 0;
        while i < n
            invariant
                i <= n == ids@.len(),
                keys@.len() == i,
                forall|k: int|
                    0 <= k < i ==> (#[trigger] keys@[k])@ == place_key(self@, ids@[k], field@)
                        && keys@[k].wf(),
            decreases n - i,
        {
            keys.push(self.place_key(ids[i], field));
            i = i + 1;
        }
        let ghost rel = |a: int, b: int| key_before(keys@[a]@, keys@[b]@, direction);
        let keys_ref = &keys;
        let le = |a: usize, b: usize| -> (r: bool)
            requires
                a < keys_ref@.len(),
                b < keys_ref@.len(),
                forall|k: int| 0 <= k < keys_ref@.len() ==> (#[trigger] keys_ref@[k]).wf(),
            ensures
                r == key_before(keys_ref@[a as int]@, keys_ref@[b as int]@, direction),
        { stands_before(&keys_ref[a], &keys_ref[b], direction) };
        proof {
            assert(orders_below(n as int, rel)) by {
                assert forall|a: int, b: int|
                    #![trigger rel(a, b)]
                    0 <= a < n && 0 <= b < n implies rel(a, b) || rel(b, a) by {
                    law_keys_ordered(keys@[a]@, keys@[b]@, keys@[a]@, direction);
                }
                assert forall|a: int, b: int, c: int|
                    #![trigger rel(a, b), rel(b, c)]
                    0 <= a < n && 0 <= b < n && 0 <= c < n && rel(a, b) && rel(b, c) implies rel(
                    a,
                    c,
                ) by {
                    law_keys_ordered(keys@[a]@, keys@[b]@, keys@[c]@, direction);
                }
            }
            assert(decides(n as int, le, rel));
        }
        let order = sort_indices(n, &le, Ghost(rel));
        let mut out: Vec<(u64, u32)> = Vec::new();
        let mut k: usize = 0;
        while k < order.len()
            invariant
                k <= order@.len(),
                arrangement(order@, ids@.len() as int),
                out@ == arranged(ids@, order@).take(k as int),
            decreases order@.len() - k,
        {
            let at: usize = order[k];
            assert(at < ids@.len());
            let ghost before = out@;
            out.push(ids[at]);
            k = k + 1;
            assert(out@ =~= before.push(arranged(ids@, order@)[k - 1]));
            assert(out@ =~= arranged(ids@, order@).take(k as int));
        }
        proof {
            assert(arranged(ids@, order@).take(k as int) =~= arranged(ids@, order@));
            assert(ordered_by(self@, ids@, order@, field@, direction)) by {
                assert forall|i: int, j: int|
                    #![trigger order@[i], order@[j]]
                    0 <= i < j < order@.len() implies key_before(
                    place_key(self@, ids@[order@[i] as int], field@),
                    place_key(self@, ids@[order@[j] as int], field@),
                    direction,
                ) by {
                    assert(rel(order@[i] as int, order@[j] as int));
                    assert(keys@[order@[i] as int].wf());
                    assert(keys@[order@[j] as int].wf());
                }
            }
        }
        out
    }
}

} // verus!
