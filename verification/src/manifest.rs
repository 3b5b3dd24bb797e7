//! The catalogue of a table's segments.

use crate::text::texts;
use crate::textmap::TextMap;
use crate::types::{Scalar, ScalarView};
use vstd::prelude::*;

verus! {

/// The smallest and the greatest value of a column, in the order of texts.
pub struct Bounds {
    pub min: Scalar,
    pub max: Scalar,
}

/// What `Bounds` stand for.
#[verifier::ext_equal]
pub struct BoundsView {
    pub min: ScalarView,
    pub max: ScalarView,
}

impl View for Bounds {
    type V = BoundsView;

    open spec fn view(&self) -> BoundsView {
        BoundsView { min: self.min@, max: self.max@ }
    }
}

impl Clone for Bounds {
    fn clone(&self) -> (r: Self)
        ensures
            r@ == self@,
    {
        Bounds { min: self.min.clone(), max: self.max.clone() }
    }
}

/// The bounds of each column.
pub open spec fn bounds_map(m: Map<Seq<char>, Bounds>) -> Map<Seq<char>, BoundsView> {
    m.map_values(|b: Bounds| b@)
}

/// Copies the bounds of each column.
pub fn clone_bounds(m: &TextMap<Bounds>) -> (r: TextMap<Bounds>)
    ensures
        bounds_map(r@) == bounds_map(m@),
{
    let mut out: TextMap<Bounds> = TextMap::new();
    let n = m.len();
    let mut i: usize = 0;
    while i < n
        invariant
            i <= n == m.keys().len(),
            m.keys().no_duplicates(),
            m.keys().to_set() == m@.dom(),
            out@.dom() == m.keys().take(i as int).to_set(),
            forall|k: Seq<char>| #[trigger]
                out@.contains_key(k) ==> m@.contains_key(k) && out@[k]@ == m@[k]@,
        decreases n - i,
    {
        let key = m.key_at(i);
        let ghost before = out@;
        out.insert(key, m.value_at(i).clone());
        i = i + 1;
        proof {
            let keys = m.keys();
            assert(keys.take(i as int) =~= keys.take(i - 1).push(keys[i - 1]));
            keys.take(i - 1).lemma_push_to_set_commute(keys[i - 1]);
            assert(out@.dom() =~= keys.take(i as int).to_set());
        }
    }
    assert(m.keys().take(i as int) =~= m.keys());
    assert(bounds_map(out@) =~= bounds_map(m@));
    out
}

/// What the catalogue knows of a segment.
pub struct SegmentMeta {
    pub id: u64,
    /// The bounds of each column, by which a search can pass the segment over.
    pub min_max: TextMap<Bounds>,
    pub created_at: i64,
    pub record_count: u64,
    pub deleted_count: u64,
    /// The name of the segment's directory.
    pub path: String,
}

/// What a `SegmentMeta` stands for.
#[verifier::ext_equal]
pub struct MetaView {
    pub id: u64,
    pub min_max: Map<Seq<char>, BoundsView>,
    pub created_at: i64,
    pub record_count: u64,
    pub deleted_count: u64,
    pub path: Seq<char>,
}

impl View for SegmentMeta {
    type V = MetaView;

    open spec fn view(&self) -> MetaView {
        MetaView {
            id: self.id,
            min_max: bounds_map(self.min_max@),
            created_at: self.created_at,
            record_count: self.record_count,
            deleted_count: self.deleted_count,
            path: self.path@,
        }
    }
}

/// The entries of several segments.
pub open spec fn metas(s: Seq<SegmentMeta>) -> Seq<MetaView> {
    s.map_values(|m: SegmentMeta| m@)
}

/// The catalogue of a table.
pub struct Manifest {
    /// The segments that are no longer written to.
    pub segments: Vec<SegmentMeta>,
    /// The number of the segment that is written to.
    pub active_segment_id: u64,
    /// Grows with every change.
    pub last_sequence_number: u64,
    pub version: u64,
    /// The fields of the source data.
    pub original_fields: Vec<String>,
    /// The field that holds the primary key.
    pub primary_key: String,
    /// The columns of the primary key.
    pub primary_key_columns: Vec<String>,
}

/// What a `Manifest` stands for.
#[verifier::ext_equal]
pub struct ManifestView {
    pub segments: Seq<MetaView>,
    pub active_segment_id: u64,
    pub last_sequence_number: u64,
    pub version: u64,
    pub original_fields: Seq<Seq<char>>,
    pub primary_key: Seq<char>,
    pub primary_key_columns: Seq<Seq<char>>,
}

impl View for Manifest {
    type V = ManifestView;

    open spec fn view(&self) -> ManifestView {
        ManifestView {
            segments: metas(self.segments@),
            active_segment_id: self.active_segment_id,
            last_sequence_number: self.last_sequence_number,
            version: self.version,
            original_fields: texts(self.original_fields@),
            primary_key: self.primary_key@,
            primary_key_columns: texts(self.primary_key_columns@),
        }
    }
}

/// The entries without those of a segment.
pub open spec fn metas_without(s: Seq<MetaView>, id: u64) -> Seq<MetaView> {
    s.filter(|m: MetaView| m.id != id)
}

/// Taking the entries of a segment away keeps what the others stand for.
pub proof fn lemma_metas_without(s: Seq<SegmentMeta>, id: u64)
    ensures
        metas(entries_without(s, id)) == metas_without(metas(s), id),
    decreases s.len(),
{
    reveal(Seq::filter);
    if s.len() > 0 {
        let front = s.drop_last();
        lemma_metas_without(front, id);
        assert(metas(s).drop_last() =~= metas(front));
        assert(metas(s).last() == s.last()@);
        if s.last().id != id {
            assert(metas(entries_without(s, id)) =~= metas(entries_without(front, id)).push(
                s.last()@,
            ));
        }
    }
}

/// The entries without those of a segment.
pub open spec fn entries_without(s: Seq<SegmentMeta>, id: u64) -> Seq<SegmentMeta> {
    s.filter(|m: SegmentMeta| m.id != id)
}

impl Manifest {
    /// A catalogue without segments.
    pub fn new() -> (r: Manifest)
        ensures
            r.segments@ == Seq::<SegmentMeta>::empty(),
            r.active_segment_id == 0,
            r.last_sequence_number == 0,
            r.version == 1,
            r.original_fields@.len() == 0,
            r.primary_key@ == "PK"@,
            r.primary_key_columns@.len() == 0,
    {
        Manifest {
            segments: Vec::new(),
            active_segment_id: 0,
            last_sequence_number: 0,
            version: 1,
            original_fields: Vec::new(),
            primary_key: "PK".to_owned(),
            primary_key_columns: Vec::new(),
        }
    }

    /// Adds the entry of a segment at the end.
    pub fn add_segment(&mut self, segment: SegmentMeta)
        ensures
            final(self).segments@ == old(self).segments@.push(segment),
            final(self).same_but_segments(*old(self)),
    {
        self.segments.push(segment);
    }

    /// Removes every entry of a segment, and keeps the others in their order.
    pub fn remove_segment(&mut self, segment_id: u64)
        ensures
            final(self).segments@ == entries_without(old(self).segments@, segment_id),
            final(self).same_but_segments(*old(self)),
    {
        let ghost start = self.segments@;
        let ghost pred = |m: SegmentMeta| m.id != segment_id;
        let mut i: usize = 0;
        let ghost mut seen: int = 0;
        proof {
            reveal(Seq::filter);
            assert(start.take(0).filter(pred) =~= Seq::empty());
        }
        while i < self.segments.len()
            invariant
                i <= self.segments@.len(),
                0 <= seen <= start.len(),
                pred == (|m: SegmentMeta| m.id != segment_id),
                self.segments@.take(i as int) == start.take(seen).filter(pred),
                self.segments@.skip(i as int) == start.skip(seen),
                self.same_but_segments(*old(self)),
            decreases self.segments@.len() - i,
        {
            proof {
                assert(self.segments@.skip(i as int)[0] == self.segments@[i as int]);
                assert(start.skip(seen).len() > 0);
                assert(start.skip(seen)[0] == start[seen]);
                assert(start.take(seen + 1).drop_last() =~= start.take(seen));
                assert(start.take(seen + 1).last() == start[seen]);
                reveal(Seq::filter);
            }
            let ghost before = self.segments@;
            if self.segments[i].id == segment_id {
                let _gone = self.segments.remove(i);
                assert(self.segments@.take(i as int) =~= before.take(i as int));
                assert(self.segments@.skip(i as int) =~= before.skip(i as int).skip(1));
                assert(start.skip(seen).skip(1) =~= start.skip(seen + 1));
            } else {
                i = i + 1;
                assert(self.segments@.take(i as int) =~= before.take(i - 1).push(before[i - 1]));
                assert(self.segments@.skip(i as int) =~= before.skip(i - 1).skip(1));
                assert(start.skip(seen).skip(1) =~= start.skip(seen + 1));
            }
            proof {
                seen = seen + 1;
            }
        }
        proof {
            assert(self.segments@.skip(i as int).len() == 0);
            assert(start.take(seen) =~= start);
            assert(self.segments@.take(i as int) =~= self.segments@);
        }
    }

    /// Whether everything but the list of segments is the same.
    pub open spec fn same_but_segments(self, other: Manifest) -> bool {
        &&& self.active_segment_id == other.active_segment_id
        &&& self.last_sequence_number == other.last_sequence_number
        &&& self.version == other.version
        &&& self.original_fields == other.original_fields
        &&& self.primary_key == other.primary_key
        &&& self.primary_key_columns == other.primary_key_columns
    }
}

/// After a segment was removed, no entry of it is left, and every entry of
/// another one is.
pub proof fn law_removed_segment(s: Seq<SegmentMeta>, id: u64, m: SegmentMeta)
    ensures
        entries_without(s, id).contains(m) <==> s.contains(m) && m.id != id,
    decreases s.len(),
{
    reveal(Seq::filter);
    if s.len() > 0 {
        let front = s.drop_last();
        law_removed_segment(front, id, m);
        let out = entries_without(s, id);
        let kept = entries_without(front, id);
        if s.contains(m) {
            let i = choose|i: int| 0 <= i < s.len() && s[i] == m;
            if i < s.len() - 1 {
                assert(front[i] == m);
            }
        }
        if front.contains(m) {
            let i = choose|i: int| 0 <= i < front.len() && front[i] == m;
            assert(s[i] == m);
        }
        if s.last().id != id {
            assert(out =~= kept.push(s.last()));
            if kept.contains(m) {
                let i = choose|i: int| 0 <= i < kept.len() && kept[i] == m;
                assert(out[i] == m);
            }
            if m == s.last() {
                assert(out[kept.len() as int] == m);
                assert(s[s.len() - 1] == m);
            }
            if out.contains(m) {
                let i = choose|i: int| 0 <= i < out.len() && out[i] == m;
                if i < kept.len() {
                    assert(kept[i] == m);
                } else {
                    assert(s[s.len() - 1] == m);
                }
            }
        }
    }
}

/// Removing a segment that was just added, and was not there before, undoes the
/// addition.
pub proof fn law_remove_undoes_add(s: Seq<SegmentMeta>, m: SegmentMeta)
    requires
        forall|i: int| 0 <= i < s.len() ==> (#[trigger] s[i]).id != m.id,
    ensures
        entries_without(s.push(m), m.id) == s,
{
    reveal(Seq::filter);
    assert(s.push(m).drop_last() =~= s);
    lemma_none_removed(s, m.id);
}

proof fn lemma_none_removed(s: Seq<SegmentMeta>, id: u64)
    requires
        forall|i: int| 0 <= i < s.len() ==> (#[trigger] s[i]).id != id,
    ensures
        entries_without(s, id) == s,
    decreases s.len(),
{
    reveal(Seq::filter);
    if s.len() == 0 {
        assert(entries_without(s, id) =~= s);
    } else {
        let front = s.drop_last();
        assert forall|i: int| 0 <= i < front.len() implies (#[trigger] front[i]).id != id by {
            assert(front[i] == s[i]);
        }
        lemma_none_removed(front, id);
        assert(s[s.len() - 1].id != id);
        assert(front.push(s.last()) =~= s);
    }
}

} // verus!
