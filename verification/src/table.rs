//! A table: its segments, the places of its keys and the changes to its rows.

use crate::column::law_read_back;
use crate::field_index::FieldIndex;
use crate::manifest::{Manifest, ManifestView};
use crate::primary_index_io::{decode_places, decoded_places_v1, encode_places};
use crate::row_json::{cell_texts, decoded_row, encode_row};
use crate::segment::{
    cells_after, columns_after, columns_hold, law_append_keeps_columns, row_view, same_columns,
    Segment, SegmentView, SegmentWriter, WriterView,
};
use crate::text::{clone_texts, texts};
use crate::textmap::TextMap;
use crate::types::{Scalar, ScalarView};
use crate::wal::{read_log, LogView, OpView, Wal, WalOperation};
use vstd::prelude::*;

verus! {

/// A table of rows, each found by its key.
pub struct Table {
    pub name: String,
    pub manifest: Manifest,
    /// The segment that rows are appended to.
    pub active: Option<SegmentWriter>,
    /// The other segments, in the order of their numbers.
    pub segments: Vec<Segment>,
    /// The segment and the row of each key.
    pub primary_index: TextMap<(u64, u32)>,
    /// Indexes of fields that were used lately.
    pub cache: TextMap<FieldIndex>,
    /// The files of indexes of fields.
    pub saved: TextMap<Vec<u8>>,
    /// How texts of cells read as numbers and dates.
    pub readings: TextMap<Scalar>,
    /// How often the table was flushed since its places were saved.
    pub flush_count: u32,
}

/// What a `Table` stands for.
#[verifier::ext_equal]
pub struct TableView {
    pub name: Seq<char>,
    pub manifest: ManifestView,
    pub active: Option<WriterView>,
    pub segments: Seq<SegmentView>,
    pub places: Map<Seq<char>, (u64, u32)>,
    pub cache_keys: Seq<Seq<char>>,
    pub cache: Map<Seq<char>, Map<Seq<char>, Seq<(u64, Set<u32>)>>>,
    pub saved: Map<Seq<char>, Seq<u8>>,
    pub readings: Map<Seq<char>, ScalarView>,
    pub flush_count: u32,
}

/// What several segments stand for.
pub open spec fn segment_views(s: Seq<Segment>) -> Seq<SegmentView> {
    s.map_values(|x: Segment| x@)
}

/// What the writer, if there is one, stands for.
pub open spec fn writer_view(w: Option<SegmentWriter>) -> Option<WriterView> {
    match w {
        Some(x) => Some(x@),
        None => None,
    }
}

/// The indexes by their fields.
pub open spec fn cache_view(m: Map<Seq<char>, FieldIndex>) -> Map<
    Seq<char>,
    Map<Seq<char>, Seq<(u64, Set<u32>)>>,
> {
    m.map_values(|ix: FieldIndex| ix@)
}

/// The files by their fields.
pub open spec fn files_view(m: Map<Seq<char>, Vec<u8>>) -> Map<Seq<char>, Seq<u8>> {
    m.map_values(|f: Vec<u8>| f@)
}

impl View for Table {
    type V = TableView;

    open spec fn view(&self) -> TableView {
        TableView {
            name: self.name@,
            manifest: self.manifest@,
            active: writer_view(self.active),
            segments: segment_views(self.segments@),
            places: self.primary_index@,
            cache_keys: self.cache.keys(),
            cache: cache_view(self.cache@),
            saved: files_view(self.saved@),
            readings: row_view(self.readings@),
            flush_count: self.flush_count,
        }
    }
}

/// The first segment with a number.
pub open spec fn first_segment(s: Seq<SegmentView>, id: u64) -> Option<int>
    decreases s.len(),
{
    if s.len() == 0 {
        None
    } else {
        match first_segment(s.drop_last(), id) {
            Some(i) => Some(i),
            None => if s.last().id == id {
                Some(s.len() - 1)
            } else {
                None
            },
        }
    }
}

/// The last segment with a number.
pub open spec fn last_segment(s: Seq<SegmentView>, id: u64) -> Option<int>
    decreases s.len(),
{
    if s.len() == 0 {
        None
    } else if s.last().id == id {
        Some(s.len() - 1)
    } else {
        last_segment(s.drop_last(), id)
    }
}

proof fn lemma_first_segment(s: Seq<SegmentView>, n: int, id: u64)
    requires
        0 <= n < s.len(),
        first_segment(s.take(n), id) is None,
        s[n].id == id,
    ensures
        first_segment(s, id) == Some(n),
    decreases s.len() - n,
{
    if n == s.len() - 1 {
        assert(s.drop_last() =~= s.take(n));
    } else {
        let front = s.drop_last();
        assert(front.take(n) =~= s.take(n));
        lemma_first_segment(front, n, id);
    }
}

/// The place of the first segment with a number.
pub fn find_first(segments: &[Segment], id: u64) -> (r: Option<usize>)
    ensures
        match r {
            Some(i) => i < segments@.len() && segments@[i as int].id == id && first_segment(
                segment_views(segments@),
                id,
            ) == Some(i as int),
            None => first_segment(segment_views(segments@), id) is None,
        },
{
    let ghost view = segment_views(segments@);
    let mut i: usize = 0;
    while i < segments.len()
        invariant
            i <= segments@.len(),
            view == segment_views(segments@),
            first_segment(view.take(i as int), id) is None,
        decreases segments@.len() - i,
    {
        if segments[i].id == id {
            proof {
                lemma_first_segment(view, i as int, id);
            }
            return Some(i);
        }
        assert(view.take(i + 1).drop_last() =~= view.take(i as int));
        i = i + 1;
    }
    assert(view.take(i as int) =~= view);
    None
}

/// The place of the last segment with a number.
pub fn find_last(segments: &[Segment], id: u64) -> (r: Option<usize>)
    ensures
        match r {
            Some(i) => i < segments@.len() && segments@[i as int].id == id && last_segment(
                segment_views(segments@),
                id,
            ) == Some(i as int),
            None => last_segment(segment_views(segments@), id) is None,
        },
{
    let ghost view = segment_views(segments@);
    let mut i: usize = segments.len();
    assert(view.take(i as int) =~= view);
    while i > 0
        invariant
            i <= segments@.len(),
            view == segment_views(segments@),
            last_segment(view, id) == last_segment(view.take(i as int), id),
        decreases i,
    {
        assert(view.take(i as int).drop_last() =~= view.take(i - 1));
        assert(view.take(i as int).last() == view[i - 1]);
        i = i - 1;
        if segments[i].id == id {
            return Some(i);
        }
    }
    None
}

/// Where a segment belongs among segments in the order of their numbers: behind
/// those whose number is not greater.
pub open spec fn slot_by_id(s: Seq<SegmentView>, id: u64) -> int
    decreases s.len(),
{
    if s.len() == 0 || s.last().id <= id {
        s.len() as int
    } else {
        slot_by_id(s.drop_last(), id)
    }
}

/// The segments in the order of their numbers; those of one number keep their
/// order.
pub open spec fn by_id(s: Seq<SegmentView>) -> Seq<SegmentView>
    decreases s.len(),
{
    if s.len() == 0 {
        Seq::empty()
    } else {
        let front = by_id(s.drop_last());
        front.insert(slot_by_id(front, s.last().id), s.last())
    }
}

proof fn lemma_slot(s: Seq<SegmentView>, id: u64)
    ensures
        0 <= slot_by_id(s, id) <= s.len(),
        forall|k: int| slot_by_id(s, id) <= k < s.len() ==> (#[trigger] s[k]).id > id,
        slot_by_id(s, id) > 0 ==> s[slot_by_id(s, id) - 1].id <= id,
    decreases s.len(),
{
    if s.len() > 0 && s.last().id > id {
        let front = s.drop_last();
        lemma_slot(front, id);
        assert forall|k: int| slot_by_id(s, id) <= k < s.len() implies (#[trigger] s[k]).id > id by {
            if k < front.len() {
                assert(front[k].id > id);
            }
        }
    }
}

/// The segments in the order of their numbers are the same segments, and no
/// number is greater than one behind it.
pub proof fn law_segments_in_order(s: Seq<SegmentView>)
    ensures
        by_id(s).len() == s.len(),
        by_id(s).to_multiset() == s.to_multiset(),
        forall|i: int, j: int|
            #![trigger by_id(s)[i], by_id(s)[j]]
            0 <= i < j < s.len() ==> by_id(s)[i].id <= by_id(s)[j].id,
    decreases s.len(),
{
    broadcast use vstd::seq_lib::group_to_multiset_ensures;

    if s.len() == 0 {
        assert(s =~= Seq::empty());
    } else {
        let front = by_id(s.drop_last());
        law_segments_in_order(s.drop_last());
        let k = slot_by_id(front, s.last().id);
        lemma_slot(front, s.last().id);
        let all = by_id(s);
        vstd::seq_lib::to_multiset_insert(front, k, s.last());
        assert(s =~= s.drop_last().push(s.last()));
        vstd::seq_lib::to_multiset_build(s.drop_last(), s.last());
        assert forall|i: int, j: int|
            #![trigger all[i], all[j]]
            0 <= i < j < s.len() implies all[i].id <= all[j].id by {
            if i < k {
                assert(all[i] == front[i]);
                assert(front[i].id <= front[k - 1].id) by {
                    if i < k - 1 {
                        assert(front[i].id <= front[k - 1].id);
                    }
                }
                if j < k {
                    assert(all[j] == front[j]);
                } else if j > k {
                    assert(all[j] == front[j - 1]);
                }
            } else if i == k {
                assert(all[j] == front[j - 1]);
            } else {
                assert(all[i] == front[i - 1]);
                assert(all[j] == front[j - 1]);
            }
        }
    }
}

/// Whether the rows of each of some segments can be numbered.
pub open spec fn all_numbered(s: Seq<Segment>) -> bool {
    forall|i: int| 0 <= i < s.len() ==> (#[trigger] s[i]).wf()
}

/// Puts segments in the order of their numbers.
pub fn sort_segments(loaded: Vec<Segment>) -> (r: Vec<Segment>)
    ensures
        segment_views(r@) == by_id(segment_views(loaded@)),
        all_numbered(loaded@) ==> all_numbered(r@),
{
    let ghost want = segment_views(loaded@);
    let mut rest = loaded;
    let mut out: Vec<Segment> = Vec::new();
    let ghost mut n: int = 0;
    assert(want.take(0) =~= Seq::empty());
    assert(segment_views(out@) =~= Seq::empty());
    while rest.len() > 0
        invariant
            0 <= n <= want.len(),
            segment_views(rest@) == want.skip(n),
            segment_views(out@) == by_id(want.take(n)),
            all_numbered(loaded@) ==> all_numbered(rest@) && all_numbered(out@),
        decreases rest@.len(),
    {
        let ghost left = segment_views(rest@);
        assert(left.len() == rest@.len());
        assert(want.skip(n).len() == want.len() - n);
        let seg = rest.remove(0);
        let ghost view = segment_views(out@);
        assert(segment_views(rest@) =~= left.skip(1));
        assert(left.skip(1) =~= want.skip(n + 1));
        assert(left[0] == seg@);
        assert(want[n] == seg@);
        let mut k: usize = out.len();
        assert(view.take(k as int) =~= view);
        while k > 0 && out[k - 1].id > seg.id
            invariant
                k <= out@.len(),
                view == segment_views(out@),
                slot_by_id(view, seg.id) == slot_by_id(view.take(k as int), seg.id),
            decreases k,
        {
            assert(view.take(k as int).last() == view[k - 1]);
            assert(view.take(k as int).drop_last() =~= view.take(k - 1));
            k = k - 1;
        }
        assert(k == slot_by_id(view, seg.id)) by {
            if k > 0 {
                assert(view.take(k as int).last() == view[k - 1]);
            }
        }
        let ghost one = seg@;
        out.insert(k, seg);
        proof {
            assert(segment_views(out@) =~= view.insert(k as int, one));
            assert(want.take(n + 1).drop_last() =~= want.take(n));
            assert(want.take(n + 1).last() == want[n]);
            assert(segment_views(rest@) =~= want.skip(n + 1));
            n = n + 1;
        }
    }
    proof {
        assert(want.skip(n).len() == 0);
        assert(want.take(n) =~= want);
    }
    out
}

/// The field that holds the keys.
pub open spec fn key_field(m: ManifestView) -> Seq<char> {
    if m.primary_key.len() == 0 {
        "PK"@
    } else {
        m.primary_key
    }
}

/// The key of a row: the cell of the key field, or else a given one.
pub open spec fn row_key(
    m: ManifestView,
    row: Map<Seq<char>, ScalarView>,
    otherwise: Seq<char>,
) -> Seq<char> {
    if row.contains_key(key_field(m)) {
        row[key_field(m)].text
    } else {
        otherwise
    }
}

/// How the cells of a row read, in the order of its fields.
pub open spec fn row_cells(row: TextMap<Scalar>) -> Seq<ScalarView> {
    row.keys().map_values(|c: Seq<char>| row@[c]@)
}

/// How texts read once some cells are known; of cells with one text the last counts.
pub open spec fn readings_after(
    readings: Map<Seq<char>, ScalarView>,
    cells: Seq<ScalarView>,
) -> Map<Seq<char>, ScalarView>
    decreases cells.len(),
{
    if cells.len() == 0 {
        readings
    } else {
        readings_after(readings, cells.drop_last()).insert(cells.last().text, cells.last())
    }
}

impl TableView {
    /// The table that knows how some cells read.
    pub open spec fn learned(self, cells: Seq<ScalarView>) -> TableView {
        TableView { readings: readings_after(self.readings, cells), ..self }
    }

    /// The table with one more row: at the end of the active segment, with the
    /// key pointing at it.
    pub open spec fn inserted(self, id: Seq<char>, row: Map<Seq<char>, ScalarView>) -> TableView {
        match self.active {
            Some(w) => TableView {
                active: Some(w.appended(row)),
                places: self.places.insert(
                    id,
                    (w.segment.id, w.segment.record_count as u32),
                ),
                ..self
            },
            None => self,
        }
    }

    /// The table with a row marked as deleted in its segment.
    pub open spec fn marked(self, place: (u64, u32)) -> TableView {
        match self.active {
            Some(w) => if w.segment.id == place.0 {
                TableView { active: Some(w.marked(place.1)), ..self }
            } else {
                match first_segment(self.segments, place.0) {
                    Some(i) => TableView {
                        segments: self.segments.update(i, self.segments[i].marked(place.1)),
                        ..self
                    },
                    None => self,
                }
            },
            None => self,
        }
    }

    /// The table without the row of a key.
    pub open spec fn deleted(self, id: Seq<char>) -> TableView {
        if self.places.contains_key(id) {
            TableView { places: self.places.remove(id), ..self }.marked(self.places[id])
        } else {
            self
        }
    }

    /// The table after a logged change.
    pub open spec fn replayed(
        self,
        op: OpView,
        row: Map<Seq<char>, ScalarView>,
        cells: Seq<ScalarView>,
    ) -> TableView {
        match op {
            OpView::Insert(id, _) => self.inserted(
                row_key(self.manifest, row, id),
                row,
            ).learned(cells),
            OpView::Delete(id) => self.deleted(id),
            OpView::Update(id, _) => self.deleted(id).inserted(
                row_key(self.manifest, row, id),
                row,
            ).learned(cells),
        }
    }

    /// The segment that a row is read from.
    pub open spec fn holder(self, id: u64) -> Option<SegmentView> {
        if self.active is Some && self.active->0.segment.id == id {
            Some(self.active->0.segment)
        } else {
            match last_segment(self.segments, id) {
                Some(i) => Some(self.segments[i]),
                None => None,
            }
        }
    }

    /// The text of a cell, empty where there is none.
    pub open spec fn cell(self, place: (u64, u32), field: Seq<char>) -> Seq<char> {
        match self.holder(place.0) {
            Some(s) => s.cell(field, place.1),
            None => Seq::empty(),
        }
    }

    /// The texts of a row in some fields.
    pub open spec fn row(self, place: (u64, u32), fields: Seq<Seq<char>>) -> Seq<Seq<char>> {
        fields.map_values(|f: Seq<char>| self.cell(place, f))
    }

    /// The texts of several rows in some fields.
    pub open spec fn rows(self, places: Seq<(u64, u32)>, fields: Seq<Seq<char>>) -> Seq<
        Seq<Seq<char>>,
    > {
        places.map_values(|p: (u64, u32)| self.row(p, fields))
    }

    /// The row of a key by its fields, where there is one and the fields are
    /// known.
    pub open spec fn row_of(self, id: Seq<char>) -> Option<Map<Seq<char>, Seq<char>>> {
        let fields = self.manifest.original_fields;
        if self.places.contains_key(id) && fields.len() > 0 {
            Some(
                Map::new(
                    |f: Seq<char>| fields.contains(f),
                    |f: Seq<char>| self.cell(self.places[id], f),
                ),
            )
        } else {
            None
        }
    }

    /// How a text of a cell reads: as is known of it, or else as plain text.
    pub open spec fn reading(self, text: Seq<char>) -> ScalarView {
        if self.readings.contains_key(text) {
            ScalarView { text, ..self.readings[text] }
        } else {
            ScalarView { text, number: None, date: false }
        }
    }

    /// How many rows can still be appended to the active segment.
    pub open spec fn room(self) -> int {
        match self.active {
            Some(w) => u32::MAX - w.segment.record_count,
            None => u32::MAX as int,
        }
    }
}

/// What the rows of a list hold.
pub open spec fn row_lists(v: Seq<Vec<String>>) -> Seq<Seq<Seq<char>>> {
    v.map_values(|r: Vec<String>| texts(r@))
}

/// A logged change with the cells of its row.
pub struct LoggedChange {
    pub op: WalOperation,
    pub row: TextMap<Scalar>,
}

/// The table after several logged changes.
pub open spec fn replayed_all(t: TableView, changes: Seq<LoggedChange>) -> TableView
    decreases changes.len(),
{
    if changes.len() == 0 {
        t
    } else {
        replayed_all(t, changes.drop_last()).replayed(
            changes.last().op@,
            row_view(changes.last().row@),
            row_cells(changes.last().row),
        )
    }
}

/// The operations of some logged changes.
pub open spec fn change_ops(changes: Seq<LoggedChange>) -> Seq<OpView> {
    changes.map_values(|c: LoggedChange| c.op@)
}

/// Whether a table that was changed elsewhere must be loaded again: the catalogue
/// on disk is newer, or as new and has segments where the table has none.
pub open spec fn reload_needed(t: TableView, on_disk: ManifestView) -> bool {
    on_disk.last_sequence_number > t.manifest.last_sequence_number || (
    on_disk.last_sequence_number == t.manifest.last_sequence_number && t.segments.len() == 0
        && on_disk.segments.len() > 0)
}

/// The writer on the active segment: on what was found on disk, or on an empty
/// one.
pub open spec fn fresh_writer(found: Option<SegmentView>, id: u64) -> WriterView {
    WriterView {
        segment: match found {
            Some(s) => SegmentView { id, is_immutable: false, ..s },
            None => SegmentView::empty(id),
        },
        indexes: Map::empty(),
        dirty: false,
    }
}

/// What a segment, if there is one, stands for.
pub open spec fn segment_option(s: Option<Segment>) -> Option<SegmentView> {
    match s {
        Some(x) => Some(x@),
        None => None,
    }
}

impl Table {
    /// Whether the rows of every segment can be numbered.
    pub open spec fn wf(&self) -> bool {
        &&& self.active is Some ==> self.active->0.segment.wf()
        &&& forall|i: int| 0 <= i < self.segments@.len() ==> (#[trigger] self.segments@[i]).wf()
    }

    /// The field that holds the keys.
    pub fn key_field(&self) -> (r: &str)
        ensures
            r@ == key_field(self@.manifest),
    {
        if self.manifest.primary_key.as_str().unicode_len() == 0 {
            "PK"
        } else {
            self.manifest.primary_key.as_str()
        }
    }

    /// The key of a row: the cell of the key field, or else a given one.
    pub fn row_key(&self, row: &TextMap<Scalar>, otherwise: &str) -> (r: String)
        ensures
            r@ == row_key(self@.manifest, row_view(row@), otherwise@),
    {
        match row.get(self.key_field()) {
            Some(v) => {
                assert(row_view(row@)[key_field(self@.manifest)] == v@);
                v.text.clone()
            },
            None => otherwise.to_owned(),
        }
    }

    /// A table that was opened: its segments as they were loaded, the segment that
    /// is written to, and the places of its keys.
    pub fn open(
        name: &str,
        manifest: Manifest,
        loaded: Vec<Segment>,
        found: Option<Segment>,
        places: Option<&[u8]>,
        saved: TextMap<Vec<u8>>,
        readings: TextMap<Scalar>,
    ) -> (r: Table)
        ensures
            r@ == (TableView {
                name: name@,
                manifest: manifest@,
                active: Some(
                    fresh_writer(segment_option(found), manifest.active_segment_id),
                ),
                segments: by_id(segment_views(loaded@)),
                places: match places {
                    Some(b) => match decoded_places_v1(b@) {
                        Some(m) => m,
                        None => Map::empty(),
                    },
                    None => Map::empty(),
                },
                cache_keys: Seq::empty(),
                cache: Map::empty(),
                saved: files_view(saved@),
                readings: row_view(readings@),
                flush_count: 0,
            }),
            all_numbered(loaded@) && (found is Some ==> found->0.wf()) ==> r.wf(),
    {
        let id: u64 = manifest.active_segment_id;
        let segments = sort_segments(loaded);
        let primary_index = match places {
            Some(b) => decode_places(b),
            None => TextMap::new(),
        };
        let mut r = Table {
            name: name.to_owned(),
            manifest,
            active: None,
            segments,
            primary_index,
            cache: TextMap::new(),
            saved,
            readings,
            flush_count: 0,
        };
        r.ensure_active_segment(found);
        assert(r@.cache =~= Map::empty());
        r
    }

    /// Makes the segment that is written to, where there is none: from what was
    /// found on disk, or an empty one.
    pub fn ensure_active_segment(&mut self, found: Option<Segment>)
        ensures
            final(self)@ == (TableView {
                active: match old(self)@.active {
                    Some(w) => Some(w),
                    None => Some(
                        fresh_writer(
                            segment_option(found),
                            old(self)@.manifest.active_segment_id,
                        ),
                    ),
                },
                ..old(self)@
            }),
            old(self).wf() && (found is Some ==> found->0.wf()) ==> final(self).wf(),
    {
        if self.active.is_some() {
            return ;
        }
        let segment = match found {
            Some(s) => {
                let mut s = s;
                s.id = self.manifest.active_segment_id;
                s.is_immutable = false;
                s
            },
            None => Segment::new(self.manifest.active_segment_id),
        };
        self.active = Some(SegmentWriter::new(segment));
    }

    /// Whether the table must be loaded again for a catalogue on disk.
    pub fn needs_reload(&self, on_disk: &Manifest) -> (r: bool)
        ensures
            r == reload_needed(self@, on_disk@),
    {
        on_disk.last_sequence_number > self.manifest.last_sequence_number || (
        on_disk.last_sequence_number == self.manifest.last_sequence_number && self.segments.len()
            == 0 && on_disk.segments.len() > 0)
    }

    /// Takes over a catalogue and what was loaded for it. The places stay as they
    /// are where there is no file of them.
    pub fn reload(
        &mut self,
        manifest: Manifest,
        loaded: Vec<Segment>,
        found: Option<Segment>,
        places: Option<&[u8]>,
    )
        ensures
            final(self)@ == (TableView {
                manifest: manifest@,
                active: Some(fresh_writer(segment_option(found), manifest.active_segment_id)),
                segments: by_id(segment_views(loaded@)),
                places: match places {
                    Some(b) => match decoded_places_v1(b@) {
                        Some(m) => m,
                        None => Map::empty(),
                    },
                    None => old(self)@.places,
                },
                ..old(self)@
            }),
            all_numbered(loaded@) && (found is Some ==> found->0.wf()) ==> final(self).wf(),
    {
        self.manifest = manifest;
        self.segments = sort_segments(loaded);
        if let Some(b) = places {
            self.primary_index = decode_places(b);
        }
        self.active = None;
        self.ensure_active_segment(found);
    }

    /// Keeps how a text reads.
    pub fn learn(&mut self, value: &Scalar)
        ensures
            final(self)@ == (TableView {
                readings: old(self)@.readings.insert(value@.text, value@),
                ..old(self)@
            }),
            final(self).active == old(self).active,
            final(self).segments == old(self).segments,
    {
        self.readings.insert(value.text.as_str(), value.clone());
        assert(self@.readings =~= old(self)@.readings.insert(value@.text, value@));
        assert(self@ =~= (TableView {
            readings: old(self)@.readings.insert(value@.text, value@),
            ..old(self)@
        }));
    }

    /// Keeps how the cells of a row read.
    pub fn learn_row(&mut self, row: &TextMap<Scalar>)
        ensures
            final(self)@ == old(self)@.learned(row_cells(*row)),
            final(self).active == old(self).active,
            final(self).segments == old(self).segments,
    {
        let ghost cells = row_cells(*row);
        let n = row.len();
        let mut i: usize = 0;
        assert(cells.take(0) =~= Seq::empty());
        while i < n
            invariant
                i <= n == row.keys().len(),
                cells == row_cells(*row),
                self@ == old(self)@.learned(cells.take(i as int)),
                self.active == old(self).active,
                self.segments == old(self).segments,
            decreases n - i,
        {
            assert(cells.take(i + 1).drop_last() =~= cells.take(i as int));
            assert(cells.take(i + 1).last() == cells[i as int]);
            self.learn(row.value_at(i));
            i = i + 1;
        }
        assert(cells.take(i as int) =~= cells);
    }

    /// How a text of a cell reads.
    pub fn reading(&self, text: &str) -> (r: Scalar)
        ensures
            r@ == self@.reading(text@),
    {
        match self.readings.get(text) {
            Some(v) => {
                assert(self@.readings[text@] == v@);
                Scalar { text: text.to_owned(), number: v.number, date: v.date }
            },
            None => Scalar::plain(text.to_owned()),
        }
    }

    /// The operation that is logged before a row is inserted; the row gets the
    /// fresh key where it has none. There always is one.
    pub fn insert_operation(&self, row: &TextMap<Scalar>, fresh: &str) -> (r: Option<WalOperation>)
        ensures
            r is Some,
            r matches Some(op) ==> {
                &&& op@ is Insert
                &&& op@->Insert_0 == row_key(self@.manifest, row_view(row@), fresh@)
                &&& decoded_row(op@->Insert_1) == Some(cell_texts(row_view(row@)))
            },
    {
        match encode_row(row) {
            Some(data) => Some(WalOperation::Insert { id: self.row_key(row, fresh), data }),
            None => None,
        }
    }

    /// The operation that is logged before a row is deleted; none where there is
    /// no row with the key.
    pub fn delete_operation(&self, id: &str) -> (r: Option<WalOperation>)
        ensures
            match r {
                Some(op) => self@.places.contains_key(id@) && op@ == OpView::Delete(id@),
                None => !self@.places.contains_key(id@),
            },
    {
        if self.primary_index.contains(id) {
            Some(WalOperation::Delete { id: id.to_owned() })
        } else {
            None
        }
    }

    /// Appends a row, with the fresh key where it has none, and keeps how its cells
    /// read.
    pub fn insert(&mut self, row: &TextMap<Scalar>, fresh: &str)
        requires
            old(self)@.room() > 0,
            old(self).wf(),
        ensures
            final(self)@ == old(self)@.inserted(
                row_key(old(self)@.manifest, row_view(row@), fresh@),
                row_view(row@),
            ).learned(row_cells(*row)),
            final(self).wf(),
    {
        let id = self.row_key(row, fresh);
        if let Some(w) = self.active.take() {
            let mut w = w;
            let place: (u64, u32) = (w.segment.id, w.segment.record_count as u32);
            w.append_record(row);
            self.active = Some(w);
            self.primary_index.insert(id.as_str(), place);
        }
        assert(self@ == old(self)@.inserted(id@, row_view(row@)));
        self.learn_row(row);
    }

    fn mark(&mut self, place: (u64, u32))
        requires
            old(self).wf(),
        ensures
            final(self)@ == old(self)@.marked(place),
            final(self).wf(),
    {
        if let Some(w) = self.active.take() {
            let mut w = w;
            if w.segment.id == place.0 {
                w.segment.mark_deleted(place.1);
                self.active = Some(w);
            } else {
                self.active = Some(w);
                if let Some(i) = find_first(self.segments.as_slice(), place.0) {
                    let ghost before = segment_views(self.segments@);
                    self.segments[i].mark_deleted(place.1);
                    assert(segment_views(self.segments@) =~= before.update(
                        i as int,
                        before[i as int].marked(place.1),
                    ));
                }
            }
        }
    }

    /// Deletes the row of a key.
    pub fn delete(&mut self, id: &str)
        requires
            old(self).wf(),
        ensures
            final(self)@ == old(self)@.deleted(id@),
            final(self).wf(),
    {
        if let Some(place) = self.primary_index.take(id) {
            self.mark(place);
        }
    }

    /// Replaces the row of a key by another.
    pub fn update(&mut self, id: &str, row: &TextMap<Scalar>, fresh: &str)
        requires
            old(self)@.room() > 0,
            old(self).wf(),
        ensures
            final(self)@ == old(self)@.deleted(id@).inserted(
                row_key(old(self)@.manifest, row_view(row@), fresh@),
                row_view(row@),
            ).learned(row_cells(*row)),
            final(self).wf(),
    {
        self.delete(id);
        self.insert(row, fresh);
    }

    /// Makes the changes of a log again, on a table without places; one with
    /// places needs none of them.
    pub fn replay_wal(&mut self, changes: &[LoggedChange])
        requires
            old(self).wf(),
            changes@.len() <= old(self)@.room(),
        ensures
            final(self)@ == if old(self)@.places.dom() == Set::<Seq<char>>::empty() {
                replayed_all(old(self)@, changes@)
            } else {
                old(self)@
            },
            final(self).wf(),
    {
        let n = self.primary_index.len();
        if n > 0 {
            proof {
                let keys = self.primary_index.keys();
                assert(keys.to_set().contains(keys[0]));
                assert(self@.places.dom().contains(keys[0]));
            }
            return ;
        }
        assert(self@.places.dom() =~= Set::empty());
        let mut i: usize = 0;
        assert(changes@.take(0) =~= Seq::empty());
        while i < changes.len()
            invariant
                i <= changes@.len(),
                self.wf(),
                self@ == replayed_all(old(self)@, changes@.take(i as int)),
                self@.room() >= changes@.len() - i,
            decreases changes@.len() - i,
        {
            let c = &changes[i];
            let ghost before = self@;
            match &c.op {
                WalOperation::Insert { id, .. } => {
                    self.insert(&c.row, id.as_str());
                },
                WalOperation::Delete { id } => {
                    self.delete(id.as_str());
                },
                WalOperation::Update { id, .. } => {
                    self.update(id.as_str(), &c.row, id.as_str());
                },
            }
            assert(changes@.take(i + 1).drop_last() =~= changes@.take(i as int));
            assert(changes@.take(i + 1).last() == changes@[i as int]);
            i = i + 1;
        }
        assert(changes@.take(i as int) =~= changes@);
    }

    /// Makes the changes of a log again and empties it. Gives the file of the places out
    /// where changes were made, and nothing where there was nothing to be done.
    pub fn recover(&mut self, log: &mut Wal, changes: &[LoggedChange]) -> (r: Option<Vec<u8>>)
        requires
            old(self).wf(),
            changes@.len() <= old(self)@.room(),
            old(self)@.places.dom() == Set::<Seq<char>>::empty() ==> read_log(
                old(log)@,
                Seq::empty(),
            ) == LogView::Ops(change_ops(changes@)),
        ensures
            final(self)@ == if old(self)@.places.dom() == Set::<Seq<char>>::empty() {
                replayed_all(old(self)@, changes@)
            } else {
                old(self)@
            },
            final(self).wf(),
            read_log(final(log)@, Seq::empty()) == LogView::Ops(Seq::empty()),
            final(log)@ == if old(self)@.places.dom() == Set::<Seq<char>>::empty()
                && changes@.len() == 0 {
                old(log)@
            } else {
                Seq::empty()
            },
            match r {
                Some(file) => {
                    &&& old(self)@.places.dom() == Set::<Seq<char>>::empty()
                    &&& changes@.len() > 0
                    &&& decoded_places_v1(file@) == Some(final(self)@.places)
                },
                None => old(self)@.places.dom() != Set::<Seq<char>>::empty() || changes@.len() == 0,
            },
    {
        let n = self.primary_index.len();
        if n > 0 {
            proof {
                let keys = self.primary_index.keys();
                assert(keys.to_set().contains(keys[0]));
                assert(self@.places.dom().contains(keys[0]));
            }
            log.truncate();
            return None;
        }
        assert(self@.places.dom() =~= Set::empty());
        if changes.len() == 0 {
            assert(change_ops(changes@) =~= Seq::empty());
            return None;
        }
        self.replay_wal(changes);
        log.truncate();
        match encode_places(&self.primary_index) {
            Ok(file) => Some(file),
            Err(_) => None,
        }
    }

    /// The segment that a row is read from.
    pub fn holder(&self, id: u64) -> (r: Option<&Segment>)
        ensures
            match r {
                Some(s) => self@.holder(id) == Some(s@),
                None => self@.holder(id) is None,
            },
    {
        if let Some(w) = &self.active {
            if w.segment.id == id {
                return Some(&w.segment);
            }
        }
        match find_last(self.segments.as_slice(), id) {
            Some(i) => Some(&self.segments[i]),
            None => None,
        }
    }

    /// The texts of several rows in some fields.
    pub fn get_rows_batch(&self, fields: &[String], ids: &[(u64, u32)]) -> (r: Vec<Vec<String>>)
        ensures
            row_lists(r@) == self@.rows(ids@, texts(fields@)),
    {
        let ghost want = self@.rows(ids@, texts(fields@));
        let mut out: Vec<Vec<String>> = Vec::new();
        let mut i: usize = 0;
        while i < ids.len()
            invariant
                i <= ids@.len(),
                want == self@.rows(ids@, texts(fields@)),
                row_lists(out@) == want.take(i as int),
            decreases ids@.len() - i,
        {
            let place = ids[i];
            let row = self.get_row(place, fields);
            let ghost before = row_lists(out@);
            let ghost one = texts(row@);
            out.push(row);
            i = i + 1;
            assert(one =~= want[i - 1]);
            assert(row_lists(out@) =~= before.push(one));
            assert(row_lists(out@) =~= want.take(i as int));
        }
        assert(want.take(i as int) =~= want);
        out
    }

    fn get_row(&self, place: (u64, u32), fields: &[String]) -> (r: Vec<String>)
        ensures
            texts(r@) == self@.row(place, texts(fields@)),
    {
        match self.holder(place.0) {
            Some(s) => {
                let r = s.get_row_values(place.1, fields);
                assert(texts(r@) =~= self@.row(place, texts(fields@)));
                r
            },
            None => {
                let mut r: Vec<String> = Vec::new();
                let ghost want = self@.row(place, texts(fields@));
                let mut i: usize = 0;
                while i < fields.len()
                    invariant
                        i <= fields@.len(),
                        want == self@.row(place, texts(fields@)),
                        self@.holder(place.0) is None,
                        texts(r@) == want.take(i as int),
                    decreases fields@.len() - i,
                {
                    let ghost before = texts(r@);
                    r.push(String::new());
                    i = i + 1;
                    assert(texts(r@) =~= before.push(want[i - 1]));
                    assert(texts(r@) =~= want.take(i as int));
                }
                assert(want.take(i as int) =~= want);
                r
            },
        }
    }

    /// The row of a key by its fields.
    pub fn get_row_as_map(&self, pk_val: &str) -> (r: Option<TextMap<String>>)
        ensures
            match r {
                Some(m) => self@.row_of(pk_val@) == Some(crate::row_json::texts_map(m@)),
                None => self@.row_of(pk_val@) is None,
            },
    {
        let place = match self.primary_index.get(pk_val) {
            Some(p) => *p,
            None => {
                return None;
            },
        };
        let fields = clone_texts(self.manifest.original_fields.as_slice());
        if fields.len() == 0 {
            return None;
        }
        let vals = self.get_row(place, fields.as_slice());
        let ghost names = texts(fields@);
        let ghost row = self@.row(place, names);
        assert(texts(vals@).len() == vals@.len());
        let mut map: TextMap<String> = TextMap::new();
        let mut i: usize = 0;
        while i < fields.len()
            invariant
                i <= fields@.len(),
                fields@.len() == vals@.len(),
                names == texts(fields@),
                row == self@.row(place, names),
                texts(vals@) == row,
                forall|f: Seq<char>| #[trigger]
                    map@.contains_key(f) <==> names.take(i as int).contains(f),
                forall|f: Seq<char>| #[trigger]
                    map@.contains_key(f) ==> map@[f]@ == self@.cell(place, f),
            decreases fields@.len() - i,
        {
            let ghost before = map@;
            map.insert(fields[i].as_str(), vals[i].clone());
            proof {
                let f = fields@[i as int]@;
                assert(names.take(i + 1) =~= names.take(i as int).push(f));
                assert(texts(vals@)[i as int] == row[i as int]);
                assert forall|g: Seq<char>| #[trigger] map@.contains_key(g) <==> names.take(
                    i + 1,
                ).contains(g) by {
                    if g == f {
                        assert(names.take(i + 1)[i as int] == g);
                    } else {
                        assert(map@.contains_key(g) == before.contains_key(g));
                        let a = names.take(i as int);
                        let b = names.take(i + 1);
                        if a.contains(g) {
                            let k = choose|k: int| 0 <= k < a.len() && a[k] == g;
                            assert(b[k] == g);
                        }
                        if b.contains(g) {
                            let k = choose|k: int| 0 <= k < b.len() && b[k] == g;
                            assert(a[k] == g);
                        }
                    }
                }
            }
            i = i + 1;
        }
        proof {
            assert(names.take(i as int) =~= names);
            let want = self@.row_of(pk_val@)->0;
            assert(crate::row_json::texts_map(map@) =~= want);
        }
        Some(map)
    }

    /// How many rows the active segment has.
    pub fn active_segment_row_count(&self) -> (r: u64)
        ensures
            r == match self@.active {
                Some(w) => w.segment.record_count,
                None => 0,
            },
    {
        match &self.active {
            Some(w) => w.segment.record_count,
            None => 0,
        }
    }
}

/// A row that was inserted is found by its key and read back cell by cell, and the
/// rows of its segment read as before. The rows of the segment must have the same
/// columns, and the data of a column must be shorter than a number of 64 bits can
/// tell.
pub proof fn law_insert_reads_back(
    t: TableView,
    id: Seq<char>,
    row: Map<Seq<char>, ScalarView>,
    cells: Map<Seq<char>, Seq<Seq<char>>>,
)
    requires
        t.active is Some,
        t.room() > 0,
        columns_hold(
            t.active->0.segment.columns,
            cells,
            t.active->0.segment.record_count as int,
        ),
        same_columns(cells, t.active->0.segment.record_count as int, row),
        forall|c: Seq<char>| #[trigger]
            row.contains_key(c) ==> columns_after(t.active->0.segment.columns, row)[c].data.len()
                <= u64::MAX,
    ensures
        t.inserted(id, row).places.contains_key(id),
        forall|c: Seq<char>| #[trigger]
            row.contains_key(c) ==> t.inserted(id, row).cell(t.inserted(id, row).places[id], c)
                == row[c].text,
        forall|r: u32, c: Seq<char>|
            r < t.active->0.segment.record_count && row.contains_key(c)
                ==> #[trigger] t.inserted(id, row).cell((t.active->0.segment.id, r), c) == t.cell(
                (t.active->0.segment.id, r),
                c,
            ),
{
    let w = t.active->0;
    let after = t.inserted(id, row);
    law_append_keeps_columns(w.segment, cells, row);
    let next = cells_after(cells, row);
    assert forall|c: Seq<char>| #[trigger] row.contains_key(c) implies after.cell(
        after.places[id],
        c,
    ) == row[c].text by {
        assert(after.places[id].1 == w.segment.record_count);
    }
    assert forall|r: u32, c: Seq<char>|
        r < w.segment.record_count && row.contains_key(c) implies #[trigger] after.cell(
        (w.segment.id, r),
        c,
    ) == t.cell((w.segment.id, r), c) by {
        assert(next.contains_key(c));
        law_read_back(w.segment.columns[c], cells[c], r as int);
        law_read_back(columns_after(w.segment.columns, row)[c], next[c], r as int);
    }
}

proof fn lemma_update_keeps_last(s: Seq<SegmentView>, i: int, row: u32, id: u64)
    requires
        0 <= i < s.len(),
    ensures
        last_segment(s.update(i, s[i].marked(row)), id) == last_segment(s, id),
    decreases s.len(),
{
    let u = s.update(i, s[i].marked(row));
    if i == s.len() - 1 {
        assert(u.drop_last() =~= s.drop_last());
    } else {
        assert(u.drop_last() =~= s.drop_last().update(i, s[i].marked(row)));
        lemma_update_keeps_last(s.drop_last(), i, row, id);
    }
}

pub(crate) proof fn lemma_first_in_range(s: Seq<SegmentView>, id: u64)
    ensures
        match first_segment(s, id) {
            Some(i) => 0 <= i < s.len() && s[i].id == id,
            None => true,
        },
    decreases s.len(),
{
    if s.len() > 0 {
        lemma_first_in_range(s.drop_last(), id);
    }
}

/// The last segment of a number is one of them and has that number.
pub proof fn lemma_last_in_range(s: Seq<SegmentView>, id: u64)
    ensures
        match last_segment(s, id) {
            Some(i) => 0 <= i < s.len() && s[i].id == id,
            None => true,
        },
    decreases s.len(),
{
    if s.len() > 0 && s.last().id != id {
        lemma_last_in_range(s.drop_last(), id);
    }
}

/// After a deletion the key is gone, every other key has its place, and what is
/// read at any place is the same.
pub proof fn law_delete_forgets(t: TableView, id: Seq<char>, place: (u64, u32), field: Seq<char>)
    ensures
        t.deleted(id).places == t.places.remove(id),
        t.deleted(id).row_of(id) is None,
        t.deleted(id).cell(place, field) == t.cell(place, field),
        t.deleted(id).deleted(id) == t.deleted(id),
{
    let after = t.deleted(id);
    if t.places.contains_key(id) {
        let p = t.places[id];
        lemma_first_in_range(t.segments, p.0);
        lemma_last_in_range(t.segments, place.0);
        if t.active is Some && t.active->0.segment.id != p.0 {
            match first_segment(t.segments, p.0) {
                Some(i) => {
                    lemma_update_keeps_last(t.segments, i, p.1, place.0);
                },
                None => {},
            }
        }
    } else {
        assert(t.places.remove(id) =~= t.places);
    }
}

/// A deleted row is marked in its segment, so that no search of it finds the row
/// again.
pub proof fn law_delete_marks(t: TableView, id: Seq<char>)
    requires
        t.places.contains_key(id),
        t.active is Some,
    ensures
        t.active->0.segment.id == t.places[id].0 ==> t.deleted(
            id,
        ).active->0.segment.deleted.contains(t.places[id].1),
        t.active->0.segment.id != t.places[id].0 && first_segment(t.segments, t.places[id].0)
            is Some ==> t.deleted(id).segments[first_segment(
            t.segments,
            t.places[id].0,
        )->0].deleted.contains(t.places[id].1),
{
    lemma_first_in_range(t.segments, t.places[id].0);
}

proof fn lemma_readings_after(
    readings: Map<Seq<char>, ScalarView>,
    cells: Seq<ScalarView>,
    i: int,
)
    requires
        0 <= i < cells.len(),
        forall|a: int, b: int|
            0 <= a < cells.len() && 0 <= b < cells.len() && (#[trigger] cells[a]).text == (
            #[trigger] cells[b]).text ==> cells[a] == cells[b],
    ensures
        readings_after(readings, cells).contains_key(cells[i].text),
        readings_after(readings, cells)[cells[i].text] == cells[i],
    decreases cells.len(),
{
    let front = cells.drop_last();
    if i < front.len() {
        assert(front[i] == cells[i]);
        assert forall|a: int, b: int|
            0 <= a < front.len() && 0 <= b < front.len() && (#[trigger] front[a]).text == (
            #[trigger] front[b]).text implies front[a] == front[b] by {
            assert(cells[a].text == cells[b].text);
        }
        lemma_readings_after(readings, front, i);
        assert(cells[cells.len() - 1] == cells.last());
    }
}

/// A table that has learned some cells reads each of their texts as the cell does, where
/// cells of one text read alike. What is read at any place is the same.
pub proof fn law_cells_are_learned(
    t: TableView,
    cells: Seq<ScalarView>,
    i: int,
    place: (u64, u32),
    field: Seq<char>,
)
    requires
        0 <= i < cells.len(),
        forall|a: int, b: int|
            0 <= a < cells.len() && 0 <= b < cells.len() && (#[trigger] cells[a]).text == (
            #[trigger] cells[b]).text ==> cells[a] == cells[b],
    ensures
        t.learned(cells).reading(cells[i].text) == cells[i],
        t.learned(cells).cell(place, field) == t.cell(place, field),
{
    lemma_readings_after(t.readings, cells, i);
}

/// Replaying the operations that are logged for an insertion and a deletion makes
/// the same changes again.
pub proof fn law_replay_repeats(
    t: TableView,
    row: Map<Seq<char>, ScalarView>,
    cells: Seq<ScalarView>,
    fresh: Seq<char>,
    data: Seq<u8>,
    id: Seq<char>,
)
    ensures
        t.replayed(OpView::Insert(row_key(t.manifest, row, fresh), data), row, cells)
            == t.inserted(row_key(t.manifest, row, fresh), row).learned(cells),
        t.replayed(OpView::Delete(id), row, cells) == t.deleted(id),
{
}

} // verus!
