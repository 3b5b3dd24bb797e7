//! Emptying, closing and warming a table.

use crate::lookup::{after_use, TableError};
use crate::manifest::ManifestView;
use crate::phrase::cat3;
use crate::repl::fields::{
    file_fields, get_base_fields, get_indexed_fields, original_fields,
};
use crate::segment::Segment;
use crate::table::{cache_view, segment_option, Table, TableView};
use crate::text::texts;
use crate::text_sort::{distinct_texts, sorted_texts};
use crate::textmap::TextMap;
use crate::upkeep::{flush_counted, is_flushed, some_undecodable};
use vstd::prelude::*;

verus! {

/// The table without the rows of some keys.
pub open spec fn deleted_each(t: TableView, ids: Seq<Seq<char>>) -> TableView
    decreases ids.len(),
{
    if ids.len() == 0 {
        t
    } else {
        deleted_each(t, ids.drop_last()).deleted(ids.last())
    }
}

/// Whether a list holds every key of a table once.
pub open spec fn lists_keys(t: TableView, ids: Seq<Seq<char>>) -> bool {
    ids.no_duplicates() && ids.to_set() == t.places.dom()
}

/// Whether a table is another without any of its rows.
pub open spec fn is_emptied(t: TableView, emptied: TableView) -> bool {
    exists|ids: Seq<Seq<char>>|
        #[trigger] lists_keys(t, ids) && emptied == deleted_each(t, ids)
}

proof fn lemma_deleted_each(t: TableView, ids: Seq<Seq<char>>)
    ensures
        deleted_each(t, ids).places == t.places.remove_keys(ids.to_set()),
        deleted_each(t, ids).manifest == t.manifest,
        deleted_each(t, ids).flush_count == t.flush_count,
        deleted_each(t, ids).active is Some == t.active is Some,
    decreases ids.len(),
{
    if ids.len() == 0 {
        assert(t.places.remove_keys(ids.to_set()) =~= t.places);
    } else {
        let front = ids.drop_last();
        let id = ids.last();
        lemma_deleted_each(t, front);
        assert(ids =~= front.push(id));
        assert(ids.to_set() =~= front.to_set().insert(id)) by {
            assert forall|k: Seq<char>| ids.to_set().contains(k) == front.to_set().insert(
                id,
            ).contains(k) by {
                if front.to_set().contains(k) {
                    let j = front.index_of(k);
                    assert(ids[j] == k);
                }
                if ids.contains(k) && k != id {
                    let j = ids.index_of(k);
                    assert(front[j] == k);
                }
                if k == id {
                    assert(ids[ids.len() - 1] == k);
                }
            }
        }
        assert(t.places.remove_keys(ids.to_set()) =~= t.places.remove_keys(front.to_set()).remove(
            id,
        ));
        let d = deleted_each(t, front);
        if !d.places.contains_key(id) {
            assert(d.places.remove(id) =~= d.places);
        }
    }
}

/// A table that is emptied has no key left, and its catalogue stays as it is.
pub proof fn law_emptied_has_no_keys(t: TableView, emptied: TableView)
    requires
        is_emptied(t, emptied),
    ensures
        emptied.places == Map::<Seq<char>, (u64, u32)>::empty(),
        emptied.manifest == t.manifest,
{
    let ids = choose|ids: Seq<Seq<char>>| #[trigger]
        lists_keys(t, ids) && emptied == deleted_each(t, ids);
    lemma_deleted_each(t, ids);
    assert(emptied.places =~= Map::empty());
}

impl Table {
    fn delete_each(&mut self)
        requires
            old(self).wf(),
        ensures
            final(self).wf(),
            is_emptied(old(self)@, final(self)@),
            final(self).flush_count == old(self).flush_count,
            final(self)@.manifest == old(self)@.manifest,
    {
        let ghost start = self@;
        let n = self.primary_index.len();
        let ghost keys = self.primary_index.keys();
        let mut ids: Vec<String> = Vec::new();
        let mut i: usize = 0;
        assert(texts(ids@) =~= keys.take(0));
        while i < n
            invariant
                i <= n,
                n == keys.len(),
                keys == self.primary_index.keys(),
                self@ == start,
                self.wf(),
                self.flush_count == old(self).flush_count,
                texts(ids@) == keys.take(i as int),
            decreases n - i,
        {
            let k = self.primary_index.key_at(i).to_owned();
            let ghost held = texts(ids@);
            ids.push(k);
            assert(texts(ids@) =~= held.push(k@));
            assert(keys.take(i + 1) =~= keys.take(i as int).push(keys[i as int]));
            i = i + 1;
        }
        assert(keys.take(i as int) =~= keys);
        let ghost all = texts(ids@);
        let mut k: usize = 0;
        assert(all.take(0) =~= Seq::empty());
        while k < ids.len()
            invariant
                k <= ids@.len(),
                all == texts(ids@),
                self.wf(),
                self@ == deleted_each(start, all.take(k as int)),
            decreases ids@.len() - k,
        {
            assert(all.take(k + 1).drop_last() =~= all.take(k as int));
            assert(all[k as int] == ids@[k as int]@);
            self.delete(ids[k].as_str());
            k = k + 1;
        }
        assert(all.take(k as int) =~= all);
        proof {
            lemma_deleted_each(start, all);
            assert(lists_keys(start, all));
        }
    }

    /// Deletes every row, and closes the active segment.
    pub fn delete_all_rows(&mut self, created_at: i64, interval: u32, found: Option<Segment>) -> (r:
        Result<bool, TableError>)
        requires
            old(self).wf(),
            old(self).flush_count < u32::MAX,
            old(self).manifest.active_segment_id < u64::MAX,
            old(self).manifest.last_sequence_number < u64::MAX,
            found is Some ==> found->0.wf(),
        ensures
            final(self).wf(),
            exists|m: TableView|
                #[trigger] is_emptied(old(self)@, m) && (match r {
                    Ok(due) => {
                        &&& is_flushed(
                            m,
                            final(self)@,
                            created_at,
                            interval,
                            segment_option(found),
                        )
                        &&& due == (m.active is Some && flush_counted(
                            old(self).flush_count,
                            interval,
                        ).0)
                    },
                    Err(e) => {
                        &&& e is Undecodable
                        &&& final(self)@ == (TableView {
                            active: None,
                            cache_keys: final(self)@.cache_keys,
                            cache: final(self)@.cache,
                            saved: final(self)@.saved,
                            ..m
                        })
                    },
                }) && (r is Err <==> m.active is Some && some_undecodable(
                    m,
                    m.active->0.indexes,
                )),
            final(self)@.places == Map::<Seq<char>, (u64, u32)>::empty(),
    {
        let ghost start = self@;
        self.delete_each();
        let ghost m = self@;
        proof {
            law_emptied_has_no_keys(start, m);
            assert(self.manifest.active_segment_id == m.manifest.active_segment_id);
            assert(self.manifest.last_sequence_number == m.manifest.last_sequence_number);
            assert(is_emptied(start, m));
        }
        self.flush_active_segment(created_at, interval, found)
    }

    /// Notes the fields that the rows came with.
    pub fn set_original_fields(&mut self, fields: Vec<String>)
        requires
            old(self).wf(),
        ensures
            final(self).wf(),
            final(self)@ == (TableView {
                manifest: ManifestView {
                    original_fields: texts(fields@),
                    ..old(self)@.manifest
                },
                ..old(self)@
            }),
    {
        self.manifest.original_fields = fields;
        assert(self@ =~= (TableView {
            manifest: ManifestView { original_fields: texts(fields@), ..old(self)@.manifest },
            ..old(self)@
        }));
    }

    /// Closes the table: gives out the active segment with its index made the saved
    /// one, drops the cache, and tells whether the catalogue and the places are to be
    /// saved and the log to be emptied.
    pub fn close(&mut self) -> (r: (Option<Segment>, bool))
        requires
            old(self).wf(),
        ensures
            final(self).wf(),
            segment_option(r.0) == (match old(self)@.active {
                Some(w) => Some(w.flushed().segment),
                None => None,
            }),
            r.1 == (old(self)@.places.dom() != Set::<Seq<char>>::empty()),
            final(self)@ == (TableView {
                active: None,
                cache_keys: Seq::empty(),
                cache: Map::empty(),
                ..old(self)@
            }),
    {
        let ghost start = self@;
        let segment = match self.active.take() {
            Some(w) => {
                let mut w = w;
                w.flush();
                Some(w.segment)
            },
            None => None,
        };
        let n = self.primary_index.len();
        let due = n > 0;
        proof {
            let keys = self.primary_index.keys();
            if n > 0 {
                assert(keys.to_set().contains(keys[0]));
            } else {
                assert(keys.to_set() =~= Set::empty());
            }
        }
        self.cache = TextMap::new();
        assert(cache_view(self.cache@) =~= Map::empty());
        assert(self@ =~= (TableView {
            active: None,
            cache_keys: Seq::empty(),
            cache: Map::empty(),
            ..start
        }));
        (segment, due)
    }

    /// Brings the indexes of some fields into the cache, as far as they can be read.
    pub fn warm_up(&mut self, fields: &[String], max_fields: usize)
        requires
            old(self).wf(),
        ensures
            final(self).wf(),
            final(self)@ == warmed(old(self)@, texts(fields@), max_fields as int),
    {
        let ghost start = self@;
        let ghost fs = texts(fields@);
        let mut i: usize = 0;
        assert(fs.take(0) =~= Seq::empty());
        while i < fields.len()
            invariant
                i <= fields@.len(),
                fs == texts(fields@),
                self.wf(),
                self@ == warmed(start, fs.take(i as int), max_fields as int),
            decreases fields@.len() - i,
        {
            assert(fs.take(i + 1).drop_last() =~= fs.take(i as int));
            assert(fs[i as int] == fields@[i as int]@);
            let _r = self.load_exact_index(fields[i].as_str(), max_fields);
            i = i + 1;
        }
        assert(fs.take(i as int) =~= fs);
    }

    /// The fields that files of a table's segments are of, in order, each once.
    pub fn get_indexed_fields_static(files: &[String]) -> (r: Vec<String>)
        ensures
            texts(r@) == sorted_texts(distinct_texts(file_fields(texts(files@)))),
    {
        get_indexed_fields(files)
    }

    /// The fields that the data came with, in order.
    pub fn get_base_fields_static(all_fields: &[String]) -> (r: Vec<String>)
        ensures
            texts(r@) == sorted_texts(original_fields(texts(all_fields@))),
    {
        get_base_fields(all_fields)
    }

    /// The name of the file of the index of a field.
    pub fn exact_index_file(field: &str) -> (r: String)
        ensures
            r@ == "exact_"@ + field@ + ".idx"@,
    {
        cat3("exact_", field, ".idx")
    }
}

/// The table after the indexes of some fields were used.
pub open spec fn warmed(t: TableView, fields: Seq<Seq<char>>, max: int) -> TableView
    decreases fields.len(),
{
    if fields.len() == 0 {
        t
    } else {
        after_use(warmed(t, fields.drop_last(), max), fields.last(), max)
    }
}

/// Warming a table changes none of its rows.
pub proof fn law_warming_keeps_rows(t: TableView, fields: Seq<Seq<char>>, max: int)
    ensures
        warmed(t, fields, max) == (TableView {
            cache_keys: warmed(t, fields, max).cache_keys,
            cache: warmed(t, fields, max).cache,
            ..t
        }),
    decreases fields.len(),
{
    if fields.len() > 0 {
        law_warming_keeps_rows(t, fields.drop_last(), max);
    }
}

} // verus!
