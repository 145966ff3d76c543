//! Keyed storage of records behind opaque surrogate identifiers. The next
//! identifier comes from a monotonic counter kept separately from the live
//! entry count, so identifiers are unique for the lifetime of the store
//! even across deletions.

use vstd::prelude::*;

use crate::alist::{
    alist_map, keys_distinct, lemma_alist_contains, lemma_alist_index, lemma_alist_push,
    lemma_alist_remove,
};
use crate::errors::CacheError;
use crate::records::{Record, RecordV};

verus! {

/// Append-style record storage: surrogate identifier to record.
pub struct RecordStore {
    pub next_id: u64,
    pub entries: Vec<(u64, Record)>,
}

impl RecordStore {
    /// The entry pairs, with records abstracted to their views.
    pub open spec fn pairs(&self) -> Seq<(u64, RecordV)> {
        self.entries@.map(|_i: int, e: (u64, Record)| (e.0, e.1@))
    }

    /// The store as a map from identifier to record.
    pub open spec fn contents(&self) -> Map<u64, RecordV> {
        alist_map(self.pairs())
    }

    /// Identifiers are distinct and below the counter, so the counter
    /// never hands out a live identifier again.
    pub open spec fn wf(&self) -> bool {
        &&& keys_distinct(self.pairs())
        &&& forall|i: int|
            0 <= i < self.pairs().len() ==> (#[trigger] self.pairs()[i]).0 < self.next_id
    }

    /// The identifier space is not exhausted.
    pub open spec fn can_insert(&self) -> bool {
        self.next_id < u64::MAX
    }

    pub fn new() -> (r: Self)
        ensures
            r.wf(),
            r.contents() == Map::<u64, RecordV>::empty(),
            r.next_id == 0,
    {
        let r = RecordStore { next_id: 0, entries: Vec::new() };
        proof {
            assert(r.pairs() =~= Seq::<(u64, RecordV)>::empty());
        }
        r
    }

    /// Find the position of an identifier among the entries.
    fn find(&self, id: u64) -> (r: Option<usize>)
        ensures
            match r {
                Some(i) => i < self.pairs().len() && self.pairs()[i as int].0 == id,
                None => forall|i: int|
                    0 <= i < self.pairs().len() ==> (#[trigger] self.pairs()[i]).0 != id,
            },
    {
        let mut i: usize = 0;
        while i < self.entries.len()
            invariant
                i <= self.entries@.len(),
                forall|j: int| 0 <= j < i ==> (#[trigger] self.pairs()[j]).0 != id,
            decreases self.entries@.len() - i,
        {
            if self.entries[i].0 == id {
                return Some(i);
            }
            i = i + 1;
        }
        None
    }

    /// Store a record under a fresh identifier and return it. The
    /// identifier was never handed out before and the counter advances,
    /// so no later insert can return it again.
    pub fn insert(&mut self, record: Record) -> (id: u64)
        requires
            old(self).wf(),
            old(self).can_insert(),
        ensures
            final(self).wf(),
            id == old(self).next_id,
            final(self).next_id == old(self).next_id + 1,
            !old(self).contents().dom().contains(id),
            final(self).contents() == old(self).contents().insert(id, record@),
    {
        let id = self.next_id;
        proof {
            lemma_alist_contains(self.pairs(), id);
        }
        let ghost old_pairs = self.pairs();
        self.next_id = self.next_id + 1;
        self.entries.push((id, record));
        proof {
            assert(self.pairs() =~= old_pairs.push((id, record@)));
            lemma_alist_push(old_pairs, (id, record@));
        }
        id
    }

    /// Look up a record by identifier; absent identifiers report
    /// `NotFound`.
    pub fn get(&self, id: u64) -> (r: Result<&Record, CacheError>)
        requires
            self.wf(),
        ensures
            match r {
                Ok(rec) => self.contents().dom().contains(id) && rec@ == self.contents()[id],
                Err(e) => !self.contents().dom().contains(id) && e is NotFound,
            },
    {
        proof {
            lemma_alist_contains(self.pairs(), id);
        }
        match self.find(id) {
            Some(i) => {
                proof {
                    lemma_alist_index(self.pairs(), i as int);
                }
                Ok(&self.entries[i].1)
            },
            None => Err(CacheError::NotFound),
        }
    }

    /// Remove an entry. The identifier is retired, never reused or
    /// compacted.
    pub fn delete(&mut self, id: u64) -> (r: Result<(), CacheError>)
        requires
            old(self).wf(),
        ensures
            final(self).wf(),
            final(self).next_id == old(self).next_id,
            match r {
                Ok(()) => old(self).contents().dom().contains(id) && final(self).contents() == old(
                    self,
                ).contents().remove(id),
                Err(e) => !old(self).contents().dom().contains(id) && e is NotFound && *final(self)
                    == *old(self),
            },
    {
        proof {
            lemma_alist_contains(self.pairs(), id);
        }
        match self.find(id) {
            Some(i) => {
                let ghost old_pairs = self.pairs();
                proof {
                    lemma_alist_remove(old_pairs, i as int);
                }
                self.entries.remove(i);
                proof {
                    assert(self.pairs() =~= old_pairs.remove(i as int));
                }
                Ok(())
            },
            None => Err(CacheError::NotFound),
        }
    }

    /// Number of live entries.
    pub fn len(&self) -> (r: usize)
        ensures
            r == self.pairs().len(),
    {
        self.entries.len()
    }

    /// The entry at a scan position: its identifier and record.
    pub fn entry_at(&self, i: usize) -> (r: (u64, &Record))
        requires
            i < self.pairs().len(),
        ensures
            r.0 == self.pairs()[i as int].0,
            r.1@ == self.pairs()[i as int].1,
    {
        (self.entries[i].0, &self.entries[i].1)
    }

    /// Every scan position shows exactly what the map view stores.
    pub proof fn lemma_scan_agrees(&self, i: int)
        requires
            self.wf(),
            0 <= i < self.pairs().len(),
        ensures
            self.contents().dom().contains(self.pairs()[i].0),
            self.contents()[self.pairs()[i].0] == self.pairs()[i].1,
    {
        lemma_alist_index(self.pairs(), i);
    }

    /// Every stored identifier appears at some scan position.
    pub proof fn lemma_contains_position(&self, id: u64)
        requires
            self.contents().dom().contains(id),
        ensures
            exists|i: int| 0 <= i < self.pairs().len() && (#[trigger] self.pairs()[i]).0 == id,
    {
        lemma_alist_contains(self.pairs(), id);
    }
}

} // verus!
