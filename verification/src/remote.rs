//! The remote collaborator that a sync pass reconciles against.
//!
//! The remote sync service exposes two operations: fetching the record it
//! holds for a project, and accepting a pushed record or deletion. Either can
//! time out; a timed-out project is reported `failed` by the sync pass and
//! must not disturb the others. `RemoteStore` realizes that interface as an
//! in-process table with an injectable set of timed-out project ids, so the
//! reconciliation protocol around it is verified for every remote state and
//! every failure pattern.

use vstd::prelude::*;

use crate::store::Record;
use crate::store::RecordModel;
use crate::store::find_index_of;
use crate::store::lemma_frame_push;
use crate::store::lemma_frame_remove;
use crate::store::lemma_frame_update;
use crate::store::lemma_lookup_at;
use crate::store::lookup;
use crate::store::unique_ids;
use crate::store::clone_records;

verus! {

/// Mathematical model of the remote side.
#[verifier::ext_equal]
pub struct RemoteModel {
    /// The records the remote service holds, live and tombstoned.
    pub entries: Seq<RecordModel>,
    /// Ids whose fetch or push times out.
    pub failing: Seq<Seq<char>>,
}

impl RemoteModel {
    /// Well-formedness: ids are unique and versions start at 1.
    pub open spec fn wf(self) -> bool {
        &&& unique_ids(self.entries)
        &&& forall|i: int| 0 <= i < self.entries.len() ==> self.entries[i].version >= 1
    }

    /// The record the remote holds under `id`, tombstoned or not.
    pub open spec fn opt(self, id: Seq<char>) -> Option<RecordModel> {
        lookup(self.entries, id)
    }

    /// Whether operations on `id` time out.
    pub open spec fn fails(self, id: Seq<char>) -> bool {
        self.failing.contains(id)
    }
}

/// The remote sync service: an id-keyed record table whose per-project
/// operations can time out.
pub struct RemoteStore {
    entries: Vec<Record>,
    failing: Vec<String>,
}

impl View for RemoteStore {
    type V = RemoteModel;

    closed spec fn view(&self) -> RemoteModel {
        RemoteModel { entries: self.entries.deep_view(), failing: self.failing.deep_view() }
    }
}

impl RemoteStore {
    /// An empty remote with no failing projects.
    pub fn new() -> (r: RemoteStore)
        ensures
            r@.wf(),
            r@.entries.len() == 0,
            r@.failing.len() == 0,
    {
        RemoteStore { entries: Vec::new(), failing: Vec::new() }
    }

    /// Marks every operation on `id` as timing out from now on.
    pub fn mark_failing(&mut self, id: String)
        ensures
            final(self)@.entries == old(self)@.entries,
            final(self)@.failing == old(self)@.failing.push(id@),
            final(self)@.fails(id@),
    {
        self.failing.push(id);
        proof {
            assert(self@.failing =~~= old(self)@.failing.push(self@.failing.last()));
            assert(self@.entries =~~= old(self)@.entries);
        }
    }

    /// Whether operations on `id` time out.
    pub fn is_failing(&self, id: &String) -> (b: bool)
        ensures
            b == self@.fails(id@),
    {
        let n = self.failing.len();
        let mut k: usize = 0;
        while k < n
            invariant
                n == self@.failing.len(),
                k <= n,
                forall|j: int| 0 <= j < k ==> self@.failing[j] != id@,
            decreases n - k,
        {
            if self.failing[k] == *id {
                proof {
                    assert(self@.failing[k as int] == id@);
                }
                return true;
            }
            k = k + 1;
        }
        false
    }

    /// The record the remote holds under `id`, tombstoned or not: the
    /// per-project fetch.
    pub fn fetch(&self, id: &String) -> (r: Option<Record>)
        requires
            self@.wf(),
        ensures
            r.deep_view() == self@.opt(id@),
    {
        match find_index_of(&self.entries, id) {
            Some(i) => {
                proof {
                    lemma_lookup_at(self@.entries, i as int);
                }
                Some(self.entries[i].clone())
            },
            None => None,
        }
    }

    /// Accepts a pushed record, replacing whatever the remote held under the
    /// same id.
    pub fn put_record(&mut self, rec: Record)
        requires
            old(self)@.wf(),
            rec@.version >= 1,
        ensures
            final(self)@.wf(),
            final(self)@.failing == old(self)@.failing,
            final(self)@.opt(rec@.id) == Some(rec@),
            forall|other: Seq<char>| other != rec@.id ==> final(self)@.opt(other) == old(
                self,
            )@.opt(other),
    {
        let ghost m0 = self@;
        match find_index_of(&self.entries, &rec.id) {
            Some(i) => {
                proof {
                    lemma_lookup_at(m0.entries, i as int);
                }
                self.entries[i] = rec;
                proof {
                    assert(self@.failing =~~= m0.failing);
                    assert(self@.entries =~~= m0.entries.update(i as int, self@.entries[i as int]));
                    lemma_lookup_at(self@.entries, i as int);
                    lemma_frame_update(m0.entries, self@.entries, i as int);
                }
            },
            None => {
                self.entries.push(rec);
                proof {
                    let n = m0.entries.len() as int;
                    assert(self@.failing =~~= m0.failing);
                    assert(self@.entries =~~= m0.entries.push(self@.entries[n]));
                    lemma_lookup_at(self@.entries, n);
                    lemma_frame_push(m0.entries, self@.entries);
                }
            },
        }
    }

    /// Accepts a propagated deletion: drops the record under `id` outright.
    /// Absent ids are left alone.
    pub fn purge(&mut self, id: &String)
        requires
            old(self)@.wf(),
        ensures
            final(self)@.wf(),
            final(self)@.failing == old(self)@.failing,
            final(self)@.opt(id@) is None,
            forall|other: Seq<char>| other != id@ ==> final(self)@.opt(other) == old(self)@.opt(
                other,
            ),
    {
        let ghost m0 = self@;
        match find_index_of(&self.entries, id) {
            Some(i) => {
                proof {
                    lemma_lookup_at(m0.entries, i as int);
                }
                self.entries.remove(i);
                proof {
                    assert(self@.failing =~~= m0.failing);
                    assert(self@.entries =~~= m0.entries.remove(i as int));
                    lemma_frame_remove(m0.entries, self@.entries, i as int, id@);
                }
            },
            None => {
                proof {
                    assert(self@ =~~= m0);
                }
            },
        }
    }

    /// A full copy of the records the remote holds, tombstones included.
    pub fn snapshot(&self) -> (snap: Vec<Record>)
        requires
            self@.wf(),
        ensures
            snap.deep_view() == self@.entries,
    {
        clone_records(&self.entries)
    }
}

} // verus!
