//! The local project store: a table of project records keyed by id.
//!
//! Records are kept in insertion order. A delete only tombstones a record;
//! the tombstone is retained (and still carries version metadata) until a
//! sync pass confirms the remote side has observed the deletion, at which
//! point the record is purged.

use vstd::prelude::*;

verus! {

/// Why a store operation failed.
#[derive(Clone, Copy, Debug, PartialEq, Eq, Structural)]
pub enum StoreError {
    /// The id was malformed (empty).
    InvalidArgument,
    /// The id names no live record (absent or tombstoned).
    NotFound,
}

/// One project record, including the metadata that synchronization needs.
#[derive(Debug)]
pub struct Record {
    /// Caller-assigned identifier, immutable once created.
    pub id: String,
    /// Opaque serialized content; the store does not interpret it.
    pub payload: String,
    /// Monotonically increasing counter, bumped on every successful mutation.
    pub version: u64,
    /// Logical timestamp of the last local mutation.
    pub updated_at: u64,
    /// Tombstone flag: the record is deleted but not yet purged.
    pub deleted: bool,
}

/// Mathematical model of one record.
#[verifier::ext_equal]
pub struct RecordModel {
    pub id: Seq<char>,
    pub payload: Seq<char>,
    pub version: u64,
    pub updated_at: u64,
    pub deleted: bool,
}

impl View for Record {
    type V = RecordModel;

    open spec fn view(&self) -> RecordModel {
        RecordModel {
            id: self.id@,
            payload: self.payload@,
            version: self.version,
            updated_at: self.updated_at,
            deleted: self.deleted,
        }
    }
}

impl DeepView for Record {
    type V = RecordModel;

    open spec fn deep_view(&self) -> RecordModel {
        self@
    }
}

impl Clone for Record {
    fn clone(&self) -> (r: Self)
        ensures
            r@ == self@,
    {
        Record {
            id: self.id.clone(),
            payload: self.payload.clone(),
            version: self.version,
            updated_at: self.updated_at,
            deleted: self.deleted,
        }
    }
}

/// The next value of a version or clock counter; saturates at the
/// representable maximum instead of wrapping.
pub open spec fn bumped(v: u64) -> u64 {
    if v == u64::MAX {
        v
    } else {
        (v + 1) as u64
    }
}

/// No two records share an id.
pub open spec fn unique_ids(rs: Seq<RecordModel>) -> bool {
    forall|i: int, j: int| 0 <= i < j < rs.len() ==> rs[i].id != rs[j].id
}

/// Whether some record in `rs` has id `id`.
pub open spec fn has_id(rs: Seq<RecordModel>, id: Seq<char>) -> bool {
    exists|i: int| 0 <= i < rs.len() && rs[i].id == id
}

/// The index of the record with id `id`, where one exists.
pub open spec fn id_index(rs: Seq<RecordModel>, id: Seq<char>) -> int {
    choose|i: int| 0 <= i < rs.len() && rs[i].id == id
}

/// The record with id `id`, or `None` where no record (live or tombstoned)
/// carries that id.
pub open spec fn lookup(rs: Seq<RecordModel>, id: Seq<char>) -> Option<RecordModel> {
    if has_id(rs, id) {
        Some(rs[id_index(rs, id)])
    } else {
        None
    }
}

/// Where ids are unique, looking up the id of the record at `i` yields
/// exactly that record.
pub proof fn lemma_lookup_at(rs: Seq<RecordModel>, i: int)
    requires
        unique_ids(rs),
        0 <= i < rs.len(),
    ensures
        lookup(rs, rs[i].id) == Some(rs[i]),
{
    assert(has_id(rs, rs[i].id));
    let j = id_index(rs, rs[i].id);
    assert(0 <= j < rs.len() && rs[j].id == rs[i].id);
    if i != j {
        assert(false);
    }
}

/// Mathematical model of the whole store.
#[verifier::ext_equal]
pub struct StoreModel {
    /// All records, live and tombstoned, in insertion order.
    pub records: Seq<RecordModel>,
    /// Logical clock; every record's `updated_at` is at most this.
    pub clock: u64,
}

impl StoreModel {
    /// Well-formedness: ids are unique, versions start at 1, and the clock
    /// bounds every timestamp.
    pub open spec fn wf(self) -> bool {
        &&& unique_ids(self.records)
        &&& forall|i: int| 0 <= i < self.records.len() ==> self.records[i].version >= 1
        &&& forall|i: int| 0 <= i < self.records.len() ==> self.records[i].updated_at
            <= self.clock
    }

    /// The record stored under `id`, tombstoned or not.
    pub open spec fn opt(self, id: Seq<char>) -> Option<RecordModel> {
        lookup(self.records, id)
    }

    /// Whether `id` names a record at all, tombstoned or not.
    pub open spec fn contains_id(self, id: Seq<char>) -> bool {
        has_id(self.records, id)
    }

    /// The record stored under `id` (meaningful only where `contains_id`).
    pub open spec fn rec(self, id: Seq<char>) -> RecordModel {
        self.records[id_index(self.records, id)]
    }

    /// Whether `id` names a live (non-tombstoned) record.
    pub open spec fn is_live(self, id: Seq<char>) -> bool {
        self.contains_id(id) && !self.rec(id).deleted
    }

    /// The state after `save(id, payload)` succeeds: a new live record at
    /// version 1, or the existing record overwritten with its version bumped,
    /// its timestamp refreshed, and any tombstone cleared.
    pub open spec fn save_model(self, id: Seq<char>, payload: Seq<char>) -> StoreModel {
        let c = bumped(self.clock);
        if self.contains_id(id) {
            let i = id_index(self.records, id);
            let r = RecordModel {
                id: id,
                payload: payload,
                version: bumped(self.records[i].version),
                updated_at: c,
                deleted: false,
            };
            StoreModel { records: self.records.update(i, r), clock: c }
        } else {
            let r = RecordModel { id: id, payload: payload, version: 1, updated_at: c, deleted: false };
            StoreModel { records: self.records.push(r), clock: c }
        }
    }

    /// The state after `delete(id)` succeeds: the record tombstoned, with its
    /// version bumped and its timestamp refreshed.
    pub open spec fn delete_model(self, id: Seq<char>) -> StoreModel {
        let c = bumped(self.clock);
        let i = id_index(self.records, id);
        let r = RecordModel {
            id: id,
            payload: self.records[i].payload,
            version: bumped(self.records[i].version),
            updated_at: c,
            deleted: true,
        };
        StoreModel { records: self.records.update(i, r), clock: c }
    }

    /// The state after a sync pull writes `r` into the table: the record
    /// under `r.id` replaced (or appended), and the clock raised to cover
    /// the incoming timestamp.
    pub open spec fn apply_model(self, r: RecordModel) -> StoreModel {
        let c = if r.updated_at > self.clock {
            r.updated_at
        } else {
            self.clock
        };
        if self.contains_id(r.id) {
            StoreModel { records: self.records.update(id_index(self.records, r.id), r), clock: c }
        } else {
            StoreModel { records: self.records.push(r), clock: c }
        }
    }

    /// The state after the record under `id` is purged outright.
    pub open spec fn purge_model(self, id: Seq<char>) -> StoreModel {
        if self.contains_id(id) {
            StoreModel { records: self.records.remove(id_index(self.records, id)), clock: self.clock }
        } else {
            self
        }
    }

    /// The ids of all live records, in insertion order.
    pub open spec fn live_ids(self) -> Seq<Seq<char>> {
        live_ids_of(self.records)
    }
}

/// The ids of the live records of `rs`, in order.
pub open spec fn live_ids_of(rs: Seq<RecordModel>) -> Seq<Seq<char>>
    decreases rs.len(),
{
    if rs.len() == 0 {
        Seq::empty()
    } else {
        let rest = live_ids_of(rs.drop_last());
        if rs.last().deleted {
            rest
        } else {
            rest.push(rs.last().id)
        }
    }
}

/// The in-process table of project records.
pub struct ProjectStore {
    records: Vec<Record>,
    clock: u64,
}

impl View for ProjectStore {
    type V = StoreModel;

    closed spec fn view(&self) -> StoreModel {
        StoreModel { records: self.records.deep_view(), clock: self.clock }
    }
}

/// Finds the position of the record with the given id, if any.
pub fn find_index_of(records: &Vec<Record>, id: &String) -> (r: Option<usize>)
    ensures
        match r {
            Some(i) => i < records.deep_view().len() && records.deep_view()[i as int].id == id@,
            None => !has_id(records.deep_view(), id@),
        },
{
    let n = records.len();
    let mut k: usize = 0;
    while k < n
        invariant
            n == records.deep_view().len(),
            k <= n,
            forall|j: int| 0 <= j < k ==> records.deep_view()[j].id != id@,
        decreases n - k,
    {
        if records[k].id == *id {
            return Some(k);
        }
        k = k + 1;
    }
    None
}

/// The next counter value, saturating at the maximum.
fn bump(v: u64) -> (r: u64)
    ensures
        r == bumped(v),
{
    if v == u64::MAX {
        v
    } else {
        v + 1
    }
}

impl ProjectStore {
    /// An empty store.
    pub fn new() -> (s: ProjectStore)
        ensures
            s@.wf(),
            s@.records.len() == 0,
            s@.clock == 0,
    {
        ProjectStore { records: Vec::new(), clock: 0 }
    }

    /// Inserts a new project or updates an existing one (reviving it if it
    /// was tombstoned), returning the record's new version. Fails only on an
    /// empty id, and then leaves the store untouched.
    pub fn save(&mut self, id: String, payload: String) -> (r: Result<u64, StoreError>)
        requires
            old(self)@.wf(),
        ensures
            final(self)@.wf(),
            id@.len() == 0 ==> r == Err::<u64, StoreError>(StoreError::InvalidArgument)
                && final(self)@ == old(self)@,
            id@.len() > 0 ==> {
                &&& final(self)@ == old(self)@.save_model(id@, payload@)
                &&& final(self)@.is_live(id@)
                &&& final(self)@.rec(id@).payload == payload@
                &&& final(self)@.rec(id@).version == (if old(self)@.contains_id(id@) {
                    bumped(old(self)@.rec(id@).version)
                } else {
                    1u64
                })
                &&& r == Ok::<u64, StoreError>(final(self)@.rec(id@).version)
            },
    {
        if id.as_str().is_empty() {
            return Err(StoreError::InvalidArgument);
        }
        let c = bump(self.clock);
        match find_index_of(&self.records, &id) {
            Some(i) => {
                let v = bump(self.records[i].version);
                let ghost m0 = self@;
                proof {
                    lemma_lookup_at(m0.records, i as int);
                }
                let rec = Record { id, payload, version: v, updated_at: c, deleted: false };
                self.records[i] = rec;
                self.clock = c;
                proof {
                    assert(self@ =~= m0.save_model(m0.records[i as int].id, self@.records[i as int].payload));
                    lemma_lookup_at(self@.records, i as int);
                }
                Ok(v)
            },
            None => {
                let ghost m0 = self@;
                let rec = Record { id, payload, version: 1, updated_at: c, deleted: false };
                self.records.push(rec);
                self.clock = c;
                proof {
                    let n = m0.records.len() as int;
                    assert(self@ =~= m0.save_model(self@.records[n].id, self@.records[n].payload));
                    lemma_lookup_at(self@.records, n);
                }
                Ok(1)
            },
        }
    }

    /// Returns the payload of the live record under `id`; fails with
    /// `NotFound` where the id is absent or tombstoned.
    pub fn load(&self, id: &String) -> (r: Result<String, StoreError>)
        requires
            self@.wf(),
        ensures
            self@.is_live(id@) ==> (r matches Ok(p) && p@ == self@.rec(id@).payload),
            !self@.is_live(id@) ==> r == Err::<String, StoreError>(StoreError::NotFound),
    {
        match find_index_of(&self.records, id) {
            Some(i) => {
                proof {
                    lemma_lookup_at(self@.records, i as int);
                }
                if self.records[i].deleted {
                    Err(StoreError::NotFound)
                } else {
                    Ok(self.records[i].payload.clone())
                }
            },
            None => Err(StoreError::NotFound),
        }
    }

    /// Tombstones the live record under `id`; fails with `NotFound` where the
    /// id is absent or already tombstoned, leaving the store untouched.
    pub fn delete(&mut self, id: &String) -> (r: Result<(), StoreError>)
        requires
            old(self)@.wf(),
        ensures
            final(self)@.wf(),
            old(self)@.is_live(id@) ==> {
                &&& r == Ok::<(), StoreError>(())
                &&& final(self)@ == old(self)@.delete_model(id@)
                &&& final(self)@.contains_id(id@)
                &&& !final(self)@.is_live(id@)
            },
            !old(self)@.is_live(id@) ==> r == Err::<(), StoreError>(StoreError::NotFound)
                && final(self)@ == old(self)@,
    {
        match find_index_of(&self.records, id) {
            Some(i) => {
                let ghost m0 = self@;
                proof {
                    lemma_lookup_at(m0.records, i as int);
                }
                if self.records[i].deleted {
                    Err(StoreError::NotFound)
                } else {
                    let c = bump(self.clock);
                    let v = bump(self.records[i].version);
                    let payload = self.records[i].payload.clone();
                    let rec = Record {
                        id: id.clone(),
                        payload,
                        version: v,
                        updated_at: c,
                        deleted: true,
                    };
                    self.records[i] = rec;
                    self.clock = c;
                    proof {
                        assert(self@ =~= m0.delete_model(id@));
                        lemma_lookup_at(self@.records, i as int);
                    }
                    Ok(())
                }
            },
            None => Err(StoreError::NotFound),
        }
    }

    /// The ids of all live records, in insertion order.
    pub fn list(&self) -> (ids: Vec<String>)
        requires
            self@.wf(),
        ensures
            ids.deep_view() == self@.live_ids(),
    {
        let n = self.records.len();
        let mut ids: Vec<String> = Vec::new();
        let mut k: usize = 0;
        while k < n
            invariant
                n == self@.records.len(),
                k <= n,
                ids.deep_view() == live_ids_of(self@.records.subrange(0, k as int)),
            decreases n - k,
        {
            let ghost pre = self@.records.subrange(0, k as int);
            let ghost cur = self@.records.subrange(0, k as int + 1);
            proof {
                assert(cur.drop_last() =~= pre);
                assert(cur.last() == self@.records[k as int]);
            }
            if !self.records[k].deleted {
                ids.push(self.records[k].id.clone());
                proof {
                    assert(ids.deep_view() =~= live_ids_of(cur));
                }
            }
            k = k + 1;
        }
        proof {
            assert(self@.records.subrange(0, n as int) =~= self@.records);
        }
        ids
    }

    /// A full point-in-time copy of the table, tombstones included, for the
    /// sync engine's use.
    pub fn snapshot(&self) -> (snap: Vec<Record>)
        requires
            self@.wf(),
        ensures
            snap.deep_view() == self@.records,
    {
        clone_records(&self.records)
    }

    /// The id/payload pairs of all live records, in insertion order: the
    /// store's offline export.
    pub fn live_payloads(&self) -> (out: Vec<(String, String)>)
        requires
            self@.wf(),
        ensures
            out.deep_view() == live_payloads_of(self@.records),
    {
        let n = self.records.len();
        let mut out: Vec<(String, String)> = Vec::new();
        let mut k: usize = 0;
        while k < n
            invariant
                n == self@.records.len(),
                k <= n,
                out.deep_view() == live_payloads_of(self@.records.subrange(0, k as int)),
            decreases n - k,
        {
            let ghost pre = self@.records.subrange(0, k as int);
            let ghost cur = self@.records.subrange(0, k as int + 1);
            proof {
                assert(cur.drop_last() =~= pre);
                assert(cur.last() == self@.records[k as int]);
            }
            if !self.records[k].deleted {
                out.push((self.records[k].id.clone(), self.records[k].payload.clone()));
                proof {
                    assert(out.deep_view() =~= live_payloads_of(cur));
                }
            }
            k = k + 1;
        }
        proof {
            assert(self@.records.subrange(0, n as int) =~= self@.records);
        }
        out
    }

    /// The full record under `id`, tombstoned or not.
    pub fn get_record(&self, id: &String) -> (r: Option<Record>)
        requires
            self@.wf(),
        ensures
            r.deep_view() == self@.opt(id@),
    {
        match find_index_of(&self.records, id) {
            Some(i) => {
                proof {
                    lemma_lookup_at(self@.records, i as int);
                }
                Some(self.records[i].clone())
            },
            None => None,
        }
    }

    /// Writes a record pulled from the remote side into the table verbatim,
    /// replacing any record under the same id. The sync engine calls this
    /// only for a winning remote record.
    pub fn apply_sync(&mut self, rec: Record)
        requires
            old(self)@.wf(),
            rec@.version >= 1,
        ensures
            final(self)@.wf(),
            final(self)@ == old(self)@.apply_model(rec@),
            final(self)@.opt(rec@.id) == Some(rec@),
            forall|other: Seq<char>| other != rec@.id ==> final(self)@.opt(other) == old(
                self,
            )@.opt(other),
    {
        let ghost m0 = self@;
        if rec.updated_at > self.clock {
            self.clock = rec.updated_at;
        }
        match find_index_of(&self.records, &rec.id) {
            Some(i) => {
                proof {
                    lemma_lookup_at(m0.records, i as int);
                }
                self.records[i] = rec;
                proof {
                    assert(self@ =~= m0.apply_model(self@.records[i as int]));
                    lemma_lookup_at(self@.records, i as int);
                    lemma_frame_update(m0.records, self@.records, i as int);
                }
            },
            None => {
                self.records.push(rec);
                proof {
                    let n = m0.records.len() as int;
                    assert(self@ =~= m0.apply_model(self@.records[n]));
                    lemma_lookup_at(self@.records, n);
                    lemma_frame_push(m0.records, self@.records);
                }
            },
        }
    }

    /// Removes the record under `id` outright (tombstone included); used once
    /// a deletion has been acknowledged remotely. Absent ids are left alone.
    pub fn purge(&mut self, id: &String)
        requires
            old(self)@.wf(),
        ensures
            final(self)@.wf(),
            final(self)@ == old(self)@.purge_model(id@),
            final(self)@.opt(id@) is None,
            forall|other: Seq<char>| other != id@ ==> final(self)@.opt(other) == old(self)@.opt(
                other,
            ),
    {
        let ghost m0 = self@;
        match find_index_of(&self.records, id) {
            Some(i) => {
                proof {
                    lemma_lookup_at(m0.records, i as int);
                }
                self.records.remove(i);
                proof {
                    assert(self@ =~= m0.purge_model(id@));
                    lemma_frame_remove(m0.records, self@.records, i as int, id@);
                }
            },
            None => {
                proof {
                    assert(self@ =~= m0.purge_model(id@));
                }
            },
        }
    }
}

/// The id/payload pairs of the live records of `rs`, in order.
pub open spec fn live_payloads_of(rs: Seq<RecordModel>) -> Seq<(Seq<char>, Seq<char>)>
    decreases rs.len(),
{
    if rs.len() == 0 {
        Seq::empty()
    } else {
        let rest = live_payloads_of(rs.drop_last());
        if rs.last().deleted {
            rest
        } else {
            rest.push((rs.last().id, rs.last().payload))
        }
    }
}

/// Copies a record table element by element.
pub fn clone_records(records: &Vec<Record>) -> (out: Vec<Record>)
    ensures
        out.deep_view() == records.deep_view(),
{
    let n = records.len();
    let mut out: Vec<Record> = Vec::new();
    let mut k: usize = 0;
    while k < n
        invariant
            n == records.deep_view().len(),
            k <= n,
            out.deep_view() == records.deep_view().subrange(0, k as int),
        decreases n - k,
    {
        let ghost out0 = out.deep_view();
        out.push(records[k].clone());
        proof {
            assert(out.deep_view() =~~= out0.push(records.deep_view()[k as int]));
            assert(out.deep_view() =~~= records.deep_view().subrange(0, k as int + 1));
        }
        k = k + 1;
    }
    proof {
        assert(records.deep_view().subrange(0, n as int) =~= records.deep_view());
    }
    out
}

/// Replacing the record at `i` (with one that keeps its id unique) leaves
/// the lookup of every other id unchanged.
pub proof fn lemma_frame_update(rs0: Seq<RecordModel>, rs1: Seq<RecordModel>, i: int)
    requires
        unique_ids(rs0),
        unique_ids(rs1),
        0 <= i < rs0.len(),
        rs1.len() == rs0.len(),
        rs1 == rs0.update(i, rs1[i]),
        rs1[i].id == rs0[i].id,
    ensures
        forall|other: Seq<char>| other != rs0[i].id ==> lookup(rs1, other) == lookup(rs0, other),
{
    assert forall|other: Seq<char>| other != rs0[i].id implies lookup(rs1, other) == lookup(
        rs0,
        other,
    ) by {
        if has_id(rs0, other) {
            let j = id_index(rs0, other);
            assert(rs1[j].id == other);
            lemma_lookup_at(rs0, j);
            lemma_lookup_at(rs1, j);
        } else {
            if has_id(rs1, other) {
                let j = id_index(rs1, other);
                assert(rs0[j].id == other);
            }
        }
    }
}

/// Appending a record with a fresh id leaves the lookup of every other id
/// unchanged.
pub proof fn lemma_frame_push(rs0: Seq<RecordModel>, rs1: Seq<RecordModel>)
    requires
        unique_ids(rs0),
        unique_ids(rs1),
        rs1.len() == rs0.len() + 1,
        rs1 == rs0.push(rs1.last()),
    ensures
        forall|other: Seq<char>| other != rs1.last().id ==> lookup(rs1, other) == lookup(
            rs0,
            other,
        ),
{
    assert forall|other: Seq<char>| other != rs1.last().id implies lookup(rs1, other) == lookup(
        rs0,
        other,
    ) by {
        if has_id(rs0, other) {
            let j = id_index(rs0, other);
            assert(rs1[j].id == other);
            lemma_lookup_at(rs0, j);
            lemma_lookup_at(rs1, j);
        } else {
            if has_id(rs1, other) {
                let j = id_index(rs1, other);
                assert(0 <= j < rs0.len());
                assert(rs0[j].id == other);
            }
        }
    }
}

/// Removing the record at `i` leaves the lookup of every other id unchanged,
/// and the removed id is gone.
pub proof fn lemma_frame_remove(rs0: Seq<RecordModel>, rs1: Seq<RecordModel>, i: int, id: Seq<char>)
    requires
        unique_ids(rs0),
        0 <= i < rs0.len(),
        rs0[i].id == id,
        rs1 == rs0.remove(i),
    ensures
        unique_ids(rs1),
        lookup(rs1, id) is None,
        forall|other: Seq<char>| other != id ==> lookup(rs1, other) == lookup(rs0, other),
{
    assert(unique_ids(rs1)) by {
        assert forall|a: int, b: int| 0 <= a < b < rs1.len() implies rs1[a].id != rs1[b].id by {
            let a0 = if a < i { a } else { a + 1 };
            let b0 = if b < i { b } else { b + 1 };
            assert(rs1[a] == rs0[a0]);
            assert(rs1[b] == rs0[b0]);
        }
    }
    assert(lookup(rs1, id) is None) by {
        if has_id(rs1, id) {
            let j = id_index(rs1, id);
            let j0 = if j < i { j } else { j + 1 };
            assert(rs1[j] == rs0[j0]);
            assert(rs0[j0].id == id && rs0[i].id == id && j0 != i);
        }
    }
    assert forall|other: Seq<char>| other != id implies lookup(rs1, other) == lookup(
        rs0,
        other,
    ) by {
        if has_id(rs0, other) {
            let j0 = id_index(rs0, other);
            lemma_lookup_at(rs0, j0);
            let j1 = if j0 < i { j0 } else { j0 - 1 };
            assert(j0 != i);
            assert(rs1[j1] == rs0[j0]);
            lemma_lookup_at(rs1, j1);
        } else {
            if has_id(rs1, other) {
                let j = id_index(rs1, other);
                let j0 = if j < i { j } else { j + 1 };
                assert(rs1[j] == rs0[j0]);
            }
        }
    }
}

} // verus!
