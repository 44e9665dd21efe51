//! The library's global properties, stated over the mathematical models and
//! proved once and for all.

use vstd::prelude::*;

use crate::remote::RemoteModel;
use crate::store::RecordModel;
use crate::store::StoreModel;
use crate::store::id_index;
use crate::store::lemma_lookup_at;
use crate::store::live_ids_of;
use crate::store::unique_ids;
use crate::sync::SyncOutcome;
use crate::sync::id_settled;
use crate::sync::outcome_of;
use crate::sync::pass_outcome;
use crate::sync::resolved;

verus! {

/// A save is immediately readable: after `save(id, payload)` succeeds, the
/// record under `id` is live and holds exactly `payload` — so a `load(id)`
/// right after returns that payload.
pub proof fn lemma_save_then_load(m: StoreModel, id: Seq<char>, payload: Seq<char>)
    requires
        m.wf(),
    ensures
        m.save_model(id, payload).wf(),
        m.save_model(id, payload).is_live(id),
        m.save_model(id, payload).rec(id).payload == payload,
{
    let m2 = m.save_model(id, payload);
    lemma_save_wf(m, id, payload);
    if m.contains_id(id) {
        let i = id_index(m.records, id);
        lemma_lookup_at(m2.records, i);
    } else {
        lemma_lookup_at(m2.records, m.records.len() as int);
    }
}

/// A delete hides the record from readers: after `delete(id)` succeeds the
/// record under `id` is tombstoned, not gone — retained for the next sync
/// pass — and no longer live, so a `load(id)` right after fails with
/// `NotFound`.
pub proof fn lemma_delete_then_load(m: StoreModel, id: Seq<char>)
    requires
        m.wf(),
        m.is_live(id),
    ensures
        m.delete_model(id).wf(),
        m.delete_model(id).contains_id(id),
        !m.delete_model(id).is_live(id),
{
    let m2 = m.delete_model(id);
    let i = id_index(m.records, id);
    lemma_lookup_at(m.records, i);
    assert(unique_ids(m2.records));
    lemma_lookup_at(m2.records, i);
}

/// Saving over an existing record (live or tombstoned) increments its
/// version by exactly 1, as long as the counter has room.
pub proof fn lemma_save_increments_version(m: StoreModel, id: Seq<char>, payload: Seq<char>)
    requires
        m.wf(),
        m.contains_id(id),
        m.rec(id).version < u64::MAX,
    ensures
        m.save_model(id, payload).rec(id).version == m.rec(id).version + 1,
{
    let i = id_index(m.records, id);
    lemma_lookup_at(m.records, i);
    lemma_save_wf(m, id, payload);
    lemma_lookup_at(m.save_model(id, payload).records, i);
}

/// A version never decreases across a save, with no bound on the counter.
pub proof fn lemma_save_version_monotonic(m: StoreModel, id: Seq<char>, payload: Seq<char>)
    requires
        m.wf(),
        m.contains_id(id),
    ensures
        m.save_model(id, payload).rec(id).version >= m.rec(id).version,
{
    let i = id_index(m.records, id);
    lemma_lookup_at(m.records, i);
    lemma_save_wf(m, id, payload);
    lemma_lookup_at(m.save_model(id, payload).records, i);
}

/// A save leaves the store well-formed.
pub proof fn lemma_save_wf(m: StoreModel, id: Seq<char>, payload: Seq<char>)
    requires
        m.wf(),
    ensures
        m.save_model(id, payload).wf(),
{
    let m2 = m.save_model(id, payload);
    if m.contains_id(id) {
        let i = id_index(m.records, id);
        assert forall|a: int, b: int| 0 <= a < b < m2.records.len() implies m2.records[a].id
            != m2.records[b].id by {
            assert(m2.records[a].id == m.records[a].id);
            assert(m2.records[b].id == m.records[b].id);
        }
    }
}

/// Every id that `list` returns names a live record: a tombstoned or
/// never-created id never appears.
pub proof fn lemma_list_only_live(m: StoreModel)
    requires
        m.wf(),
    ensures
        forall|j: int| 0 <= j < m.live_ids().len() ==> m.is_live(#[trigger] m.live_ids()[j]),
{
    lemma_live_ids_live(m.records);
    assert forall|j: int| 0 <= j < m.live_ids().len() implies m.is_live(
        #[trigger] m.live_ids()[j],
    ) by {
        let id = m.live_ids()[j];
        let i = choose|i: int|
            0 <= i < m.records.len() && (#[trigger] m.records[i]).id == id
                && !m.records[i].deleted;
        lemma_lookup_at(m.records, i);
    }
}

/// Whether some live record of `rs` carries id `id`.
pub open spec fn some_live_record_has_id(rs: Seq<RecordModel>, id: Seq<char>) -> bool {
    exists|i: int| 0 <= i < rs.len() && (#[trigger] rs[i]).id == id && !rs[i].deleted
}

/// Each listed id belongs to some live record of the table.
proof fn lemma_live_ids_live(rs: Seq<RecordModel>)
    ensures
        forall|j: int| 0 <= j < live_ids_of(rs).len() ==> some_live_record_has_id(
            rs,
            #[trigger] live_ids_of(rs)[j],
        ),
    decreases rs.len(),
{
    if rs.len() > 0 {
        let head = rs.drop_last();
        lemma_live_ids_live(head);
        assert forall|j: int| 0 <= j < live_ids_of(rs).len() implies some_live_record_has_id(
            rs,
            #[trigger] live_ids_of(rs)[j],
        ) by {
            if j < live_ids_of(head).len() {
                let i = choose|i: int|
                    0 <= i < head.len() && (#[trigger] head[i]).id == live_ids_of(head)[j]
                        && !head[i].deleted;
                assert(rs[i].id == live_ids_of(rs)[j] && !rs[i].deleted);
            } else {
                assert(rs[rs.len() - 1].id == live_ids_of(rs)[j] && !rs[rs.len() - 1].deleted);
            }
        }
    }
}

/// A reconciliation pass is idempotent per project: once both sides hold the
/// resolution of what they held, resolving again moves nothing and the
/// reported outcome is `Unchanged`.
pub proof fn lemma_pass_idempotent(l: Option<RecordModel>, r: Option<RecordModel>)
    ensures
        resolved(resolved(l, r), resolved(l, r)) == resolved(l, r),
        outcome_of(resolved(l, r), resolved(l, r)) == SyncOutcome::Unchanged,
{
}

/// Running a pass twice with no intervening edits yields an all-`Unchanged`
/// report: a project that a first pass settled without timing out is reported
/// `Unchanged` by a second pass, which also leaves it in place.
pub proof fn lemma_second_pass_unchanged(
    l0: StoreModel,
    r0: RemoteModel,
    l1: StoreModel,
    r1: RemoteModel,
    id: Seq<char>,
)
    requires
        !r0.fails(id),
        !r1.fails(id),
        id_settled(l0, r0, l1, r1, id),
    ensures
        pass_outcome(l1, r1, id) == SyncOutcome::Unchanged,
        id_settled(l1, r1, l1, r1, id),
{
    lemma_pass_idempotent(l0.opt(id), r0.opt(id));
}

} // verus!
