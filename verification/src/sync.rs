//! One reconciliation pass between the local store and the remote service.
//!
//! Conflicts are resolved last-writer-wins: the higher version wins, ties go
//! to the later `updated_at`, and a full tie goes to the local side. The
//! winner's record is written to the loser's side; a winning tombstone is
//! propagated and then dropped from both sides. Each project is reconciled
//! independently: a timed-out project is reported `failed` and left exactly
//! as it was, without disturbing the rest of the pass.

use vstd::prelude::*;

use crate::remote::RemoteModel;
use crate::remote::RemoteStore;
use crate::store::ProjectStore;
use crate::store::Record;
use crate::store::RecordModel;
use crate::store::StoreModel;
use crate::store::has_id;
use crate::store::find_index_of;

verus! {

/// The outcome of reconciling one project.
#[derive(Clone, Copy, Debug, PartialEq, Eq, Structural)]
pub enum SyncOutcome {
    /// The local record won and was pushed to (or deleted from) the remote.
    AppliedLocal,
    /// The remote record won and was pulled into (or deleted from) the store.
    AppliedRemote,
    /// Both sides had diverged; the winner's payload replaced the loser's.
    ConflictResolved,
    /// Both sides already agreed; nothing moved.
    Unchanged,
    /// The remote operation timed out; the project was left as it was.
    Failed,
}

/// One line of a sync report.
#[derive(Debug)]
pub struct ReportEntry {
    pub id: String,
    pub outcome: SyncOutcome,
}

/// Mathematical model of a report entry.
#[verifier::ext_equal]
pub struct ReportEntryModel {
    pub id: Seq<char>,
    pub outcome: SyncOutcome,
}

impl View for ReportEntry {
    type V = ReportEntryModel;

    open spec fn view(&self) -> ReportEntryModel {
        ReportEntryModel { id: self.id@, outcome: self.outcome }
    }
}

impl DeepView for ReportEntry {
    type V = ReportEntryModel;

    open spec fn deep_view(&self) -> ReportEntryModel {
        self@
    }
}

/// The result of one reconciliation pass: one outcome per project, in the
/// order the projects were reconciled.
#[derive(Debug)]
pub struct SyncReport {
    pub entries: Vec<ReportEntry>,
}

impl View for SyncReport {
    type V = Seq<ReportEntryModel>;

    open spec fn view(&self) -> Seq<ReportEntryModel> {
        self.entries.deep_view()
    }
}

/// Whether the local record `a` beats the remote record `b`: higher version
/// wins, a tied version goes to the later timestamp, and a full tie goes to
/// the local side.
pub open spec fn local_wins(a: RecordModel, b: RecordModel) -> bool {
    ||| a.version > b.version
    ||| (a.version == b.version && a.updated_at >= b.updated_at)
}

/// The record both sides hold for one project after it is reconciled:
/// the winner, or nothing where the winner is a tombstone (the deletion is
/// propagated and the tombstone dropped) or where only a dangling tombstone
/// existed.
pub open spec fn resolved(l: Option<RecordModel>, r: Option<RecordModel>) -> Option<RecordModel> {
    match (l, r) {
        (None, None) => None,
        (Some(a), None) => if a.deleted {
            None
        } else {
            Some(a)
        },
        (None, Some(b)) => if b.deleted {
            None
        } else {
            Some(b)
        },
        (Some(a), Some(b)) => {
            let w = if local_wins(a, b) {
                a
            } else {
                b
            };
            if w.deleted {
                None
            } else {
                Some(w)
            }
        },
    }
}

/// The reported outcome for one project, given what each side held.
pub open spec fn outcome_of(l: Option<RecordModel>, r: Option<RecordModel>) -> SyncOutcome {
    match (l, r) {
        (None, None) => SyncOutcome::Unchanged,
        (Some(a), None) => if a.deleted {
            SyncOutcome::Unchanged
        } else {
            SyncOutcome::AppliedLocal
        },
        (None, Some(b)) => if b.deleted {
            SyncOutcome::Unchanged
        } else {
            SyncOutcome::AppliedRemote
        },
        (Some(a), Some(b)) => {
            let w = if local_wins(a, b) {
                a
            } else {
                b
            };
            if w.deleted {
                if a.deleted && b.deleted {
                    SyncOutcome::Unchanged
                } else if local_wins(a, b) {
                    SyncOutcome::AppliedLocal
                } else {
                    SyncOutcome::AppliedRemote
                }
            } else {
                if a.version != b.version && a.payload != b.payload {
                    SyncOutcome::ConflictResolved
                } else {
                    SyncOutcome::Unchanged
                }
            }
        },
    }
}

/// The outcome a pass over states `lm`, `rm` reports for `id`: `Failed` where
/// the remote times out, otherwise decided by what the two sides hold.
pub open spec fn pass_outcome(lm: StoreModel, rm: RemoteModel, id: Seq<char>) -> SyncOutcome {
    if rm.fails(id) {
        SyncOutcome::Failed
    } else {
        outcome_of(lm.opt(id), rm.opt(id))
    }
}

/// How a pass over states `l0`, `r0` leaves project `id` in the final states
/// `l1`, `r1`: untouched where the remote times out, otherwise both sides
/// hold the resolution.
pub open spec fn id_settled(
    l0: StoreModel,
    r0: RemoteModel,
    l1: StoreModel,
    r1: RemoteModel,
    id: Seq<char>,
) -> bool {
    if r0.fails(id) {
        l1.opt(id) == l0.opt(id) && r1.opt(id) == r0.opt(id)
    } else {
        l1.opt(id) == resolved(l0.opt(id), r0.opt(id)) && r1.opt(id) == resolved(
            l0.opt(id),
            r0.opt(id),
        )
    }
}

/// Reconciles one project. Where the remote times out for `id`, nothing
/// changes and the entry reads `Failed`; otherwise both sides end up holding
/// the resolution of what they held, and the entry reports how they got
/// there.
pub fn sync_one(local: &mut ProjectStore, remote: &mut RemoteStore, id: &String) -> (entry:
    ReportEntry)
    requires
        old(local)@.wf(),
        old(remote)@.wf(),
    ensures
        final(local)@.wf(),
        final(remote)@.wf(),
        entry@.id == id@,
        entry@.outcome == pass_outcome(old(local)@, old(remote)@, id@),
        final(remote)@.failing == old(remote)@.failing,
        old(remote)@.fails(id@) ==> final(local)@ == old(local)@ && final(remote)@ == old(
            remote,
        )@,
        !old(remote)@.fails(id@) ==> {
            &&& final(local)@.opt(id@) == resolved(old(local)@.opt(id@), old(remote)@.opt(id@))
            &&& final(remote)@.opt(id@) == resolved(old(local)@.opt(id@), old(remote)@.opt(id@))
            &&& forall|o: Seq<char>| o != id@ ==> final(local)@.opt(o) == old(local)@.opt(o)
            &&& forall|o: Seq<char>| o != id@ ==> final(remote)@.opt(o) == old(remote)@.opt(o)
        },
{
    if remote.is_failing(id) {
        return ReportEntry { id: id.clone(), outcome: SyncOutcome::Failed };
    }
    let l0 = local.get_record(id);
    let r0 = remote.fetch(id);
    match (l0, r0) {
        (None, None) => ReportEntry { id: id.clone(), outcome: SyncOutcome::Unchanged },
        (Some(a), None) => {
            if a.deleted {
                // A tombstone the remote never saw alive: nothing to
                // propagate, so the tombstone is dropped.
                local.purge(id);
                ReportEntry { id: id.clone(), outcome: SyncOutcome::Unchanged }
            } else {
                // Present only locally: push it so the remote creates it.
                remote.put_record(a);
                ReportEntry { id: id.clone(), outcome: SyncOutcome::AppliedLocal }
            }
        },
        (None, Some(b)) => {
            if b.deleted {
                // A remote tombstone for a project the store no longer
                // holds: the deletion is already acknowledged; drop it.
                remote.purge(id);
                ReportEntry { id: id.clone(), outcome: SyncOutcome::Unchanged }
            } else {
                // Present only remotely: pull it into the store.
                local.apply_sync(b);
                ReportEntry { id: id.clone(), outcome: SyncOutcome::AppliedRemote }
            }
        },
        (Some(a), Some(b)) => {
            let a_wins = a.version > b.version || (a.version == b.version && a.updated_at
                >= b.updated_at);
            if a_wins {
                if a.deleted {
                    let outcome = if b.deleted {
                        SyncOutcome::Unchanged
                    } else {
                        SyncOutcome::AppliedLocal
                    };
                    // The local deletion wins: the remote drops the record,
                    // and the acknowledged tombstone is purged.
                    local.purge(id);
                    remote.purge(id);
                    ReportEntry { id: id.clone(), outcome }
                } else {
                    let outcome = if a.version != b.version && !(a.payload == b.payload) {
                        SyncOutcome::ConflictResolved
                    } else {
                        SyncOutcome::Unchanged
                    };
                    // The local record wins: the remote takes it verbatim.
                    remote.put_record(a);
                    ReportEntry { id: id.clone(), outcome }
                }
            } else {
                if b.deleted {
                    let outcome = if a.deleted {
                        SyncOutcome::Unchanged
                    } else {
                        SyncOutcome::AppliedRemote
                    };
                    // The remote deletion wins: the store drops the record,
                    // and the remote tombstone is purged in turn.
                    local.purge(id);
                    remote.purge(id);
                    ReportEntry { id: id.clone(), outcome }
                } else {
                    let outcome = if a.version != b.version && !(a.payload == b.payload) {
                        SyncOutcome::ConflictResolved
                    } else {
                        SyncOutcome::Unchanged
                    };
                    // The remote record wins: the store takes it verbatim.
                    local.apply_sync(b);
                    ReportEntry { id: id.clone(), outcome }
                }
            }
        },
    }
}

/// Every id present in `a`, then every id present only in `b`, each once.
fn union_ids(a: &Vec<Record>, b: &Vec<Record>) -> (ids: Vec<String>)
    requires
        crate::store::unique_ids(a.deep_view()),
        crate::store::unique_ids(b.deep_view()),
    ensures
        forall|i: int, j: int| 0 <= i < j < ids.deep_view().len() ==> ids.deep_view()[i]
            != ids.deep_view()[j],
        forall|i: int|
            0 <= i < ids.deep_view().len() ==> has_id(a.deep_view(), ids.deep_view()[i]) || has_id(
                b.deep_view(),
                ids.deep_view()[i],
            ),
        forall|i: int| 0 <= i < a.deep_view().len() ==> ids.deep_view().contains(
            a.deep_view()[i].id,
        ),
        forall|i: int| 0 <= i < b.deep_view().len() ==> ids.deep_view().contains(
            b.deep_view()[i].id,
        ),
{
    let mut ids: Vec<String> = Vec::new();
    let na = a.len();
    let mut k: usize = 0;
    while k < na
        invariant
            crate::store::unique_ids(a.deep_view()),
            na == a.deep_view().len(),
            k <= na,
            ids.deep_view().len() == k,
            forall|j: int| 0 <= j < k ==> ids.deep_view()[j] == a.deep_view()[j].id,
        decreases na - k,
    {
        let ghost ids0 = ids.deep_view();
        ids.push(a[k].id.clone());
        proof {
            assert(ids.deep_view() =~~= ids0.push(a.deep_view()[k as int].id));
        }
        k = k + 1;
    }
    let nb = b.len();
    let mut m: usize = 0;
    while m < nb
        invariant
            crate::store::unique_ids(a.deep_view()),
            crate::store::unique_ids(b.deep_view()),
            na == a.deep_view().len(),
            nb == b.deep_view().len(),
            m <= nb,
            ids.deep_view().len() >= na,
            forall|j: int| 0 <= j < na ==> ids.deep_view()[j] == a.deep_view()[j].id,
            forall|j: int| na <= j < ids.deep_view().len() ==> !has_id(
                a.deep_view(),
                ids.deep_view()[j],
            ),
            forall|i: int, j: int| 0 <= i < j < ids.deep_view().len() ==> ids.deep_view()[i]
                != ids.deep_view()[j],
            forall|j: int| 0 <= j < ids.deep_view().len() ==> has_id(
                a.deep_view(),
                ids.deep_view()[j],
            ) || has_id(b.deep_view(), ids.deep_view()[j]),
            forall|i: int| 0 <= i < m ==> ids.deep_view().contains(b.deep_view()[i].id),
        decreases nb - m,
    {
        let ghost ids0 = ids.deep_view();
        match find_index_of(a, &b[m].id) {
            Some(i) => {
                proof {
                    assert(ids.deep_view()[i as int] == b.deep_view()[m as int].id);
                    assert(ids.deep_view().contains(b.deep_view()[m as int].id));
                }
            },
            None => {
                let duplicate = contains_id_exec(&ids, &b[m].id);
                if duplicate {
                    proof {
                        assert(ids.deep_view().contains(b.deep_view()[m as int].id));
                    }
                } else {
                    ids.push(b[m].id.clone());
                    proof {
                        assert(ids.deep_view() =~~= ids0.push(b.deep_view()[m as int].id));
                        assert(ids.deep_view()[ids0.len() as int] == b.deep_view()[m as int].id);
                        assert(ids.deep_view().contains(b.deep_view()[m as int].id));
                        assert forall|i: int|
                            0 <= i < m implies ids.deep_view().contains(b.deep_view()[i].id) by {
                            let w = choose|w: int| 0 <= w < ids0.len() && ids0[w] == b.deep_view()[i].id;
                            assert(ids.deep_view()[w] == b.deep_view()[i].id);
                        }
                    }
                }
            },
        }
        m = m + 1;
    }
    proof {
        assert forall|i: int| 0 <= i < na implies ids.deep_view().contains(
            a.deep_view()[i].id,
        ) by {
            assert(ids.deep_view()[i] == a.deep_view()[i].id);
        }
    }
    ids
}

/// Whether some element of `ids` views to the same characters as `id`.
fn contains_id_exec(ids: &Vec<String>, id: &String) -> (b: bool)
    ensures
        b == ids.deep_view().contains(id@),
{
    let n = ids.len();
    let mut k: usize = 0;
    while k < n
        invariant
            n == ids.deep_view().len(),
            k <= n,
            forall|j: int| 0 <= j < k ==> ids.deep_view()[j] != id@,
        decreases n - k,
    {
        if ids[k] == *id {
            proof {
                assert(ids.deep_view()[k as int] == id@);
            }
            return true;
        }
        k = k + 1;
    }
    false
}

/// Whether `id` stands among the first `k` elements of `u`.
pub open spec fn appears_before(u: Seq<Seq<char>>, k: int, id: Seq<char>) -> bool {
    exists|j: int| 0 <= j < k && u[j] == id
}

/// One full reconciliation pass. Every project present on either side is
/// reconciled independently; afterwards each project either holds its
/// resolution on both sides or, where the remote timed out for it, is
/// exactly as it was. The report carries one entry per project, in the order
/// reconciled: local-table order first, then remote-only projects.
#[verifier::rlimit(60)]
pub fn sync_pass(local: &mut ProjectStore, remote: &mut RemoteStore) -> (report: SyncReport)
    requires
        old(local)@.wf(),
        old(remote)@.wf(),
    ensures
        final(local)@.wf(),
        final(remote)@.wf(),
        final(remote)@.failing == old(remote)@.failing,
        forall|id: Seq<char>| id_settled(old(local)@, old(remote)@, final(local)@, final(remote)@, id),
        forall|k: int| 0 <= k < report@.len() ==> report@[k].outcome == pass_outcome(
            old(local)@,
            old(remote)@,
            report@[k].id,
        ),
        forall|k: int, j: int| 0 <= k < j < report@.len() ==> report@[k].id != report@[j].id,
        forall|k: int| 0 <= k < report@.len() ==> (old(local)@.opt(report@[k].id) is Some || old(
            remote,
        )@.opt(report@[k].id) is Some),
        forall|id: Seq<char>| (old(local)@.opt(id) is Some || old(remote)@.opt(id) is Some)
            ==> exists|k: int| 0 <= k < report@.len() && report@[k].id == id,
{
    let lsnap = local.snapshot();
    let rsnap = remote.snapshot();
    let ids = union_ids(&lsnap, &rsnap);
    let ghost l0 = old(local)@;
    let ghost r0 = old(remote)@;
    let ghost u = ids.deep_view();
    let mut entries: Vec<ReportEntry> = Vec::new();
    let n = ids.len();
    let mut k: usize = 0;
    while k < n
        invariant
            local@.wf(),
            remote@.wf(),
            remote@.failing == r0.failing,
            n == u.len(),
            u == ids.deep_view(),
            k <= n,
            entries.deep_view().len() == k,
            forall|i: int, j: int| 0 <= i < j < u.len() ==> u[i] != u[j],
            forall|i: int| 0 <= i < u.len() ==> l0.opt(u[i]) is Some || r0.opt(u[i]) is Some,
            forall|j: int| 0 <= j < k ==> entries.deep_view()[j].id == u[j],
            forall|j: int| 0 <= j < k ==> entries.deep_view()[j].outcome == pass_outcome(
                l0,
                r0,
                u[j],
            ),
            forall|j: int| 0 <= j < k ==> id_settled(l0, r0, local@, remote@, u[j]),
            forall|id: Seq<char>| !appears_before(u, k as int, id) ==> local@.opt(id) == l0.opt(
                id,
            ) && remote@.opt(id) == r0.opt(id),
        decreases n - k,
    {
        let ghost lpre = local@;
        let ghost rpre = remote@;
        let ghost entries0 = entries.deep_view();
        let entry = sync_one(local, remote, &ids[k]);
        entries.push(entry);
        proof {
            let idk = u[k as int];
            assert(!appears_before(u, k as int, idk)) by {
                if appears_before(u, k as int, idk) {
                    let j = choose|j: int| 0 <= j < k && u[j] == idk;
                }
            }
            assert(lpre.opt(idk) == l0.opt(idk) && rpre.opt(idk) == r0.opt(idk));
            assert(rpre.fails(idk) == r0.fails(idk));
            assert(entries.deep_view() =~~= entries0.push(entry@));
            assert(id_settled(l0, r0, local@, remote@, idk));
            assert forall|j: int| 0 <= j < k + 1 implies id_settled(
                l0,
                r0,
                local@,
                remote@,
                u[j],
            ) by {
                if j < k {
                    assert(u[j] != idk);
                    assert(id_settled(l0, r0, lpre, rpre, u[j]));
                    if !rpre.fails(idk) {
                        assert(local@.opt(u[j]) == lpre.opt(u[j]));
                        assert(remote@.opt(u[j]) == rpre.opt(u[j]));
                    }
                }
            }
            assert forall|id: Seq<char>| !appears_before(u, k as int + 1, id) implies local@.opt(
                id,
            ) == l0.opt(id) && remote@.opt(id) == r0.opt(id) by {
                assert(!appears_before(u, k as int, id)) by {
                    if appears_before(u, k as int, id) {
                        let j = choose|j: int| 0 <= j < k && u[j] == id;
                        assert(0 <= j < k + 1 && u[j] == id);
                    }
                }
                assert(id != idk) by {
                    if id == idk {
                        assert(0 <= k < k + 1 && u[k as int] == id);
                    }
                }
                if !rpre.fails(idk) {
                    assert(local@.opt(id) == lpre.opt(id));
                    assert(remote@.opt(id) == rpre.opt(id));
                }
            }
        }
        k = k + 1;
    }
    proof {
        assert forall|id: Seq<char>| id_settled(l0, r0, local@, remote@, id) by {
            if u.contains(id) {
                let j = choose|j: int| 0 <= j < u.len() && u[j] == id;
                assert(id_settled(l0, r0, local@, remote@, u[j]));
            } else {
                assert(!appears_before(u, n as int, id)) by {
                    if appears_before(u, n as int, id) {
                        let j = choose|j: int| 0 <= j < n && u[j] == id;
                        assert(u.contains(id)) by {
                            assert(u[j] == id);
                        }
                    }
                }
                assert(local@.opt(id) == l0.opt(id) && remote@.opt(id) == r0.opt(id));
                assert(!has_id(l0.records, id)) by {
                    if has_id(l0.records, id) {
                        let i = crate::store::id_index(l0.records, id);
                        assert(l0.records[i].id == id);
                        assert(u.contains(l0.records[i].id));
                    }
                }
                assert(!has_id(r0.entries, id)) by {
                    if has_id(r0.entries, id) {
                        let i = crate::store::id_index(r0.entries, id);
                        assert(r0.entries[i].id == id);
                        assert(u.contains(r0.entries[i].id));
                    }
                }
            }
        }
        assert forall|id: Seq<char>| (l0.opt(id) is Some || r0.opt(id) is Some) implies exists|j: int|
            0 <= j < entries.deep_view().len() && entries.deep_view()[j].id == id by {
            if l0.opt(id) is Some {
                let i = crate::store::id_index(l0.records, id);
                assert(l0.records[i].id == id);
                assert(u.contains(id));
            } else {
                let i = crate::store::id_index(r0.entries, id);
                assert(r0.entries[i].id == id);
                assert(u.contains(id));
            }
            let j = choose|j: int| 0 <= j < u.len() && u[j] == id;
            assert(entries.deep_view()[j].id == id);
        }
        assert forall|j: int| 0 <= j < entries.deep_view().len() implies entries.deep_view()[
            j
        ].outcome == pass_outcome(l0, r0, entries.deep_view()[j].id) by {
            assert(entries.deep_view()[j].id == u[j]);
        }
        assert forall|j: int, i: int|
            0 <= j < i < entries.deep_view().len() implies entries.deep_view()[j].id
            != entries.deep_view()[i].id by {
            assert(entries.deep_view()[j].id == u[j]);
            assert(entries.deep_view()[i].id == u[i]);
        }
        assert forall|j: int| 0 <= j < entries.deep_view().len() implies (l0.opt(
            entries.deep_view()[j].id,
        ) is Some || r0.opt(entries.deep_view()[j].id) is Some) by {
            assert(entries.deep_view()[j].id == u[j]);
        }
    }
    SyncReport { entries }
}

} // verus!
