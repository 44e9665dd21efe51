use project_sync::remote::RemoteStore;
use project_sync::store::ProjectStore;
use project_sync::store::Record;
use project_sync::sync::sync_pass;
use project_sync::sync::SyncOutcome;

fn remote_record(id: &str, payload: &str, version: u64, updated_at: u64, deleted: bool) -> Record {
    Record {
        id: id.to_string(),
        payload: payload.to_string(),
        version,
        updated_at,
        deleted,
    }
}

#[test]
fn remote_newer_version_wins_conflict() {
    // Local holds A at version 1; the remote holds A at version 2 with a
    // later timestamp and a different payload.
    let mut local = ProjectStore::new();
    local.save("A".to_string(), "local-payload".to_string()).unwrap();
    let mut remote = RemoteStore::new();
    remote.put_record(remote_record("A", "remote-payload", 2, 100, false));

    let report = sync_pass(&mut local, &mut remote);

    assert_eq!(report.entries.len(), 1);
    assert_eq!(report.entries[0].id, "A");
    assert_eq!(report.entries[0].outcome, SyncOutcome::ConflictResolved);
    assert_eq!(local.load(&"A".to_string()).unwrap(), "remote-payload");
    let rec = local.get_record(&"A".to_string()).unwrap();
    assert_eq!(rec.version, 2);
}

#[test]
fn local_only_project_is_pushed() {
    let mut local = ProjectStore::new();
    local.save("B".to_string(), "fresh".to_string()).unwrap();
    let mut remote = RemoteStore::new();

    let report = sync_pass(&mut local, &mut remote);

    assert_eq!(report.entries.len(), 1);
    assert_eq!(report.entries[0].id, "B");
    assert_eq!(report.entries[0].outcome, SyncOutcome::AppliedLocal);
    let snap = remote.snapshot();
    assert_eq!(snap.len(), 1);
    assert_eq!(snap[0].id, "B");
    assert_eq!(snap[0].payload, "fresh");
    assert!(!snap[0].deleted);
}

#[test]
fn remote_only_project_is_pulled() {
    let mut local = ProjectStore::new();
    let mut remote = RemoteStore::new();
    remote.put_record(remote_record("C", "from-cloud", 4, 7, false));

    let report = sync_pass(&mut local, &mut remote);

    assert_eq!(report.entries.len(), 1);
    assert_eq!(report.entries[0].outcome, SyncOutcome::AppliedRemote);
    assert_eq!(local.load(&"C".to_string()).unwrap(), "from-cloud");
    assert_eq!(local.get_record(&"C".to_string()).unwrap().version, 4);
}

#[test]
fn local_delete_propagates_and_purges_tombstone() {
    // C is synced once, then deleted locally while the remote still holds it
    // live. The deletion must reach the remote and the tombstone must go.
    let mut local = ProjectStore::new();
    local.save("C".to_string(), "shared".to_string()).unwrap();
    let mut remote = RemoteStore::new();
    sync_pass(&mut local, &mut remote);
    assert_eq!(remote.snapshot().len(), 1);

    local.delete(&"C".to_string()).unwrap();
    let report = sync_pass(&mut local, &mut remote);

    assert_eq!(report.entries.len(), 1);
    assert_eq!(report.entries[0].id, "C");
    assert_eq!(report.entries[0].outcome, SyncOutcome::AppliedLocal);
    assert_eq!(remote.snapshot().len(), 0);
    assert!(local.get_record(&"C".to_string()).is_none());
}

#[test]
fn remote_tombstone_wins_and_removes_local() {
    let mut local = ProjectStore::new();
    local.save("D".to_string(), "stale".to_string()).unwrap();
    let mut remote = RemoteStore::new();
    remote.put_record(remote_record("D", "stale", 5, 50, true));

    let report = sync_pass(&mut local, &mut remote);

    assert_eq!(report.entries[0].outcome, SyncOutcome::AppliedRemote);
    assert!(local.get_record(&"D".to_string()).is_none());
    assert_eq!(remote.snapshot().len(), 0);
}

#[test]
fn equal_versions_tie_goes_to_local() {
    let mut local = ProjectStore::new();
    local.save("E".to_string(), "local-side".to_string()).unwrap();
    let local_rec = local.get_record(&"E".to_string()).unwrap();
    let mut remote = RemoteStore::new();
    // Same version, same timestamp, different payload: the local side wins
    // deterministically, and equal versions are reported as no conflict.
    remote.put_record(remote_record(
        "E",
        "remote-side",
        local_rec.version,
        local_rec.updated_at,
        false,
    ));

    let report = sync_pass(&mut local, &mut remote);

    assert_eq!(report.entries[0].outcome, SyncOutcome::Unchanged);
    assert_eq!(local.load(&"E".to_string()).unwrap(), "local-side");
    let snap = remote.snapshot();
    assert_eq!(snap[0].payload, "local-side");
}

#[test]
fn second_pass_reports_all_unchanged() {
    // A mixed setup: a local-only project, a remote-only project, and a
    // conflicting one. After one pass settles everything, a second pass with
    // no intervening edits reports every project Unchanged.
    let mut local = ProjectStore::new();
    local.save("a".to_string(), "pa".to_string()).unwrap();
    local.save("b".to_string(), "pb".to_string()).unwrap();
    let mut remote = RemoteStore::new();
    remote.put_record(remote_record("b", "pb-newer", 3, 99, false));
    remote.put_record(remote_record("c", "pc", 1, 5, false));

    sync_pass(&mut local, &mut remote);
    let second = sync_pass(&mut local, &mut remote);

    assert_eq!(second.entries.len(), 3);
    for entry in &second.entries {
        assert_eq!(entry.outcome, SyncOutcome::Unchanged);
    }
}

#[test]
fn timeout_fails_one_project_and_spares_the_rest() {
    // Ten projects are reconciled; the remote times out for exactly one.
    let mut local = ProjectStore::new();
    for i in 0..10u32 {
        let id = format!("proj-{}", i);
        local.save(id, format!("payload-{}", i)).unwrap();
    }
    let mut remote = RemoteStore::new();
    remote.mark_failing("proj-3".to_string());

    let report = sync_pass(&mut local, &mut remote);

    assert_eq!(report.entries.len(), 10);
    let mut failed: usize = 0;
    let mut applied: usize = 0;
    for entry in &report.entries {
        if entry.id == "proj-3" {
            assert_eq!(entry.outcome, SyncOutcome::Failed);
            failed += 1;
        } else {
            assert_eq!(entry.outcome, SyncOutcome::AppliedLocal);
            applied += 1;
        }
    }
    assert_eq!(failed, 1);
    assert_eq!(applied, 9);
    // The failed project never reached the remote; the other nine did.
    assert_eq!(remote.snapshot().len(), 9);
    // The local copy of the failed project is untouched.
    assert_eq!(local.load(&"proj-3".to_string()).unwrap(), "payload-3");
}

#[test]
fn dangling_local_tombstone_is_purged_quietly() {
    // A project deleted locally that the remote never saw: nothing to
    // propagate, the tombstone just goes away.
    let mut local = ProjectStore::new();
    local.save("ghost".to_string(), "p".to_string()).unwrap();
    local.delete(&"ghost".to_string()).unwrap();
    let mut remote = RemoteStore::new();

    let report = sync_pass(&mut local, &mut remote);

    assert_eq!(report.entries.len(), 1);
    assert_eq!(report.entries[0].outcome, SyncOutcome::Unchanged);
    assert!(local.get_record(&"ghost".to_string()).is_none());
    assert_eq!(remote.snapshot().len(), 0);
}

#[test]
fn local_newer_edit_beats_remote_tombstone() {
    // The local side edited the project after the remote tombstoned it: the
    // higher local version wins and the project is revived remotely.
    let mut local = ProjectStore::new();
    local.save("R".to_string(), "v1".to_string()).unwrap();
    local.save("R".to_string(), "v2".to_string()).unwrap();
    local.save("R".to_string(), "v3-kept".to_string()).unwrap();
    let mut remote = RemoteStore::new();
    remote.put_record(remote_record("R", "old", 2, 1, true));

    let report = sync_pass(&mut local, &mut remote);

    assert_eq!(report.entries[0].outcome, SyncOutcome::ConflictResolved);
    assert_eq!(local.load(&"R".to_string()).unwrap(), "v3-kept");
    let snap = remote.snapshot();
    assert_eq!(snap.len(), 1);
    assert_eq!(snap[0].payload, "v3-kept");
    assert!(!snap[0].deleted);
}

#[test]
fn report_order_is_local_then_remote_only() {
    let mut local = ProjectStore::new();
    local.save("l1".to_string(), "a".to_string()).unwrap();
    local.save("l2".to_string(), "b".to_string()).unwrap();
    let mut remote = RemoteStore::new();
    remote.put_record(remote_record("r1", "c", 1, 1, false));

    let report = sync_pass(&mut local, &mut remote);

    let ids: Vec<&str> = report.entries.iter().map(|e| e.id.as_str()).collect();
    assert_eq!(ids, vec!["l1", "l2", "r1"]);
}
