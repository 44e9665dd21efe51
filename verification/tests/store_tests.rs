use project_sync::store::ProjectStore;
use project_sync::store::StoreError;

#[test]
fn save_then_load_returns_payload() {
    let mut store = ProjectStore::new();
    let v = store.save("alpha".to_string(), "payload-1".to_string()).unwrap();
    assert_eq!(v, 1);
    let loaded = store.load(&"alpha".to_string()).unwrap();
    assert_eq!(loaded, "payload-1");
}

#[test]
fn save_overwrites_and_load_sees_latest() {
    let mut store = ProjectStore::new();
    store.save("alpha".to_string(), "first".to_string()).unwrap();
    store.save("alpha".to_string(), "second".to_string()).unwrap();
    assert_eq!(store.load(&"alpha".to_string()).unwrap(), "second");
}

#[test]
fn save_empty_id_is_invalid_argument() {
    let mut store = ProjectStore::new();
    let r = store.save("".to_string(), "anything".to_string());
    assert_eq!(r, Err(StoreError::InvalidArgument));
    assert_eq!(store.list().len(), 0);
}

#[test]
fn save_increments_version_by_one() {
    let mut store = ProjectStore::new();
    assert_eq!(store.save("p".to_string(), "a".to_string()).unwrap(), 1);
    assert_eq!(store.save("p".to_string(), "b".to_string()).unwrap(), 2);
    assert_eq!(store.save("p".to_string(), "c".to_string()).unwrap(), 3);
}

#[test]
fn load_missing_is_not_found() {
    let store = ProjectStore::new();
    assert_eq!(store.load(&"ghost".to_string()), Err(StoreError::NotFound));
}

#[test]
fn delete_then_load_is_not_found() {
    let mut store = ProjectStore::new();
    store.save("doomed".to_string(), "bits".to_string()).unwrap();
    store.delete(&"doomed".to_string()).unwrap();
    assert_eq!(store.load(&"doomed".to_string()), Err(StoreError::NotFound));
}

#[test]
fn delete_missing_is_not_found() {
    let mut store = ProjectStore::new();
    assert_eq!(store.delete(&"absent".to_string()), Err(StoreError::NotFound));
}

#[test]
fn delete_twice_is_not_found() {
    let mut store = ProjectStore::new();
    store.save("once".to_string(), "bits".to_string()).unwrap();
    store.delete(&"once".to_string()).unwrap();
    assert_eq!(store.delete(&"once".to_string()), Err(StoreError::NotFound));
}

#[test]
fn list_excludes_tombstoned_and_unknown_ids() {
    let mut store = ProjectStore::new();
    store.save("keep".to_string(), "a".to_string()).unwrap();
    store.save("drop".to_string(), "b".to_string()).unwrap();
    store.delete(&"drop".to_string()).unwrap();
    let ids = store.list();
    assert_eq!(ids, vec!["keep".to_string()]);
}

#[test]
fn list_keeps_insertion_order() {
    let mut store = ProjectStore::new();
    store.save("one".to_string(), "1".to_string()).unwrap();
    store.save("two".to_string(), "2".to_string()).unwrap();
    store.save("three".to_string(), "3".to_string()).unwrap();
    store.save("two".to_string(), "2b".to_string()).unwrap();
    let ids = store.list();
    assert_eq!(ids, vec!["one".to_string(), "two".to_string(), "three".to_string()]);
}

#[test]
fn revive_after_delete_continues_version() {
    let mut store = ProjectStore::new();
    assert_eq!(store.save("phoenix".to_string(), "v1".to_string()).unwrap(), 1);
    store.delete(&"phoenix".to_string()).unwrap();
    // The tombstone bumped the version to 2; reviving bumps it again.
    assert_eq!(store.save("phoenix".to_string(), "v3".to_string()).unwrap(), 3);
    assert_eq!(store.load(&"phoenix".to_string()).unwrap(), "v3");
}

#[test]
fn snapshot_includes_tombstones() {
    let mut store = ProjectStore::new();
    store.save("live".to_string(), "a".to_string()).unwrap();
    store.save("dead".to_string(), "b".to_string()).unwrap();
    store.delete(&"dead".to_string()).unwrap();
    let snap = store.snapshot();
    assert_eq!(snap.len(), 2);
    let dead = snap.iter().find(|r| r.id == "dead").unwrap();
    assert!(dead.deleted);
    let live = snap.iter().find(|r| r.id == "live").unwrap();
    assert!(!live.deleted);
    assert_eq!(live.payload, "a");
}

#[test]
fn live_payloads_exports_only_live_records() {
    let mut store = ProjectStore::new();
    store.save("a".to_string(), "pa".to_string()).unwrap();
    store.save("b".to_string(), "pb".to_string()).unwrap();
    store.delete(&"a".to_string()).unwrap();
    let out = store.live_payloads();
    assert_eq!(out, vec![("b".to_string(), "pb".to_string())]);
}

#[test]
fn get_record_reports_tombstone_state() {
    let mut store = ProjectStore::new();
    store.save("x".to_string(), "p".to_string()).unwrap();
    store.delete(&"x".to_string()).unwrap();
    let rec = store.get_record(&"x".to_string()).unwrap();
    assert!(rec.deleted);
    assert_eq!(rec.version, 2);
    assert!(store.get_record(&"y".to_string()).is_none());
}

#[test]
fn failed_save_leaves_store_unchanged() {
    let mut store = ProjectStore::new();
    store.save("a".to_string(), "p".to_string()).unwrap();
    let before = store.snapshot();
    let _ = store.save("".to_string(), "q".to_string());
    let after = store.snapshot();
    assert_eq!(before.len(), after.len());
    assert_eq!(before[0].id, after[0].id);
    assert_eq!(before[0].payload, after[0].payload);
    assert_eq!(before[0].version, after[0].version);
}
