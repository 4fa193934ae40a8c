use datoxidize::{
    upsert_database, FileMetadata, MetadataStore, SyncError, UpsertOutcome,
};

fn record(vault_id: i32, path: &str, file_id: i32, modified_time: i64, file_size: i64) -> FileMetadata {
    FileMetadata {
        full_path: String::from(path),
        root_directory: String::from("vault"),
        absolute_root_dir: String::from("/root"),
        modified_time,
        file_size,
        vault_id,
        file_id,
    }
}

#[test]
fn upsert_inserts_then_updates_then_reports_unchanged() {
    let mut store = MetadataStore::new();
    let first = store.upsert(record(0, "/root/a.txt", 1, 100, 10)).unwrap();
    assert_eq!(first, UpsertOutcome::Inserted);

    let second = store.upsert(record(0, "/root/a.txt", 1, 200, 11)).unwrap();
    assert_eq!(second, UpsertOutcome::Updated);

    let third = store.upsert(record(0, "/root/a.txt", 1, 200, 11)).unwrap();
    assert_eq!(third, UpsertOutcome::Unchanged);
}

#[test]
fn upsert_detects_identity_conflict() {
    let mut store = MetadataStore::new();
    store.upsert(record(0, "/root/a.txt", 1, 100, 10)).unwrap();
    let err = store.upsert(record(0, "/root/b.txt", 1, 100, 10));
    assert_eq!(err, Err(SyncError::IdentityConflict));
}

#[test]
fn sentinel_ids_may_repeat() {
    let mut store = MetadataStore::new();
    store.upsert(record(0, "/root/a.txt", -1, 100, 10)).unwrap();
    let second = store.upsert(record(0, "/root/b.txt", -1, 100, 10)).unwrap();
    assert_eq!(second, UpsertOutcome::Inserted);
}

#[test]
fn same_id_in_different_vaults_is_no_conflict() {
    let mut store = MetadataStore::new();
    store.upsert(record(0, "/root/a.txt", 1, 100, 10)).unwrap();
    let second = store.upsert(record(1, "/other/b.txt", 1, 100, 10)).unwrap();
    assert_eq!(second, UpsertOutcome::Inserted);
}

#[test]
fn find_by_path_and_id() {
    let mut store = MetadataStore::new();
    store.upsert(record(0, "/root/a.txt", 1, 100, 10)).unwrap();
    store.upsert(record(0, "/root/b.txt", 2, 200, 20)).unwrap();

    let by_path = store.find_by_path(0, &String::from("/root/b.txt")).unwrap();
    assert_eq!(by_path.file_id, 2);
    assert!(store.find_by_path(0, &String::from("/root/c.txt")).is_none());
    assert!(store.find_by_path(1, &String::from("/root/a.txt")).is_none());

    let by_id = store.find_by_id(0, 1).unwrap();
    assert_eq!(by_id.full_path, "/root/a.txt");
    assert!(store.find_by_id(0, 3).is_none());
    assert!(store.find_by_id(0, -1).is_none());
}

#[test]
fn max_id_ignores_sentinels_and_other_vaults() {
    let mut store = MetadataStore::new();
    assert_eq!(store.max_id(0), None);
    store.upsert(record(0, "/root/a.txt", 5, 100, 10)).unwrap();
    store.upsert(record(0, "/root/b.txt", 2, 100, 10)).unwrap();
    store.upsert(record(0, "/root/c.txt", -1, 100, 10)).unwrap();
    store.upsert(record(7, "/seven/d.txt", 40, 100, 10)).unwrap();
    assert_eq!(store.max_id(0), Some(5));
    assert_eq!(store.max_id(7), Some(40));
    assert_eq!(store.max_id(3), None);
}

#[test]
fn delete_by_path_removes_only_that_record() {
    let mut store = MetadataStore::new();
    store.upsert(record(0, "/root/a.txt", 1, 100, 10)).unwrap();
    store.upsert(record(0, "/root/b.txt", 2, 200, 20)).unwrap();
    store.delete_by_path(0, &String::from("/root/a.txt")).unwrap();
    assert!(store.find_by_path(0, &String::from("/root/a.txt")).is_none());
    assert!(store.find_by_path(0, &String::from("/root/b.txt")).is_some());
    // deleting an absent record is not an error
    store.delete_by_path(0, &String::from("/root/a.txt")).unwrap();
}

#[test]
fn all_in_vault_keeps_store_order() {
    let mut store = MetadataStore::new();
    store.upsert(record(0, "/root/a.txt", 1, 100, 10)).unwrap();
    store.upsert(record(1, "/one/x.txt", 1, 100, 10)).unwrap();
    store.upsert(record(0, "/root/b.txt", 2, 200, 20)).unwrap();
    let vault0 = store.all_in_vault(0);
    assert_eq!(vault0.len(), 2);
    assert_eq!(vault0[0].full_path, "/root/a.txt");
    assert_eq!(vault0[1].full_path, "/root/b.txt");
}

#[test]
fn upsert_database_applies_all_records() {
    let mut store = MetadataStore::new();
    let files = vec![
        record(0, "/root/a.txt", 1, 100, 10),
        record(0, "/root/b.txt", 2, 200, 20),
        record(0, "/root/a.txt", 1, 150, 11),
    ];
    upsert_database(&mut store, files).unwrap();
    let a = store.find_by_path(0, &String::from("/root/a.txt")).unwrap();
    assert_eq!(a.modified_time, 150);
    assert_eq!(a.file_size, 11);
    let b = store.find_by_path(0, &String::from("/root/b.txt")).unwrap();
    assert_eq!(b.modified_time, 200);
}

#[test]
fn upsert_database_stops_at_conflict() {
    let mut store = MetadataStore::new();
    let files = vec![
        record(0, "/root/a.txt", 1, 100, 10),
        record(0, "/root/b.txt", 1, 200, 20),
    ];
    let err = upsert_database(&mut store, files);
    assert_eq!(err, Err(SyncError::IdentityConflict));
    // the record before the conflicting one stays applied
    assert!(store.find_by_path(0, &String::from("/root/a.txt")).is_some());
}
