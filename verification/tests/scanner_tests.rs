use datoxidize::{
    assign_file_ids, build_file_metadata_for_vault, build_metadata_blob,
    get_file_metadata_from_path, load_file_metadata, map_metadata_query_to_blob,
    remove_old_entries_from_db, scan_vault, AllocationRole, DiskEntry, FileMetadata,
    MetadataRow, MetadataStore, UpsertOutcome,
};

fn entry(path: &str, modified_time: i64, file_size: i64) -> DiskEntry {
    DiskEntry { path: String::from(path), modified_time, file_size }
}

fn stored(vault_id: i32, path: &str, file_id: i32, modified_time: i64) -> FileMetadata {
    FileMetadata {
        full_path: String::from(path),
        root_directory: String::from("vault0"),
        absolute_root_dir: String::from("/root"),
        modified_time,
        file_size: 10,
        vault_id,
        file_id,
    }
}

#[test]
fn allocation_is_monotonic_and_distinct() {
    // the authoritative side allocates past the greatest assigned id
    let mut store = MetadataStore::new();
    store.upsert(stored(0, "/root/old.txt", 5, 100)).unwrap();
    let disk = vec![
        entry("/root/n1.txt", 1, 1),
        entry("/root/n2.txt", 2, 2),
        entry("/root/n3.txt", 3, 3),
    ];
    let ids = assign_file_ids(&store, 0, &disk, AllocationRole::Authoritative);
    let got: Vec<i32> = ids.iter().map(|p| p.0).collect();
    assert_eq!(got, vec![6, 7, 8]);
}

#[test]
fn allocation_starts_at_zero_for_an_empty_vault() {
    let store = MetadataStore::new();
    let disk = vec![entry("/root/a.txt", 1, 1), entry("/root/b.txt", 2, 2)];
    let ids = assign_file_ids(&store, 0, &disk, AllocationRole::Authoritative);
    let got: Vec<i32> = ids.iter().map(|p| p.0).collect();
    assert_eq!(got, vec![0, 1]);
}

#[test]
fn non_authoritative_scan_uses_the_sentinel() {
    let mut store = MetadataStore::new();
    store.upsert(stored(0, "/root/known.txt", 4, 100)).unwrap();
    let disk = vec![entry("/root/known.txt", 1, 1), entry("/root/new.txt", 2, 2)];
    let ids = assign_file_ids(&store, 0, &disk, AllocationRole::NonAuthoritative);
    let got: Vec<i32> = ids.iter().map(|p| p.0).collect();
    assert_eq!(got, vec![4, -1]);
}

#[test]
fn stale_entries_are_pruned() {
    let mut store = MetadataStore::new();
    store.upsert(stored(0, "/root/kept.txt", 1, 100)).unwrap();
    store.upsert(stored(0, "/root/gone.txt", 2, 100)).unwrap();
    store.upsert(stored(9, "/nine/other.txt", 1, 100)).unwrap();
    let disk_paths = vec![String::from("/root/kept.txt")];
    remove_old_entries_from_db(&mut store, 0, &disk_paths).unwrap();
    assert!(store.find_by_path(0, &String::from("/root/kept.txt")).is_some());
    assert!(store.find_by_path(0, &String::from("/root/gone.txt")).is_none());
    // other vaults are untouched
    assert!(store.find_by_path(9, &String::from("/nine/other.txt")).is_some());
}

#[test]
fn scan_vault_builds_snapshot_and_fills_store() {
    let mut store = MetadataStore::new();
    let disk = vec![entry("/root/a.txt", 100, 10), entry("/root/b.txt", 200, 20)];
    let snapshot = scan_vault(
        &mut store,
        0,
        String::from("vault0"),
        String::from("/root"),
        &disk,
        AllocationRole::Authoritative,
    )
    .unwrap();
    assert_eq!(snapshot.vault_id, 0);
    assert_eq!(snapshot.files.len(), 2);
    assert_eq!(snapshot.files[0].full_path, "/root/a.txt");
    assert_eq!(snapshot.files[0].file_id, 0);
    assert_eq!(snapshot.files[0].modified_time, 100);
    assert_eq!(snapshot.files[1].file_id, 1);
    assert_eq!(store.max_id(0), Some(1));
}

#[test]
fn rescan_without_changes_leaves_store_unchanged() {
    // the mtime-restore property: after materializing, a rescan sees nothing new
    let mut store = MetadataStore::new();
    let disk = vec![entry("/root/a.txt", 100, 10)];
    scan_vault(
        &mut store,
        0,
        String::from("vault0"),
        String::from("/root"),
        &disk,
        AllocationRole::Authoritative,
    )
    .unwrap();
    let before = store.all_in_vault(0);

    // the same record arrives again: the store reports nothing to persist
    let outcome = store
        .upsert(FileMetadata {
            full_path: String::from("/root/a.txt"),
            root_directory: String::from("vault0"),
            absolute_root_dir: String::from("/root"),
            modified_time: 100,
            file_size: 10,
            vault_id: 0,
            file_id: 0,
        })
        .unwrap();
    assert_eq!(outcome, UpsertOutcome::Unchanged);

    scan_vault(
        &mut store,
        0,
        String::from("vault0"),
        String::from("/root"),
        &disk,
        AllocationRole::Authoritative,
    )
    .unwrap();
    let after = store.all_in_vault(0);
    assert_eq!(before.len(), after.len());
    assert_eq!(before[0].full_path, after[0].full_path);
    assert_eq!(before[0].file_id, after[0].file_id);
    assert_eq!(before[0].modified_time, after[0].modified_time);
    assert_eq!(before[0].file_size, after[0].file_size);
}

#[test]
fn deleted_then_recreated_file_gets_a_fresh_record() {
    let mut store = MetadataStore::new();
    let disk1 = vec![entry("/root/a.txt", 100, 10)];
    scan_vault(
        &mut store,
        0,
        String::from("vault0"),
        String::from("/root"),
        &disk1,
        AllocationRole::Authoritative,
    )
    .unwrap();
    // the file disappears, another appears
    let disk2 = vec![entry("/root/b.txt", 300, 30)];
    let snapshot = scan_vault(
        &mut store,
        0,
        String::from("vault0"),
        String::from("/root"),
        &disk2,
        AllocationRole::Authoritative,
    )
    .unwrap();
    assert!(store.find_by_path(0, &String::from("/root/a.txt")).is_none());
    // pruning runs before allocation, so the recreated vault starts over
    assert_eq!(snapshot.files[0].file_id, 0);
    assert_eq!(snapshot.files[0].modified_time, 300);
}

#[test]
fn metadata_records_built_from_disk_stat() {
    let entries = vec![(3, entry("/root/x.txt", 100, 7))];
    let files = get_file_metadata_from_path(
        entries,
        String::from("vault0"),
        String::from("/root"),
        0,
    );
    assert_eq!(files.len(), 1);
    assert_eq!(files[0].full_path, "/root/x.txt");
    assert_eq!(files[0].root_directory, "vault0");
    assert_eq!(files[0].absolute_root_dir, "/root");
    assert_eq!(files[0].modified_time, 100);
    assert_eq!(files[0].file_size, 7);
    assert_eq!(files[0].vault_id, 0);
    assert_eq!(files[0].file_id, 3);
}

fn row(file_id: i32, path: &str, modified_time: i64) -> MetadataRow {
    MetadataRow {
        file_id,
        vault_id: 0,
        file_path: String::from(path),
        root_directory: String::from("vault0"),
        modified_time,
        file_size: 10,
    }
}

#[test]
fn rows_map_back_to_records() {
    let rows = vec![row(1, "/root/a.txt", 100), row(2, "/root/b.txt", 200)];
    let files = map_metadata_query_to_blob(rows, &String::from("/root"));
    assert_eq!(files.len(), 2);
    assert_eq!(files[1].file_id, 2);
    assert_eq!(files[1].absolute_root_dir, "/root");
}

#[test]
fn blob_built_per_vault() {
    let blob = build_metadata_blob(vec![
        (0, String::from("/root"), vec![row(1, "/root/a.txt", 100)]),
        (1, String::from("/one"), vec![]),
    ]);
    assert_eq!(blob.vaults.len(), 2);
    assert_eq!(blob.vaults[0].vault_id, 0);
    assert_eq!(blob.vaults[0].files.len(), 1);
    assert_eq!(blob.vaults[1].vault_id, 1);
    assert_eq!(blob.vaults[1].files.len(), 0);
}

#[test]
fn sentinel_records_get_provisional_ids_past_latest() {
    let rows = vec![
        stored(0, "/root/a.txt", -1, 100),
        stored(0, "/root/b.txt", 3, 200),
        stored(0, "/root/c.txt", -1, 300),
    ];
    let (last, files) = build_file_metadata_for_vault(0, rows, 7, String::from("/root"));
    assert_eq!(last, 9);
    assert_eq!(files[0].file_id, 8);
    assert_eq!(files[1].file_id, 3);
    assert_eq!(files[2].file_id, 9);
}

#[test]
fn load_file_metadata_numbers_sentinels_across_vaults() {
    let mut store = MetadataStore::new();
    store.upsert(stored(0, "/root/a.txt", -1, 100)).unwrap();
    store.upsert(stored(0, "/root/b.txt", 2, 200)).unwrap();
    store.upsert(stored(1, "/one/c.txt", -1, 300)).unwrap();
    let vaults = vec![(0, String::from("/root")), (1, String::from("/one"))];
    let (last, blob) = load_file_metadata(&store, &vaults, 10);
    assert_eq!(last, 12);
    assert_eq!(blob.vaults.len(), 2);
    assert_eq!(blob.vaults[0].files[0].file_id, 11);
    assert_eq!(blob.vaults[0].files[1].file_id, 2);
    assert_eq!(blob.vaults[1].files[0].file_id, 12);
}
