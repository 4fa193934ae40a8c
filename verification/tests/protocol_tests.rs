use datoxidize::{
    convert_root_dirs_of_metadata, filter_assigned_records, get_metadata_diff,
    get_vault_config_hashmap, insert_new_metadata_into_db, save_remote_files_to_disk, scan_vault,
    AllocationRole, DiskEntry, FileMetadata, MetadataBlob, MetadataStore, RemoteFile, SyncError,
    SyncPhase, VaultConfig, VaultConfigMap,
};

fn config_for(root: &str) -> VaultConfigMap {
    get_vault_config_hashmap(vec![VaultConfig {
        full_path: String::from(root),
        vault_id: 0,
        sync_frequency: 5,
        vault_root: String::from("vault0"),
    }])
    .unwrap()
}

fn scan(store: &mut MetadataStore, root: &str, disk: &Vec<DiskEntry>, role: AllocationRole) -> MetadataBlob {
    let snapshot = scan_vault(
        store,
        0,
        String::from("vault0"),
        String::from(root),
        disk,
        role,
    )
    .unwrap();
    MetadataBlob { vaults: vec![snapshot] }
}

#[test]
fn end_to_end_first_file_reaches_the_server() {
    // client holds notes.txt (mtime 1000, unassigned); the server holds nothing
    let client_root = "/home/c/vault0";
    let server_root = "/srv/vault0";
    let client_cfg = config_for(client_root);
    let server_cfg = config_for(server_root);

    let mut client_store = MetadataStore::new();
    let mut server_store = MetadataStore::new();
    let client_disk = vec![DiskEntry {
        path: String::from("/home/c/vault0/notes.txt"),
        modified_time: 1000,
        file_size: 5,
    }];
    let mut server_disk: Vec<DiskEntry> = vec![];

    // first run: scan, diff, push, materialize
    let client_blob = scan(&mut client_store, client_root, &client_disk, AllocationRole::NonAuthoritative);
    let server_blob = scan(&mut server_store, server_root, &server_disk, AllocationRole::Authoritative);

    let diff = get_metadata_diff(&client_blob, &server_blob, &client_cfg, &server_cfg).unwrap();
    assert_eq!(diff.new_for_client[0].files.len(), 0);
    assert_eq!(diff.new_for_server[0].files.len(), 1);
    assert_eq!(diff.new_for_server[0].files[0].full_path, "/home/c/vault0/notes.txt");
    assert_eq!(diff.new_for_server[0].files[0].file_id, -1);

    // the server takes the pushed diff under its own roots and assigns id 0
    let mut pushed = MetadataBlob { vaults: diff.new_for_server.clone() };
    convert_root_dirs_of_metadata(&mut pushed, &vec![(0, String::from(server_root))]).unwrap();
    insert_new_metadata_into_db(&mut server_store, &pushed).unwrap();
    let on_server = server_store.find_by_path(0, &String::from("/srv/vault0/notes.txt")).unwrap();
    assert_eq!(on_server.file_id, 0);
    assert_eq!(on_server.modified_time, 1000);

    // the client pushes the file body; the server materializes it, restoring
    // the declared modification time
    let body = RemoteFile::new(
        String::from("/home/c/vault0/notes.txt"),
        String::from(client_root),
        String::from("vault0"),
        vec![104, 101, 108, 108, 111],
        0,
        -1,
        1000,
    );
    let plan = save_remote_files_to_disk(
        &vec![body],
        &vec![(0, String::from(server_root))],
    )
    .unwrap();
    assert_eq!(plan.len(), 1);
    assert_eq!(plan[0].path, "/srv/vault0/notes.txt");
    assert_eq!(plan[0].modified_time, 1000);
    for action in plan.iter() {
        server_disk.push(DiskEntry {
            path: action.path.clone(),
            modified_time: action.modified_time,
            file_size: action.contents.len() as i64,
        });
    }

    // the client learns the authoritative identifier from the server's state
    let mut server_view = MetadataBlob {
        vaults: vec![datoxidize::VaultMetadata { files: server_store.all_in_vault(0), vault_id: 0 }],
    };
    convert_root_dirs_of_metadata(&mut server_view, &vec![(0, String::from(client_root))]).unwrap();
    datoxidize::insert_server_metadata_into_client_db(&mut client_store, &server_view).unwrap();
    let on_client = client_store.find_by_path(0, &String::from("/home/c/vault0/notes.txt")).unwrap();
    assert_eq!(on_client.file_id, 0);

    // second run on both sides: nothing remains to move in either direction
    let client_blob2 = scan(&mut client_store, client_root, &client_disk, AllocationRole::NonAuthoritative);
    let server_blob2 = scan(&mut server_store, server_root, &server_disk, AllocationRole::Authoritative);
    let diff2 = get_metadata_diff(&client_blob2, &server_blob2, &client_cfg, &server_cfg).unwrap();
    assert_eq!(diff2.new_for_client[0].files.len(), 0);
    assert_eq!(diff2.new_for_server[0].files.len(), 0);
}

#[test]
fn protocol_twice_with_no_changes_is_idempotent() {
    let client_root = "/home/c/vault0";
    let server_root = "/srv/vault0";
    let client_cfg = config_for(client_root);
    let server_cfg = config_for(server_root);

    let mut client_store = MetadataStore::new();
    let mut server_store = MetadataStore::new();
    let client_disk = vec![
        DiskEntry { path: String::from("/home/c/vault0/a.txt"), modified_time: 100, file_size: 1 },
        DiskEntry { path: String::from("/home/c/vault0/b.txt"), modified_time: 900, file_size: 2 },
    ];
    let server_disk = vec![
        DiskEntry { path: String::from("/srv/vault0/a.txt"), modified_time: 100, file_size: 1 },
        DiskEntry { path: String::from("/srv/vault0/b.txt"), modified_time: 900, file_size: 2 },
    ];
    let client_blob = scan(&mut client_store, client_root, &client_disk, AllocationRole::NonAuthoritative);
    let server_blob = scan(&mut server_store, server_root, &server_disk, AllocationRole::Authoritative);

    // the trees already agree, so both runs ask for nothing
    let first = get_metadata_diff(&client_blob, &server_blob, &client_cfg, &server_cfg).unwrap();
    assert_eq!(first.new_for_client[0].files.len(), 0);
    assert_eq!(first.new_for_server[0].files.len(), 0);

    let client_blob2 = scan(&mut client_store, client_root, &client_disk, AllocationRole::NonAuthoritative);
    let server_blob2 = scan(&mut server_store, server_root, &server_disk, AllocationRole::Authoritative);
    let second = get_metadata_diff(&client_blob2, &server_blob2, &client_cfg, &server_cfg).unwrap();
    assert_eq!(second.new_for_client[0].files.len(), 0);
    assert_eq!(second.new_for_server[0].files.len(), 0);
}

#[test]
fn is_client_more_recent_than_server() {
    let newer = RemoteFile::new_empty(String::from("/c/f.txt"), String::from("vault0"), 0, 1);
    // a missing local copy always yields to the sender
    assert!(datoxidize::is_client_more_recent_than_server(&newer, None));
    // modified_time of a new_empty file is zero
    assert!(!datoxidize::is_client_more_recent_than_server(&newer, Some(0)));
    assert!(datoxidize::is_client_more_recent_than_server(&newer, Some(-5)));
}

#[test]
fn phases_advance_in_protocol_order() {
    let mut phase = SyncPhase::FetchRemoteSnapshot;
    phase = phase.next();
    assert_eq!(phase, SyncPhase::LoadLocalSnapshot);
    phase = phase.next();
    assert_eq!(phase, SyncPhase::ComputeDiff);
    phase = phase.next();
    assert_eq!(phase, SyncPhase::PushServerDiff);
    phase = phase.next();
    assert_eq!(phase, SyncPhase::RequestNeededFiles);
    phase = phase.next();
    assert_eq!(phase, SyncPhase::MaterializeReceivedFiles);
    phase = phase.next();
    assert_eq!(phase, SyncPhase::PushLocalFiles);
    phase = phase.next();
    assert_eq!(phase, SyncPhase::Done);
    assert_eq!(phase.next(), SyncPhase::Done);
}

#[test]
fn materialization_plan_fails_without_a_root() {
    let body = RemoteFile::new(
        String::from("/srv/vault3/f.txt"),
        String::from("/srv/vault3"),
        String::from("vault3"),
        vec![1],
        3,
        0,
        50,
    );
    let err = save_remote_files_to_disk(&vec![body], &vec![(0, String::from("/home/c/vault0"))]);
    assert!(matches!(err, Err(SyncError::PathMismatch)));
}

#[test]
fn push_assigns_ids_to_sentinel_records_in_order() {
    let mut server_store = MetadataStore::new();
    let pushed = MetadataBlob {
        vaults: vec![datoxidize::VaultMetadata {
            files: vec![
                FileMetadata {
                    full_path: String::from("/srv/vault0/a.txt"),
                    root_directory: String::from("vault0"),
                    absolute_root_dir: String::from("/srv/vault0"),
                    modified_time: 10,
                    file_size: 1,
                    vault_id: 0,
                    file_id: -1,
                },
                FileMetadata {
                    full_path: String::from("/srv/vault0/b.txt"),
                    root_directory: String::from("vault0"),
                    absolute_root_dir: String::from("/srv/vault0"),
                    modified_time: 20,
                    file_size: 2,
                    vault_id: 0,
                    file_id: -1,
                },
            ],
            vault_id: 0,
        }],
    };
    insert_new_metadata_into_db(&mut server_store, &pushed).unwrap();
    assert_eq!(server_store.find_by_path(0, &String::from("/srv/vault0/a.txt")).unwrap().file_id, 0);
    assert_eq!(server_store.find_by_path(0, &String::from("/srv/vault0/b.txt")).unwrap().file_id, 1);
}

#[test]
fn filter_assigned_records_drops_sentinels() {
    let files = vec![
        FileMetadata {
            full_path: String::from("/srv/vault0/a.txt"),
            root_directory: String::from("vault0"),
            absolute_root_dir: String::from("/srv/vault0"),
            modified_time: 10,
            file_size: 1,
            vault_id: 0,
            file_id: 4,
        },
        FileMetadata {
            full_path: String::from("/srv/vault0/b.txt"),
            root_directory: String::from("vault0"),
            absolute_root_dir: String::from("/srv/vault0"),
            modified_time: 20,
            file_size: 2,
            vault_id: 0,
            file_id: -1,
        },
    ];
    let kept = filter_assigned_records(&files);
    assert_eq!(kept.len(), 1);
    assert_eq!(kept[0].full_path, "/srv/vault0/a.txt");
}

#[test]
fn mixed_round_converges_in_one_exchange() {
    // each side has one newer copy, one older copy, and one file the other
    // side has never seen; after one exchange the diff is empty both ways
    let client_root = "/home/c/vault0";
    let server_root = "/srv/vault0";
    let client_cfg = config_for(client_root);
    let server_cfg = config_for(server_root);

    let mut client_store = MetadataStore::new();
    let mut server_store = MetadataStore::new();
    let mut client_disk = vec![
        DiskEntry { path: String::from("/home/c/vault0/both_newer_here.txt"), modified_time: 900, file_size: 1 },
        DiskEntry { path: String::from("/home/c/vault0/both_newer_there.txt"), modified_time: 100, file_size: 1 },
        DiskEntry { path: String::from("/home/c/vault0/only_here.txt"), modified_time: 500, file_size: 1 },
    ];
    let mut server_disk = vec![
        DiskEntry { path: String::from("/srv/vault0/both_newer_here.txt"), modified_time: 100, file_size: 1 },
        DiskEntry { path: String::from("/srv/vault0/both_newer_there.txt"), modified_time: 900, file_size: 1 },
        DiskEntry { path: String::from("/srv/vault0/only_there.txt"), modified_time: 700, file_size: 1 },
    ];
    let client_blob = scan(&mut client_store, client_root, &client_disk, AllocationRole::NonAuthoritative);
    let server_blob = scan(&mut server_store, server_root, &server_disk, AllocationRole::Authoritative);

    let diff = get_metadata_diff(&client_blob, &server_blob, &client_cfg, &server_cfg).unwrap();
    assert_eq!(diff.new_for_server[0].files.len(), 2);
    assert_eq!(diff.new_for_client[0].files.len(), 2);

    // the server takes what it needs and assigns identifiers
    let mut pushed = MetadataBlob { vaults: diff.new_for_server.clone() };
    convert_root_dirs_of_metadata(&mut pushed, &vec![(0, String::from(server_root))]).unwrap();
    insert_new_metadata_into_db(&mut server_store, &pushed).unwrap();
    for vault in pushed.vaults.iter() {
        for rec in vault.files.iter() {
            let mut seen = false;
            for entry in server_disk.iter_mut() {
                if entry.path == rec.full_path {
                    entry.modified_time = rec.modified_time;
                    seen = true;
                }
            }
            if !seen {
                server_disk.push(DiskEntry {
                    path: rec.full_path.clone(),
                    modified_time: rec.modified_time,
                    file_size: rec.file_size,
                });
            }
        }
    }

    // the client materializes what it needs
    let mut fetched = MetadataBlob { vaults: diff.new_for_client.clone() };
    convert_root_dirs_of_metadata(&mut fetched, &vec![(0, String::from(client_root))]).unwrap();
    datoxidize::insert_server_metadata_into_client_db(&mut client_store, &fetched).unwrap();
    for vault in fetched.vaults.iter() {
        for rec in vault.files.iter() {
            let mut seen = false;
            for entry in client_disk.iter_mut() {
                if entry.path == rec.full_path {
                    entry.modified_time = rec.modified_time;
                    seen = true;
                }
            }
            if !seen {
                client_disk.push(DiskEntry {
                    path: rec.full_path.clone(),
                    modified_time: rec.modified_time,
                    file_size: rec.file_size,
                });
            }
        }
    }

    // the client adopts the authoritative identifiers
    let mut server_view = MetadataBlob {
        vaults: vec![datoxidize::VaultMetadata { files: server_store.all_in_vault(0), vault_id: 0 }],
    };
    convert_root_dirs_of_metadata(&mut server_view, &vec![(0, String::from(client_root))]).unwrap();
    datoxidize::insert_server_metadata_into_client_db(&mut client_store, &server_view).unwrap();

    // second run: both directions are empty
    let client_blob2 = scan(&mut client_store, client_root, &client_disk, AllocationRole::NonAuthoritative);
    let server_blob2 = scan(&mut server_store, server_root, &server_disk, AllocationRole::Authoritative);
    let diff2 = get_metadata_diff(&client_blob2, &server_blob2, &client_cfg, &server_cfg).unwrap();
    assert_eq!(diff2.new_for_client[0].files.len(), 0);
    assert_eq!(diff2.new_for_server[0].files.len(), 0);
}
