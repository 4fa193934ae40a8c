use datoxidize::{
    get_metadata_diff, get_vault_config_hashmap, FileMetadata, MetadataBlob, SyncError,
    VaultConfig, VaultConfigMap, VaultMetadata,
};

fn record(path: &str, root: &str, modified_time: i64, file_id: i32) -> FileMetadata {
    FileMetadata {
        full_path: String::from(path),
        root_directory: String::from("sync_dir"),
        absolute_root_dir: String::from(root),
        modified_time,
        file_size: 10,
        vault_id: 0,
        file_id,
    }
}

fn config_for(root: &str) -> VaultConfigMap {
    get_vault_config_hashmap(vec![VaultConfig {
        full_path: String::from(root),
        vault_id: 0,
        sync_frequency: 5,
        vault_root: String::from("sync_dir"),
    }])
    .unwrap()
}

#[test]
fn test_check_metadata_difference() {
    let client_mdata = VaultMetadata {
        files: vec![
            record("/home/sync_dir/nested/memes1.txt", "/home/sync_dir/", 1_000_000_000_000, 1),
            record("/home/sync_dir/nested/memes2.txt", "/home/sync_dir/", 2_000_000_000_000, -1),
        ],
        vault_id: 0,
    };

    let server_mdata = VaultMetadata {
        files: vec![
            record(
                "/other_home/sync_dir/nested/memes1.txt",
                "/other_home/sync_dir/",
                1_000_000_000_001,
                1,
            ),
            record(
                "/other_home/sync_dir/nested/memes3.txt",
                "/other_home/sync_dir/",
                2_000_000_000_000,
                2,
            ),
        ],
        vault_id: 0,
    };

    let client_metadata_blob = MetadataBlob { vaults: vec![client_mdata] };
    let server_metadata_blob = MetadataBlob { vaults: vec![server_mdata] };

    let client_cfg = config_for("/home/sync_dir/");
    let server_cfg = config_for("/other_home/sync_dir/");

    let diff = get_metadata_diff(
        &client_metadata_blob,
        &server_metadata_blob,
        &client_cfg,
        &server_cfg,
    )
    .unwrap();
    let (client, server) = diff.get_pretty_string();

    assert!(client.contains("memes1.txt"));
    assert!(client.contains("memes3.txt"));
    assert!(server.contains("memes2.txt"));
}

#[test]
fn newer_wins_between_matching_paths() {
    // client copy at time 100, server copy of the same logical file at 200
    let client_blob = MetadataBlob {
        vaults: vec![VaultMetadata {
            files: vec![record("/home/c/vault0/f.txt", "/home/c/vault0", 100, 1)],
            vault_id: 0,
        }],
    };
    let server_blob = MetadataBlob {
        vaults: vec![VaultMetadata {
            files: vec![record("/srv/vault0/f.txt", "/srv/vault0", 200, 1)],
            vault_id: 0,
        }],
    };
    let diff = get_metadata_diff(
        &client_blob,
        &server_blob,
        &config_for("/home/c/vault0"),
        &config_for("/srv/vault0"),
    )
    .unwrap();
    assert_eq!(diff.new_for_client[0].files.len(), 1);
    assert_eq!(diff.new_for_client[0].files[0].full_path, "/srv/vault0/f.txt");
    assert_eq!(diff.new_for_client[0].files[0].modified_time, 200);
    assert_eq!(diff.new_for_server[0].files.len(), 0);
}

#[test]
fn equal_times_are_already_synchronized() {
    let client_blob = MetadataBlob {
        vaults: vec![VaultMetadata {
            files: vec![record("/home/c/vault0/f.txt", "/home/c/vault0", 500, 1)],
            vault_id: 0,
        }],
    };
    let server_blob = MetadataBlob {
        vaults: vec![VaultMetadata {
            files: vec![record("/srv/vault0/f.txt", "/srv/vault0", 500, 1)],
            vault_id: 0,
        }],
    };
    let diff = get_metadata_diff(
        &client_blob,
        &server_blob,
        &config_for("/home/c/vault0"),
        &config_for("/srv/vault0"),
    )
    .unwrap();
    assert_eq!(diff.new_for_client[0].files.len(), 0);
    assert_eq!(diff.new_for_server[0].files.len(), 0);
}

#[test]
fn untracked_client_file_needed_by_server() {
    // a client file with the sentinel id and no server counterpart
    let client_blob = MetadataBlob {
        vaults: vec![VaultMetadata {
            files: vec![record("/home/c/vault0/new.txt", "/home/c/vault0", 1000, -1)],
            vault_id: 0,
        }],
    };
    let server_blob = MetadataBlob { vaults: vec![VaultMetadata { files: vec![], vault_id: 0 }] };
    let diff = get_metadata_diff(
        &client_blob,
        &server_blob,
        &config_for("/home/c/vault0"),
        &config_for("/srv/vault0"),
    )
    .unwrap();
    assert_eq!(diff.new_for_server[0].files.len(), 1);
    assert_eq!(diff.new_for_server[0].files[0].full_path, "/home/c/vault0/new.txt");
    assert_eq!(diff.new_for_server[0].files[0].file_id, -1);
    assert_eq!(diff.new_for_client[0].files.len(), 0);
}

#[test]
fn diff_symmetry_on_swapped_roles() {
    let a_files = vec![
        record("/a/root/one.txt", "/a/root", 100, 1),
        record("/a/root/two.txt", "/a/root", 900, 2),
    ];
    let b_files = vec![
        record("/b/root/one.txt", "/b/root", 300, 1),
        record("/b/root/three.txt", "/b/root", 50, 3),
    ];
    let blob_a = MetadataBlob { vaults: vec![VaultMetadata { files: a_files, vault_id: 0 }] };
    let blob_b = MetadataBlob { vaults: vec![VaultMetadata { files: b_files, vault_id: 0 }] };
    let cfg_a = config_for("/a/root");
    let cfg_b = config_for("/b/root");

    let forward = get_metadata_diff(&blob_a, &blob_b, &cfg_a, &cfg_b).unwrap();
    let swapped = get_metadata_diff(&blob_b, &blob_a, &cfg_b, &cfg_a).unwrap();

    let forward_ns: Vec<&str> =
        forward.new_for_server[0].files.iter().map(|f| f.full_path.as_str()).collect();
    let swapped_nc: Vec<&str> =
        swapped.new_for_client[0].files.iter().map(|f| f.full_path.as_str()).collect();
    let mut forward_sorted = forward_ns.clone();
    forward_sorted.sort();
    let mut swapped_sorted = swapped_nc.clone();
    swapped_sorted.sort();
    assert_eq!(forward_sorted, swapped_sorted);

    let forward_nc: Vec<&str> =
        forward.new_for_client[0].files.iter().map(|f| f.full_path.as_str()).collect();
    let swapped_ns: Vec<&str> =
        swapped.new_for_server[0].files.iter().map(|f| f.full_path.as_str()).collect();
    let mut forward_nc_sorted = forward_nc.clone();
    forward_nc_sorted.sort();
    let mut swapped_ns_sorted = swapped_ns.clone();
    swapped_ns_sorted.sort();
    assert_eq!(forward_nc_sorted, swapped_ns_sorted);
}

#[test]
fn diff_rejects_record_outside_root() {
    let client_blob = MetadataBlob {
        vaults: vec![VaultMetadata {
            files: vec![record("/elsewhere/f.txt", "/home/c/vault0", 100, 1)],
            vault_id: 0,
        }],
    };
    let server_blob = MetadataBlob { vaults: vec![VaultMetadata { files: vec![], vault_id: 0 }] };
    let err = get_metadata_diff(
        &client_blob,
        &server_blob,
        &config_for("/home/c/vault0"),
        &config_for("/srv/vault0"),
    );
    assert!(matches!(err, Err(SyncError::PathMismatch)));
}

#[test]
fn diff_rejects_missing_vault_configuration() {
    let client_blob = MetadataBlob {
        vaults: vec![VaultMetadata {
            files: vec![record("/home/c/vault0/f.txt", "/home/c/vault0", 100, 1)],
            vault_id: 0,
        }],
    };
    let server_blob = MetadataBlob { vaults: vec![VaultMetadata { files: vec![], vault_id: 0 }] };
    let empty_cfg = get_vault_config_hashmap(vec![]).unwrap();
    let err = get_metadata_diff(
        &client_blob,
        &server_blob,
        &empty_cfg,
        &config_for("/srv/vault0"),
    );
    assert!(matches!(err, Err(SyncError::PathMismatch)));
}
