use datoxidize::{
    clone_bytes, convert_blob_to_vec_metadata, get_file_differences, get_vault_config_hashmap,
    i64_to_decimal, read_all_local_file_metadata, sort_files_by_modified_time, u64_to_decimal,
    FileMetadata, MetadataBlob, MetadataDiff, RemoteFile, SyncError, VaultConfig, VaultMetadata,
};

fn record(path: &str, file_id: i32, modified_time: i64) -> FileMetadata {
    FileMetadata {
        full_path: String::from(path),
        root_directory: String::from("vault0"),
        absolute_root_dir: String::from("/root"),
        modified_time,
        file_size: 10,
        vault_id: 0,
        file_id,
    }
}

#[test]
fn decimal_renderings_are_exact() {
    assert_eq!(u64_to_decimal(0), "0");
    assert_eq!(u64_to_decimal(7), "7");
    assert_eq!(u64_to_decimal(105), "105");
    assert_eq!(u64_to_decimal(18446744073709551615), "18446744073709551615");
    assert_eq!(i64_to_decimal(-1), "-1");
    assert_eq!(i64_to_decimal(1000), "1000");
    assert_eq!(i64_to_decimal(i64::MIN), "-9223372036854775808");
}

#[test]
fn error_messages_name_the_failure() {
    assert_eq!(SyncError::PathMismatch.message(), "path mismatch");
    assert_eq!(SyncError::StoreError.message(), "store error");
    assert_eq!(SyncError::TransportError.message(), "transport error");
    assert_eq!(SyncError::IoError.message(), "io error");
    assert_eq!(SyncError::IdentityConflict.message(), "identity conflict");
}

#[test]
fn compare_to_orders_by_modified_time() {
    let older = record("/root/a.txt", 1, 100);
    let newer = record("/root/b.txt", 2, 200);
    assert_eq!(newer.compare_to(&older), 1);
    assert_eq!(older.compare_to(&newer), -1);
    assert_eq!(older.compare_to(&older.duplicate()), 0);
}

#[test]
fn records_equal_by_identifier() {
    let a = record("/root/a.txt", 1, 100);
    let b = record("/root/b.txt", 1, 999);
    let c = record("/root/a.txt", 2, 100);
    assert!(a == b);
    assert!(a != c);
}

#[test]
fn constructors_fill_every_field() {
    let from_server = FileMetadata::new_from_server(
        3,
        0,
        String::from("/srv/vault0/f.txt"),
        String::from("/srv/vault0"),
        String::from("vault0"),
        123,
        456,
    );
    assert_eq!(from_server.file_id, 3);
    assert_eq!(from_server.full_path, "/srv/vault0/f.txt");
    assert_eq!(from_server.absolute_root_dir, "/srv/vault0");
    assert_eq!(from_server.root_directory, "vault0");
    assert_eq!(from_server.modified_time, 123);
    assert_eq!(from_server.file_size, 456);

    let from_client = FileMetadata::new_from_client(
        String::from("/home/c/vault0/f.txt"),
        String::from("vault0"),
        String::from("/home/c/vault0"),
        123,
        456,
        0,
        -1,
    );
    assert_eq!(from_client.file_id, -1);
    assert_eq!(from_client.vault_id, 0);
}

#[test]
fn blob_flattens_in_vault_order() {
    let blob = MetadataBlob {
        vaults: vec![
            VaultMetadata { files: vec![record("/root/a.txt", 1, 100)], vault_id: 0 },
            VaultMetadata {
                files: vec![record("/root/b.txt", 2, 200), record("/root/c.txt", 3, 300)],
                vault_id: 1,
            },
        ],
    };
    let flat = convert_blob_to_vec_metadata(&blob);
    assert_eq!(flat.len(), 3);
    assert_eq!(flat[0].full_path, "/root/a.txt");
    assert_eq!(flat[2].full_path, "/root/c.txt");
    let flat_owned = blob.convert_to_metadata_vec();
    assert_eq!(flat_owned.len(), 3);
}

#[test]
fn blob_assembled_from_vault_lists() {
    let blob = read_all_local_file_metadata(vec![
        (4, vec![record("/root/a.txt", 1, 100)]),
        (9, vec![]),
    ]);
    assert_eq!(blob.vaults.len(), 2);
    assert_eq!(blob.vaults[0].vault_id, 4);
    assert_eq!(blob.vaults[0].files.len(), 1);
    assert_eq!(blob.vaults[1].vault_id, 9);
}

#[test]
fn diff_destructures_client_first() {
    let diff = MetadataDiff {
        new_for_server: vec![VaultMetadata { files: vec![record("/root/s.txt", 1, 1)], vault_id: 0 }],
        new_for_client: vec![VaultMetadata { files: vec![record("/root/c.txt", 2, 2)], vault_id: 0 }],
    };
    let (for_client, for_server) = diff.destruct_into_tuple();
    assert_eq!(for_client.vaults[0].files[0].full_path, "/root/c.txt");
    assert_eq!(for_server.vaults[0].files[0].full_path, "/root/s.txt");
}

#[test]
fn pretty_string_lists_paths_and_times() {
    let diff = MetadataDiff {
        new_for_server: vec![VaultMetadata { files: vec![record("/root/s.txt", 1, 42)], vault_id: 0 }],
        new_for_client: vec![VaultMetadata { files: vec![record("/root/c.txt", 2, 7)], vault_id: 0 }],
    };
    let (client, server) = diff.get_pretty_string();
    assert_eq!(client, "client: path { /root/c.txt }, modified { 7 }, ");
    assert_eq!(server, "server: path { /root/s.txt }, modified { 42 }");
}

#[test]
fn remote_file_accessors() {
    let file = RemoteFile::new(
        String::from("/home/c/vault0/f.txt"),
        String::from("/home/c/vault0"),
        String::from("vault0"),
        vec![1, 2, 3],
        0,
        5,
        100,
    );
    assert_eq!(RemoteFile::get_contents(&file), &vec![1, 2, 3]);
    assert_eq!(RemoteFile::get_vault_id(&file), 0);
    assert_eq!(RemoteFile::get_root_dir(&file), "vault0");
    assert_eq!(clone_bytes(&file.contents), vec![1, 2, 3]);
}

#[test]
fn vault_config_map_rejects_duplicate_vaults() {
    let duplicate = vec![
        VaultConfig {
            full_path: String::from("/a"),
            vault_id: 0,
            sync_frequency: 5,
            vault_root: String::from("vault0"),
        },
        VaultConfig {
            full_path: String::from("/b"),
            vault_id: 0,
            sync_frequency: 5,
            vault_root: String::from("vault0"),
        },
    ];
    assert!(matches!(get_vault_config_hashmap(duplicate), Err(SyncError::StoreError)));

    let ok = get_vault_config_hashmap(vec![VaultConfig {
        full_path: String::from("/a"),
        vault_id: 0,
        sync_frequency: 5,
        vault_root: String::from("vault0"),
    }])
    .unwrap();
    assert_eq!(ok.get(0).unwrap().full_path, "/a");
    assert!(ok.get(1).is_none());
}

#[test]
fn file_differences_by_identifier() {
    let client = vec![vec![
        record("/c/a.txt", -1, 100),
        record("/c/b.txt", 1, 500),
        record("/c/c.txt", 2, 100),
    ]];
    let server = vec![vec![
        record("/s/b.txt", 1, 100),
        record("/s/c.txt", 2, 100),
        record("/s/d.txt", 3, 100),
    ]];
    let (new_for_client, new_for_server) = get_file_differences(client, server);
    // the client pushes its unassigned file and its newer copy of id 1
    let pushed: Vec<&str> = new_for_server[0].iter().map(|f| f.full_path.as_str()).collect();
    assert_eq!(pushed, vec!["/c/a.txt", "/c/b.txt"]);
    // the client needs the file only the server has
    let fetched: Vec<&str> = new_for_client[0].iter().map(|f| f.full_path.as_str()).collect();
    assert_eq!(fetched, vec!["/s/d.txt"]);
}

#[test]
fn sorting_puts_newest_first() {
    let mut files = vec![vec![
        record("/root/a.txt", 1, 100),
        record("/root/b.txt", 2, 300),
        record("/root/c.txt", 3, 200),
    ]];
    sort_files_by_modified_time(&mut files);
    let times: Vec<i64> = files[0].iter().map(|f| f.modified_time).collect();
    assert_eq!(times, vec![300, 200, 100]);
}

#[test]
fn file_list_renders_one_line_per_path() {
    let listing = datoxidize::format_file_list(&vec![
        String::from("/root/a.txt"),
        String::from("/root/b.txt"),
    ]);
    assert_eq!(listing, "| /root/a.txt\n| /root/b.txt\n");
}
