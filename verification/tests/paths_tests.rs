use datoxidize::{
    convert_all_paths, convert_path_to_local, get_server_path, normalize_root, rfind_str,
    RemoteFile, SyncError, VaultConfig,
};

#[test]
fn test_convert_path_to_local() {
    let file = String::from("/home/root_dir/nested_dir/file.txt");
    let src = String::from("/home/root_dir");
    let dst = String::from("/home/different_root_dir");

    let result = convert_path_to_local(&file, &src, &dst).unwrap();

    assert_eq!(result, "/home/different_root_dir/nested_dir/file.txt");
}

#[test]
fn convert_path_normalizes_trailing_separators() {
    let result =
        convert_path_to_local("/home/sync_dir/nested/memes1.txt", "/home/sync_dir/", "/other/")
            .unwrap();
    assert_eq!(result, "/other/nested/memes1.txt");
}

#[test]
fn convert_path_round_trip() {
    let here = convert_path_to_local("/a/vault/x/y.txt", "/a/vault", "/b/store").unwrap();
    assert_eq!(here, "/b/store/x/y.txt");
    let back = convert_path_to_local(&here, "/b/store", "/a/vault").unwrap();
    assert_eq!(back, "/a/vault/x/y.txt");
}

#[test]
fn convert_path_rejects_foreign_root() {
    let err = convert_path_to_local("/home/elsewhere/file.txt", "/home/root_dir", "/dst");
    assert_eq!(err, Err(SyncError::PathMismatch));
}

#[test]
fn convert_path_rejects_root_itself() {
    let err = convert_path_to_local("/home/root_dir", "/home/root_dir", "/dst");
    assert_eq!(err, Err(SyncError::PathMismatch));
}

#[test]
fn convert_all_paths_translates_each() {
    let files = vec![
        String::from("/v/a.txt"),
        String::from("/v/sub/b.txt"),
    ];
    let out = convert_all_paths(&files, "/v", "/w").unwrap();
    assert_eq!(out, vec![String::from("/w/a.txt"), String::from("/w/sub/b.txt")]);
}

#[test]
fn normalize_root_strips_separators() {
    assert_eq!(normalize_root("/home/sync_dir///"), "/home/sync_dir");
    assert_eq!(normalize_root("/home/sync_dir"), "/home/sync_dir");
    assert_eq!(normalize_root(""), "");
}

#[test]
fn rfind_str_finds_last_occurrence() {
    assert_eq!(rfind_str("abcabc", "abc"), Some(3));
    assert_eq!(rfind_str("abcabc", "zzz"), None);
    assert_eq!(rfind_str("example_dir/x", "example_dir"), Some(0));
}

#[test]
fn test_get_server_path() {
    let file = RemoteFile::new_empty(
        String::from("../datoxidize/example_dir/lophostemon_occurrences.csv"),
        String::from("example_dir"),
        0,
        0,
    );

    let vault = VaultConfig {
        full_path: String::from("./storage/"),
        vault_id: 0,
        sync_frequency: 5,
        vault_root: String::from("example_dir"),
    };
    let path = get_server_path(&file, &vault).unwrap();
    assert_eq!(path, "./storage/vault0/lophostemon_occurrences.csv");
}

#[test]
fn test_get_nested_server_path() {
    let client = RemoteFile::new_empty(
        String::from("../datoxidize/example_dir/serve_test/another/test.txt"),
        String::from("example_dir"),
        0,
        0,
    );
    let vault = VaultConfig {
        full_path: String::from("./storage/"),
        vault_id: 0,
        sync_frequency: 5,
        vault_root: String::from("example_dir"),
    };
    let path = get_server_path(&client, &vault).unwrap();
    assert_eq!(path, "./storage/vault0/serve_test/another/test.txt")
}

#[test]
fn get_server_path_rejects_unrelated_path() {
    let file = RemoteFile::new_empty(String::from("/tmp/other.txt"), String::from("example_dir"), 0, 0);
    let vault = VaultConfig {
        full_path: String::from("./storage/"),
        vault_id: 0,
        sync_frequency: 5,
        vault_root: String::from("example_dir"),
    };
    assert_eq!(get_server_path(&file, &vault), Err(SyncError::PathMismatch));
}
