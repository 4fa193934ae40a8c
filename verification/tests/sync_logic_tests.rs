use datoxidize::{
    build_remote_directory_structure, get_full_local_path, get_full_remote_path,
    get_list_of_files_to_update_on_local, get_list_of_files_to_update_on_remote,
    remove_path_approximate_from_config, DirectoryConfig, NamedFile, SyncError,
};
use rand::distributions::{Alphanumeric, Standard};
use rand::rngs::StdRng;
use rand::{Rng, SeedableRng};

fn test_config() -> DirectoryConfig {
    DirectoryConfig::new(String::from("./example_dir"), 1, 5, "./copy_dir/")
}

#[test]
fn test_build_directory_structure() {
    let local_path = String::from("./example_dir/test_build_dir/test");
    let config = test_config();

    let full_path = get_full_remote_path(&local_path, &config, "./copy_dir/").unwrap();

    assert_eq!(full_path, String::from("./copy_dir/dir1/example_dir/test_build_dir/test"))
}

#[test]
fn test_build_many_random_directories() {
    let mut chars = "./example_dir/".chars().collect::<Vec<char>>();

    for i in 0..1000 {
        if i % 5 == 0 {
            chars.push('/');
            continue;
        }

        let random_char: char = StdRng::from_entropy().sample(Standard);
        if *chars.last().unwrap() == '/' && random_char == '/' {
            continue;
        }
        chars.push(random_char);
    }
    let mut local_path = chars.into_iter().collect::<String>();
    let config = test_config();
    let full_path = get_full_remote_path(&local_path, &config, "./copy_dir/").unwrap();
    local_path.remove(0);

    // what the final remote path should be
    let mut remote_path = String::from("./copy_dir/dir1");
    remote_path.push_str(local_path.as_str());
    assert_eq!(remote_path, full_path)
}

#[test]
fn alphanumeric_suffixes_translate_too() {
    let mut root_local = "./example_dir/test".to_string();
    let rand_str: String =
        (0..7).map(|_| rand::thread_rng().sample(Alphanumeric) as char).collect();
    root_local.push('/');
    root_local.push_str(rand_str.as_str());
    let config = test_config();
    let remote = get_full_remote_path(&root_local, &config, "./copy_dir/").unwrap();
    let mut expected = String::from("./copy_dir/dir1/example_dir/test/");
    expected.push_str(rand_str.as_str());
    assert_eq!(remote, expected);
}

#[test]
fn remove_path_approximate_strips_leading_dot_slash() {
    assert_eq!(remove_path_approximate_from_config("./example_dir"), "example_dir");
    assert_eq!(remove_path_approximate_from_config("example_dir"), "example_dir");
    assert_eq!(remove_path_approximate_from_config("."), ".");
}

#[test]
fn directory_structure_is_the_part_past_the_watched_dir() {
    let s = build_remote_directory_structure("./example_dir/a/b.txt", "./example_dir").unwrap();
    assert_eq!(s, "/a/b.txt");
    let err = build_remote_directory_structure("./elsewhere/a.txt", "./example_dir");
    assert!(matches!(err, Err(SyncError::PathMismatch)));
}

#[test]
fn local_path_mirrors_back_under_the_watched_dir() {
    let config = test_config();
    let local = get_full_local_path("./copy_dir/dir1/example_dir/a/b.txt", &config).unwrap();
    assert_eq!(local, "./example_dir/a/b.txt");
}

fn named(name: &str, path: &str, modified_time: i64) -> NamedFile {
    NamedFile { name: String::from(name), full_path: String::from(path), modified_time }
}

#[test]
fn files_newer_by_more_than_the_margin_are_copied() {
    let local = vec![named("a.txt", "./example_dir/a.txt", 100)];
    let remote = vec![
        named("a.txt", "./copy_dir/dir1/example_dir/a.txt", 106),
        named("b.txt", "./copy_dir/dir1/example_dir/b.txt", 10),
    ];
    // remote a.txt is newer by 6 > 5 seconds; b.txt is missing locally
    let to_local = get_list_of_files_to_update_on_local(&local, &remote);
    assert_eq!(
        to_local,
        vec![
            String::from("./copy_dir/dir1/example_dir/a.txt"),
            String::from("./copy_dir/dir1/example_dir/b.txt"),
        ]
    );
}

#[test]
fn files_within_the_margin_stay_put() {
    let local = vec![named("a.txt", "./example_dir/a.txt", 100)];
    let remote = vec![named("a.txt", "./copy_dir/dir1/example_dir/a.txt", 105)];
    // newer by exactly 5 seconds: within the skew margin, no copy
    let to_local = get_list_of_files_to_update_on_local(&local, &remote);
    assert_eq!(to_local.len(), 0);
    let to_remote = get_list_of_files_to_update_on_remote(&local, &remote);
    assert_eq!(to_remote.len(), 0);
}

#[test]
fn local_newer_files_move_to_the_mirror() {
    let local = vec![
        named("a.txt", "./example_dir/a.txt", 200),
        named("c.txt", "./example_dir/c.txt", 50),
    ];
    let remote = vec![named("a.txt", "./copy_dir/dir1/example_dir/a.txt", 100)];
    let to_remote = get_list_of_files_to_update_on_remote(&local, &remote);
    assert_eq!(
        to_remote,
        vec![String::from("./example_dir/a.txt"), String::from("./example_dir/c.txt")]
    );
}

#[test]
fn directory_config_builds_its_mirror_directory() {
    let config = test_config();
    assert_eq!(config.remote_relative_directory, "./copy_dir/dir1/");
    assert_eq!(config.content_directory, "./example_dir");
    assert_eq!(config.directory_id, 1);
}
