//! The local-mirror engine: keeping one watched directory and a mirror
//! directory consistent, deciding per file name which side's copy moves.
//!
//! The caller walks both trees and hands in each file's name, full path and
//! modification time; these functions decide which files to copy and build
//! the mirror-side paths.  A file is copied only when its copy is newer by
//! more than a five-second margin, which tolerates filesystem and transfer
//! timestamp skew.

use vstd::prelude::*;

verus! {

use vstd::string::StrSliceExecFns;
use vstd::string::StringExecFns;
use crate::decimal::dec_str_i64;
use crate::errors::SyncError;
use crate::paths::{last_match, matches_at, rfind_str};

/// One directory kept in sync with a mirror.
#[derive(Debug, Clone)]
pub struct DirectoryConfig {
    /// The watched directory, as written in the configuration.
    pub content_directory: String,
    /// The mirror directory this one syncs into.
    pub remote_relative_directory: String,
    /// The directory's identifier in the mirror area.
    pub directory_id: i32,
    /// How often the directory is synchronized, in seconds.
    pub sync_frequency: u64,
    /// File names that are never synchronized.
    pub ignored_files: Vec<String>,
}

/// A configured path with a leading `"./"` removed.
pub open spec fn strip_dot_slash(s: Seq<char>) -> Seq<char> {
    if s.len() >= 2 && s[0] == '.' && s[1] == '/' {
        s.subrange(2, s.len() as int)
    } else {
        s
    }
}

impl DirectoryConfig {
    /// A configuration whose mirror directory lies in the given storage
    /// area, named after the directory's identifier.
    pub fn new(
        content_directory: String,
        directory_id: i32,
        sync_frequency: u64,
        root_storage: &str,
    ) -> (r: DirectoryConfig)
        ensures
            r.content_directory == content_directory,
            r.directory_id == directory_id,
            r.sync_frequency == sync_frequency,
            r.ignored_files@ == Seq::<String>::empty(),
            r.remote_relative_directory@ == root_storage@ + "dir"@ + dec_str_i64(
                directory_id as int,
            ) + "/"@,
    {
        let remote_relative_directory = root_storage.to_owned().concat("dir").concat(
            crate::decimal::i64_to_decimal(directory_id as i64).as_str(),
        ).concat("/");
        DirectoryConfig {
            content_directory,
            remote_relative_directory,
            directory_id,
            sync_frequency,
            ignored_files: Vec::new(),
        }
    }
}

/// Removes the leading `"./"` a configured path is written with.
pub fn remove_path_approximate_from_config(relative_dir: &str) -> (r: String)
    ensures
        r@ == strip_dot_slash(relative_dir@),
{
    let len = relative_dir.unicode_len();
    if len >= 2 && relative_dir.get_char(0) == '.' && relative_dir.get_char(1) == '/' {
        relative_dir.substring_char(2, len).to_owned()
    } else {
        relative_dir.to_owned()
    }
}

/// Everything of `event_path` past the last occurrence of the watched
/// directory's name: the structure to recreate under the mirror.
///
/// Fails with [`SyncError::PathMismatch`] exactly when the path does not
/// mention the watched directory at all.
pub fn build_remote_directory_structure(event_path: &str, content_directory_root: &str) -> (r:
    Result<String, SyncError>)
    ensures
        r is Ok <==> last_match(event_path@, strip_dot_slash(content_directory_root@)) is Some,
        r matches Ok(q) ==> q@ == event_path@.subrange(
            last_match(event_path@, strip_dot_slash(content_directory_root@))->0 + strip_dot_slash(
                content_directory_root@,
            ).len() as int,
            event_path@.len() as int,
        ),
        r matches Err(e) ==> e == SyncError::PathMismatch,
{
    let pattern = remove_path_approximate_from_config(content_directory_root);
    match rfind_str(event_path, pattern.as_str()) {
        Some(i) => {
            let n = event_path.unicode_len();
            let m = pattern.as_str().unicode_len();
            Ok(event_path.substring_char(i + m, n).to_owned())
        },
        None => Err(SyncError::PathMismatch),
    }
}

/// The mirror-side path of a local file or directory: the storage area,
/// the mirror directory's name, the watched directory's name, then the
/// structure below it.
pub open spec fn full_remote_path_spec(
    event: Seq<char>,
    storage: Seq<char>,
    directory_id: int,
    content: Seq<char>,
) -> Seq<char> {
    storage + "dir"@ + dec_str_i64(directory_id) + "/"@ + strip_dot_slash(content)
        + event.subrange(
        last_match(event, strip_dot_slash(content))->0 + strip_dot_slash(content).len() as int,
        event.len() as int,
    )
}

/// Builds the mirror-side path for a changed local file or directory.
///
/// Fails with [`SyncError::PathMismatch`] exactly when the path does not
/// mention the watched directory.
pub fn get_full_remote_path(event_path: &str, directory: &DirectoryConfig, root_storage: &str) -> (r:
    Result<String, SyncError>)
    ensures
        r is Ok <==> last_match(
            event_path@,
            strip_dot_slash(directory.content_directory@),
        ) is Some,
        r matches Ok(q) ==> q@ == full_remote_path_spec(
            event_path@,
            root_storage@,
            directory.directory_id as int,
            directory.content_directory@,
        ),
        r matches Err(e) ==> e == SyncError::PathMismatch,
{
    let structure = match build_remote_directory_structure(
        event_path,
        directory.content_directory.as_str(),
    ) {
        Ok(s) => s,
        Err(e) => {
            return Err(e);
        },
    };
    let parent = remove_path_approximate_from_config(directory.content_directory.as_str());
    let q = root_storage.to_owned().concat("dir").concat(
        crate::decimal::i64_to_decimal(directory.directory_id as i64).as_str(),
    ).concat("/").concat(parent.as_str()).concat(structure.as_str());
    proof {
        assert(q@ =~= full_remote_path_spec(
            event_path@,
            root_storage@,
            directory.directory_id as int,
            directory.content_directory@,
        ));
    }
    Ok(q)
}

/// The local path a mirror-side file syncs back to: the watched directory,
/// then the structure below its name.
pub fn get_full_local_path(event_path: &str, directory: &DirectoryConfig) -> (r: Result<
    String,
    SyncError,
>)
    ensures
        r is Ok <==> last_match(
            event_path@,
            strip_dot_slash(directory.content_directory@),
        ) is Some,
        r matches Ok(q) ==> q@ == directory.content_directory@ + event_path@.subrange(
            last_match(event_path@, strip_dot_slash(directory.content_directory@))->0
                + strip_dot_slash(directory.content_directory@).len() as int,
            event_path@.len() as int,
        ),
        r matches Err(e) ==> e == SyncError::PathMismatch,
{
    let structure = match build_remote_directory_structure(
        event_path,
        directory.content_directory.as_str(),
    ) {
        Ok(s) => s,
        Err(e) => {
            return Err(e);
        },
    };
    let q = directory.content_directory.clone().concat(structure.as_str());
    Ok(q)
}

/// One file as the mirror walk reports it: its bare name — the correlation
/// key between the two trees — with its full path and modification time.
#[derive(Debug, Clone)]
pub struct NamedFile {
    /// The file's bare name.
    pub name: String,
    /// The file's full path on its side.
    pub full_path: String,
    /// Seconds since the epoch, at whole-second precision.
    pub modified_time: i64,
}

/// The first position in `files` whose file carries this name.
pub open spec fn first_named(files: Seq<NamedFile>, name: Seq<char>) -> Option<int>
    decreases files.len(),
{
    if files.len() == 0 {
        None
    } else if files[0].name@ == name {
        Some(0)
    } else {
        match first_named(files.drop_first(), name) {
            Some(i) => Some(i + 1),
            None => None,
        }
    }
}

/// Whether a file's copy should move to the other side: the other side has
/// no file of that name, or this copy is newer by more than the five-second
/// skew margin.
pub open spec fn should_copy(f: NamedFile, dest: Seq<NamedFile>) -> bool {
    match first_named(dest, f.name@) {
        None => true,
        Some(i) => f.modified_time as int > dest[i].modified_time as int + 5,
    }
}

/// The full paths of the source files that should move, in source order.
pub open spec fn files_to_copy_seq(source: Seq<NamedFile>, dest: Seq<NamedFile>) -> Seq<String>
    decreases source.len(),
{
    if source.len() == 0 {
        Seq::empty()
    } else {
        files_to_copy_seq(source.drop_last(), dest) + (if should_copy(source.last(), dest) {
            seq![source.last().full_path]
        } else {
            Seq::empty()
        })
    }
}

/// The source files whose copy should move to the destination side.
fn files_needing_copy(source: &Vec<NamedFile>, dest: &Vec<NamedFile>) -> (r: Vec<String>)
    ensures
        r@ == files_to_copy_seq(source@, dest@),
{
    let mut out: Vec<String> = Vec::new();
    let mut k: usize = 0;
    proof {
        assert(source@.subrange(0, 0) =~= Seq::<NamedFile>::empty());
    }
    while k < source.len()
        invariant
            k <= source@.len(),
            out@ == files_to_copy_seq(source@.subrange(0, k as int), dest@),
        decreases source@.len() - k,
    {
        let f = &source[k];
        let copy = match find_named(dest, &f.name) {
            None => true,
            Some(i) => {
                if dest[i].modified_time <= i64::MAX - 5 {
                    f.modified_time > dest[i].modified_time + 5
                } else {
                    false
                }
            },
        };
        if copy {
            out.push(f.full_path.clone());
        }
        proof {
            let pre = source@.subrange(0, k + 1 as int);
            assert(pre.drop_last() =~= source@.subrange(0, k as int));
            assert(pre.last() == source@[k as int]);
            assert(out@ =~= files_to_copy_seq(pre, dest@));
        }
        k = k + 1;
    }
    proof {
        assert(source@.subrange(0, source@.len() as int) =~= source@);
    }
    out
}

/// The first file of `files` carrying this name.
fn find_named(files: &Vec<NamedFile>, name: &String) -> (r: Option<usize>)
    ensures
        match r {
            Some(i) => i < files@.len() && Some(i as int) == first_named(files@, name@),
            None => first_named(files@, name@) is None,
        },
{
    proof {
        assert(files@.skip(0) =~= files@);
    }
    let mut k: usize = 0;
    while k < files.len()
        invariant
            k <= files@.len(),
            first_named(files@, name@) == (match first_named(files@.skip(k as int), name@) {
                Some(i) => Some(i + k),
                None => None::<int>,
            }),
        decreases files@.len() - k,
    {
        proof {
            assert(files@.skip(k as int).drop_first() =~= files@.skip(k + 1 as int));
        }
        if files[k].name.eq(name) {
            return Some(k);
        }
        k = k + 1;
    }
    None
}

/// The mirror-side files whose copy should move to the local side.
pub fn get_list_of_files_to_update_on_local(
    local_metadata: &Vec<NamedFile>,
    remote_metadata: &Vec<NamedFile>,
) -> (r: Vec<String>)
    ensures
        r@ == files_to_copy_seq(remote_metadata@, local_metadata@),
{
    files_needing_copy(remote_metadata, local_metadata)
}

/// The local files whose copy should move to the mirror side.
pub fn get_list_of_files_to_update_on_remote(
    local_metadata: &Vec<NamedFile>,
    remote_metadata: &Vec<NamedFile>,
) -> (r: Vec<String>)
    ensures
        r@ == files_to_copy_seq(local_metadata@, remote_metadata@),
{
    files_needing_copy(local_metadata, remote_metadata)
}

} // verus!
