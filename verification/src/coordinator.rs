//! The synchronization protocol: its phases, the per-file decisions, and
//! the authoritative application of a pushed diff.
//!
//! One run walks the phases strictly in order; any phase that cannot
//! complete aborts the run, and the next run re-derives a correct diff from
//! the durable stores.  The transport and the disk writes themselves stay
//! with the caller: this module computes what to send and what to write.

use vstd::prelude::*;

verus! {

use crate::errors::SyncError;
use crate::paths::{convert_path_to_local, is_under_root, translate_path};
use crate::records::{clone_bytes, flat_files, FileMetadata, MetadataBlob, RemoteFile};
use crate::store::{alloc_base, upsert_conflict, upsert_one, MetadataStore};

/// The phases of one synchronization run, in their only admissible order.
#[derive(Clone, Copy, Debug, PartialEq, Eq, Structural)]
pub enum SyncPhase {
    /// Ask the server for its snapshot and greatest identifier per vault.
    FetchRemoteSnapshot,
    /// Scan the local disks against the local store.
    LoadLocalSnapshot,
    /// Reconcile the two snapshots.
    ComputeDiff,
    /// Send the server what it lacks; it assigns identifiers.
    PushServerDiff,
    /// Declare what this side lacks and fetch the bodies.
    RequestNeededFiles,
    /// Write the received bodies and restore their times.
    MaterializeReceivedFiles,
    /// Read and send the bodies the server lacks.
    PushLocalFiles,
    /// The run is over.
    Done,
}

impl SyncPhase {
    /// The phase that follows this one; the protocol never reorders or
    /// skips a phase, and `Done` stays `Done`.
    pub fn next(self) -> (r: SyncPhase)
        ensures
            r == match self {
                SyncPhase::FetchRemoteSnapshot => SyncPhase::LoadLocalSnapshot,
                SyncPhase::LoadLocalSnapshot => SyncPhase::ComputeDiff,
                SyncPhase::ComputeDiff => SyncPhase::PushServerDiff,
                SyncPhase::PushServerDiff => SyncPhase::RequestNeededFiles,
                SyncPhase::RequestNeededFiles => SyncPhase::MaterializeReceivedFiles,
                SyncPhase::MaterializeReceivedFiles => SyncPhase::PushLocalFiles,
                SyncPhase::PushLocalFiles => SyncPhase::Done,
                SyncPhase::Done => SyncPhase::Done,
            },
    {
        match self {
            SyncPhase::FetchRemoteSnapshot => SyncPhase::LoadLocalSnapshot,
            SyncPhase::LoadLocalSnapshot => SyncPhase::ComputeDiff,
            SyncPhase::ComputeDiff => SyncPhase::PushServerDiff,
            SyncPhase::PushServerDiff => SyncPhase::RequestNeededFiles,
            SyncPhase::RequestNeededFiles => SyncPhase::MaterializeReceivedFiles,
            SyncPhase::MaterializeReceivedFiles => SyncPhase::PushLocalFiles,
            SyncPhase::PushLocalFiles => SyncPhase::Done,
            SyncPhase::Done => SyncPhase::Done,
        }
    }
}

/// Whether the sender's copy is more recent than the local one: true when
/// no local copy exists, or when the sender's modification time is strictly
/// later.
pub fn is_client_more_recent_than_server(remote: &RemoteFile, local_modified_time: Option<i64>) -> (r:
    bool)
    ensures
        r == match local_modified_time {
            None => true,
            Some(t) => remote.modified_time > t,
        },
{
    match local_modified_time {
        None => true,
        Some(t) => remote.modified_time > t,
    }
}

/// One pending disk write: where the bytes go and the modification time to
/// restore afterwards, so that the next scan does not see the file as
/// changed again.
#[derive(Debug, Clone)]
pub struct WriteAction {
    /// The absolute path to write, on this replica.
    pub path: String,
    /// The bytes to write.
    pub contents: Vec<u8>,
    /// The modification time to restore, seconds since the epoch.
    pub modified_time: i64,
}

/// The first position in `roots` that names this vault.
pub open spec fn first_root_for(roots: Seq<(i32, String)>, vault_id: int) -> Option<int>
    decreases roots.len(),
{
    if roots.len() == 0 {
        None
    } else if roots[0].0 as int == vault_id {
        Some(0)
    } else {
        match first_root_for(roots.drop_first(), vault_id) {
            Some(i) => Some(i + 1),
            None => None,
        }
    }
}

/// The local root configured for this vault, or the empty path.
pub open spec fn root_for(roots: Seq<(i32, String)>, vault_id: int) -> Seq<char> {
    match first_root_for(roots, vault_id) {
        Some(i) => roots[i].1@,
        None => Seq::empty(),
    }
}

/// Plans the disk writes that materialize received files: each file's path
/// is carried out of the sender's root and under this replica's root for the
/// file's vault, and its declared modification time is carried along for
/// the caller to restore after writing.
///
/// Fails with [`SyncError::PathMismatch`] exactly when a file's vault has no
/// local root or its path does not lie under the sender's declared root;
/// nothing is planned for any file in that case.
pub fn save_remote_files_to_disk(
    files: &Vec<RemoteFile>,
    id_and_root_dirs: &Vec<(i32, String)>,
) -> (r: Result<Vec<WriteAction>, SyncError>)
    ensures
        r is Ok <==> (forall|i: int|
            0 <= i < files@.len() ==> first_root_for(
                id_and_root_dirs@,
                (#[trigger] files@[i]).vault_id as int,
            ) is Some && is_under_root(files@[i].full_path@, files@[i].absolute_root_dir@)),
        r matches Ok(v) ==> {
            &&& v@.len() == files@.len()
            &&& forall|i: int|
                0 <= i < files@.len() ==> {
                    let f = #[trigger] files@[i];
                    &&& v@[i].path@ == translate_path(
                        f.full_path@,
                        f.absolute_root_dir@,
                        root_for(id_and_root_dirs@, f.vault_id as int),
                    )
                    &&& v@[i].contents@ == f.contents@
                    &&& v@[i].modified_time == f.modified_time
                }
        },
        r matches Err(e) ==> e == SyncError::PathMismatch,
{
    let mut out: Vec<WriteAction> = Vec::new();
    let mut k: usize = 0;
    while k < files.len()
        invariant
            k <= files@.len(),
            out@.len() == k,
            forall|i: int|
                0 <= i < k ==> first_root_for(
                    id_and_root_dirs@,
                    (#[trigger] files@[i]).vault_id as int,
                ) is Some && is_under_root(files@[i].full_path@, files@[i].absolute_root_dir@),
            forall|i: int|
                0 <= i < k ==> {
                    let f = #[trigger] files@[i];
                    &&& out@[i].path@ == translate_path(
                        f.full_path@,
                        f.absolute_root_dir@,
                        root_for(id_and_root_dirs@, f.vault_id as int),
                    )
                    &&& out@[i].contents@ == f.contents@
                    &&& out@[i].modified_time == f.modified_time
                },
        decreases files@.len() - k,
    {
        let file = &files[k];
        let local_root = match get_local_root(file, id_and_root_dirs) {
            Some(root) => root,
            None => {
                return Err(SyncError::PathMismatch);
            },
        };
        let local_path = match convert_path_to_local(
            file.full_path.as_str(),
            file.absolute_root_dir.as_str(),
            local_root.as_str(),
        ) {
            Ok(p) => p,
            Err(e) => {
                return Err(e);
            },
        };
        out.push(
            WriteAction {
                path: local_path,
                contents: clone_bytes(&file.contents),
                modified_time: file.modified_time,
            },
        );
        k = k + 1;
    }
    Ok(out)
}

/// The configured local root for the file's vault.
fn get_local_root<'a>(file: &RemoteFile, id_and_dirs: &'a Vec<(i32, String)>) -> (r: Option<
    &'a String,
>)
    ensures
        r is Some <==> first_root_for(id_and_dirs@, file.vault_id as int) is Some,
        r matches Some(root) ==> root@ == root_for(id_and_dirs@, file.vault_id as int),
{
    find_root_for(file.vault_id, id_and_dirs)
}

/// The configured local root for a vault.
fn find_root_for<'a>(vault_id: i32, id_and_dirs: &'a Vec<(i32, String)>) -> (r: Option<
    &'a String,
>)
    ensures
        r is Some <==> first_root_for(id_and_dirs@, vault_id as int) is Some,
        r matches Some(root) ==> root@ == root_for(id_and_dirs@, vault_id as int),
{
    proof {
        assert(id_and_dirs@.skip(0) =~= id_and_dirs@);
    }
    let mut k: usize = 0;
    while k < id_and_dirs.len()
        invariant
            k <= id_and_dirs@.len(),
            first_root_for(id_and_dirs@, vault_id as int) == (match first_root_for(
                id_and_dirs@.skip(k as int),
                vault_id as int,
            ) {
                Some(i) => Some(i + k),
                None => None::<int>,
            }),
        decreases id_and_dirs@.len() - k,
    {
        proof {
            assert(id_and_dirs@.skip(k as int).drop_first() =~= id_and_dirs@.skip(k + 1 as int));
        }
        if id_and_dirs[k].0 == vault_id {
            return Some(&id_and_dirs[k].1);
        }
        k = k + 1;
    }
    None
}

/// Rewrites every record's path into this replica's root for its vault,
/// moving it out of the root the record came with, and re-roots the record
/// accordingly.  A vault with no configured root here keeps its records
/// untouched.
///
/// Fails with [`SyncError::PathMismatch`] exactly when some record of a
/// configured vault does not lie under its declared root; the blob is then
/// left unchanged.
pub fn convert_root_dirs_of_metadata(
    metadata: &mut crate::records::MetadataBlob,
    root_dirs: &Vec<(i32, String)>,
) -> (r: Result<(), SyncError>)
    ensures
        r is Ok <==> (forall|v: int, i: int|
            0 <= v < old(metadata).vaults@.len() && 0 <= i < old(
                metadata,
            ).vaults@[v].files@.len() && first_root_for(
                root_dirs@,
                (#[trigger] old(metadata).vaults@[v]).vault_id as int,
            ) is Some ==> is_under_root(
                (#[trigger] old(metadata).vaults@[v].files@[i]).full_path@,
                old(metadata).vaults@[v].files@[i].absolute_root_dir@,
            )),
        r is Ok ==> {
            &&& final(metadata).vaults@.len() == old(metadata).vaults@.len()
            &&& forall|v: int|
                0 <= v < old(metadata).vaults@.len() ==> {
                    let before = #[trigger] old(metadata).vaults@[v];
                    let after = final(metadata).vaults@[v];
                    &&& after.vault_id == before.vault_id
                    &&& after.files@.len() == before.files@.len()
                    &&& forall|i: int|
                        0 <= i < before.files@.len() ==> {
                            let f = #[trigger] before.files@[i];
                            let g = after.files@[i];
                            &&& (first_root_for(root_dirs@, before.vault_id as int) is Some
                                ==> g.full_path@ == translate_path(
                                f.full_path@,
                                f.absolute_root_dir@,
                                root_for(root_dirs@, before.vault_id as int),
                            ))
                            &&& (first_root_for(root_dirs@, before.vault_id as int) is None
                                ==> g.full_path@ == f.full_path@ && g.absolute_root_dir
                                == f.absolute_root_dir)
                            &&& (first_root_for(root_dirs@, before.vault_id as int) is Some
                                ==> g.absolute_root_dir@ == root_for(
                                root_dirs@,
                                before.vault_id as int,
                            ))
                            &&& g.root_directory == f.root_directory
                            &&& g.modified_time == f.modified_time
                            &&& g.file_size == f.file_size
                            &&& g.vault_id == f.vault_id
                            &&& g.file_id == f.file_id
                        }
                }
        },
        r matches Err(e) ==> e == SyncError::PathMismatch && final(metadata).vaults@ == old(metadata).vaults@,
{
    let mut out: Vec<crate::records::VaultMetadata> = Vec::new();
    let mut v: usize = 0;
    while v < metadata.vaults.len()
        invariant
            v <= metadata.vaults@.len(),
            out@.len() == v,
            forall|w: int, i: int|
                0 <= w < v && 0 <= i < metadata.vaults@[w].files@.len() && first_root_for(
                    root_dirs@,
                    (#[trigger] metadata.vaults@[w]).vault_id as int,
                ) is Some ==> is_under_root(
                    (#[trigger] metadata.vaults@[w].files@[i]).full_path@,
                    metadata.vaults@[w].files@[i].absolute_root_dir@,
                ),
            forall|w: int|
                0 <= w < v ==> {
                    let before = #[trigger] metadata.vaults@[w];
                    let after = out@[w];
                    &&& after.vault_id == before.vault_id
                    &&& after.files@.len() == before.files@.len()
                    &&& forall|i: int|
                        0 <= i < before.files@.len() ==> {
                            let f = #[trigger] before.files@[i];
                            let g = after.files@[i];
                            &&& (first_root_for(root_dirs@, before.vault_id as int) is Some
                                ==> g.full_path@ == translate_path(
                                f.full_path@,
                                f.absolute_root_dir@,
                                root_for(root_dirs@, before.vault_id as int),
                            ))
                            &&& (first_root_for(root_dirs@, before.vault_id as int) is None
                                ==> g.full_path@ == f.full_path@ && g.absolute_root_dir
                                == f.absolute_root_dir)
                            &&& (first_root_for(root_dirs@, before.vault_id as int) is Some
                                ==> g.absolute_root_dir@ == root_for(
                                root_dirs@,
                                before.vault_id as int,
                            ))
                            &&& g.root_directory == f.root_directory
                            &&& g.modified_time == f.modified_time
                            &&& g.file_size == f.file_size
                            &&& g.vault_id == f.vault_id
                            &&& g.file_id == f.file_id
                        }
                },
        decreases metadata.vaults@.len() - v,
    {
        let vault = &metadata.vaults[v];
        let mut files: Vec<FileMetadata> = Vec::new();
        match find_root_for(vault.vault_id, root_dirs) {
            None => {
                files = crate::records::clone_metadata_vec(&vault.files);
            },
            Some(root) => {
                let mut i: usize = 0;
                while i < vault.files.len()
                    invariant
                        i <= vault.files@.len(),
                        files@.len() == i,
                        v < metadata.vaults@.len(),
                        vault == &metadata.vaults@[v as int],
                        root@ == root_for(root_dirs@, vault.vault_id as int),
                        first_root_for(root_dirs@, vault.vault_id as int) is Some,
                        forall|j: int|
                            0 <= j < i ==> is_under_root(
                                (#[trigger] vault.files@[j]).full_path@,
                                vault.files@[j].absolute_root_dir@,
                            ),
                        forall|j: int|
                            0 <= j < i ==> {
                                let f = #[trigger] vault.files@[j];
                                let g = files@[j];
                                &&& g.full_path@ == translate_path(
                                    f.full_path@,
                                    f.absolute_root_dir@,
                                    root_for(root_dirs@, vault.vault_id as int),
                                )
                                &&& g.absolute_root_dir@ == root_for(
                                    root_dirs@,
                                    vault.vault_id as int,
                                )
                                &&& g.root_directory == f.root_directory
                                &&& g.modified_time == f.modified_time
                                &&& g.file_size == f.file_size
                                &&& g.vault_id == f.vault_id
                                &&& g.file_id == f.file_id
                            },
                    decreases vault.files@.len() - i,
                {
                    let f = &vault.files[i];
                    let new_path = match convert_path_to_local(
                        f.full_path.as_str(),
                        f.absolute_root_dir.as_str(),
                        root.as_str(),
                    ) {
                        Ok(p) => p,
                        Err(e) => {
                            proof {
                                assert(first_root_for(
                                    root_dirs@,
                                    (#[trigger] metadata.vaults@[v as int]).vault_id as int,
                                ) is Some);
                                assert(!is_under_root(
                                    (#[trigger] metadata.vaults@[v as int].files@[
                                        i as int
                                    ]).full_path@,
                                    metadata.vaults@[v as int].files@[i as int].absolute_root_dir@,
                                ));
                            }
                            return Err(e);
                        },
                    };
                    files.push(
                        FileMetadata {
                            full_path: new_path,
                            root_directory: f.root_directory.clone(),
                            absolute_root_dir: root.clone(),
                            modified_time: f.modified_time,
                            file_size: f.file_size,
                            vault_id: f.vault_id,
                            file_id: f.file_id,
                        },
                    );
                    i = i + 1;
                }
            },
        }
        out.push(crate::records::VaultMetadata { files, vault_id: vault.vault_id });
        v = v + 1;
    }
    metadata.vaults = out;
    Ok(())
}

/// The record as the authoritative side stores it: a sentinel identifier is
/// replaced by the vault's next free one, an assigned identifier is kept.
pub open spec fn assigned_record(s: Seq<FileMetadata>, rec: FileMetadata) -> FileMetadata {
    if rec.file_id == -1 {
        FileMetadata { file_id: alloc_base(s, rec.vault_id as int) as i32, ..rec }
    } else {
        rec
    }
}

/// The store after authoritatively applying each pushed record in order.
pub open spec fn apply_push(s: Seq<FileMetadata>, recs: Seq<FileMetadata>) -> Seq<FileMetadata>
    decreases recs.len(),
{
    if recs.len() == 0 {
        s
    } else {
        let mid = apply_push(s, recs.drop_last());
        upsert_one(mid, assigned_record(mid, recs.last()))
    }
}

/// Whether applying each pushed record stays free of identifier conflicts
/// and identifier exhaustion.
pub open spec fn push_ok(s: Seq<FileMetadata>, recs: Seq<FileMetadata>) -> bool
    decreases recs.len(),
{
    if recs.len() == 0 {
        true
    } else {
        let mid = apply_push(s, recs.drop_last());
        &&& push_ok(s, recs.drop_last())
        &&& (recs.last().file_id == -1 ==> alloc_base(mid, recs.last().vault_id as int)
            <= 0x7fff_ffff)
        &&& !upsert_conflict(mid, assigned_record(mid, recs.last()))
    }
}

/// Authoritatively applies a client's pushed diff to the server's store,
/// assigning a real identifier to every record that still carries the
/// sentinel — the point at which client-originated new files become
/// identified.
///
/// Fails with [`SyncError::IdentityConflict`] when a pushed record's
/// assigned identifier is already held by a different path of its vault,
/// and with [`SyncError::StoreError`] when a vault's identifier space is
/// exhausted; records applied before the failing one stay applied.
pub fn insert_new_metadata_into_db(store: &mut MetadataStore, client_blob: &MetadataBlob) -> (r:
    Result<(), SyncError>)
    ensures
        r is Ok <==> push_ok(old(store).records@, flat_files(client_blob.vaults@)),
        r is Ok ==> final(store).records@ == apply_push(
            old(store).records@,
            flat_files(client_blob.vaults@),
        ),
        r matches Err(e) ==> e == SyncError::IdentityConflict || e == SyncError::StoreError,
        old(store).wf() ==> final(store).wf(),
{
    let files = crate::records::convert_blob_to_vec_metadata(client_blob);
    let ghost orig = store.records@;
    let mut done: usize = 0;
    proof {
        assert(files@.subrange(0, 0) =~= Seq::<FileMetadata>::empty());
    }
    while done < files.len()
        invariant
            done <= files@.len(),
            files@ == flat_files(client_blob.vaults@),
            store.records@ == apply_push(orig, files@.subrange(0, done as int)),
            push_ok(orig, files@.subrange(0, done as int)),
            old(store).wf() ==> store.wf(),
            orig == old(store).records@,
        decreases files@.len() - done,
    {
        proof {
            let pre = files@.subrange(0, done as int + 1);
            assert(pre.drop_last() =~= files@.subrange(0, done as int));
            assert(pre.last() == files@[done as int]);
        }
        let rec = files[done].duplicate();
        let rec = if rec.file_id == -1 {
            let base = match store.max_id(rec.vault_id) {
                Some(m) => {
                    if m == 0x7fff_ffff {
                        proof {
                            let pre = files@.subrange(0, done as int + 1);
                            assert(pre.drop_last() =~= files@.subrange(0, done as int));
                            assert(pre.last() == files@[done as int]);
                            assert(!push_ok(orig, pre));
                            lemma_push_ok_prefix(orig, files@, done as int + 1);
                        }
                        return Err(SyncError::StoreError);
                    }
                    m + 1
                },
                None => 0,
            };
            FileMetadata {
                full_path: rec.full_path,
                root_directory: rec.root_directory,
                absolute_root_dir: rec.absolute_root_dir,
                modified_time: rec.modified_time,
                file_size: rec.file_size,
                vault_id: rec.vault_id,
                file_id: base,
            }
        } else {
            rec
        };
        let ghost grec = rec;
        proof {
            assert(grec == assigned_record(store.records@, files@[done as int]));
        }
        match store.upsert(rec) {
            Ok(_) => {},
            Err(e) => {
                proof {
                    let pre = files@.subrange(0, done as int + 1);
                    assert(pre.drop_last() =~= files@.subrange(0, done as int));
                    assert(pre.last() == files@[done as int]);
                    assert(!push_ok(orig, pre));
                    lemma_push_ok_prefix(orig, files@, done as int + 1);
                }
                return Err(e);
            },
        }
        done = done + 1;
    }
    proof {
        assert(files@.subrange(0, files@.len() as int) =~= files@);
    }
    Ok(())
}

/// When a prefix of the pushed records already fails, the whole push does.
proof fn lemma_push_ok_prefix(s: Seq<FileMetadata>, recs: Seq<FileMetadata>, n: int)
    requires
        0 <= n <= recs.len(),
        !push_ok(s, recs.subrange(0, n)),
    ensures
        !push_ok(s, recs),
    decreases recs.len() - n,
{
    if n < recs.len() {
        let pre = recs.subrange(0, n + 1);
        assert(pre.drop_last() =~= recs.subrange(0, n));
        lemma_push_ok_prefix(s, recs, n + 1);
    } else {
        assert(recs.subrange(0, n) =~= recs);
    }
}

} // verus!
