//! Client-side snapshot loading: turning the client's stored records into
//! the blob it sends the server, with provisional identifiers for records
//! that still carry the sentinel.
//!
//! The client may not assign identifiers itself, but when it has fetched the
//! server's greatest identifier it numbers its sentinel records past that
//! value for the round, so the server can tell the new files apart; the
//! store itself is left untouched until the server answers with the
//! authoritative assignment.

use vstd::prelude::*;

verus! {

use crate::records::{FileMetadata, MetadataBlob, VaultMetadata};
use crate::store::{in_vault_seq, MetadataStore};

/// How many of the first `i` records still carry the sentinel identifier.
pub open spec fn sentinels_before(files: Seq<FileMetadata>, i: int) -> int
    decreases i,
{
    if i <= 0 {
        0
    } else {
        sentinels_before(files, i - 1) + (if files[i - 1].file_id == -1 {
            1int
        } else {
            0int
        })
    }
}

/// The sentinel count grows by at most one per record.
pub proof fn lemma_sentinels_before_bounds(files: Seq<FileMetadata>, i: int)
    requires
        0 <= i <= files.len(),
    ensures
        0 <= sentinels_before(files, i) <= i,
        sentinels_before(files, i) <= sentinels_before(files, files.len() as int),
    decreases files.len() - i,
{
    lemma_sentinels_before_nonneg(files, i);
    if i < files.len() {
        lemma_sentinels_before_bounds(files, i + 1);
    }
}

/// The sentinel count is non-negative and bounded by the prefix length.
proof fn lemma_sentinels_before_nonneg(files: Seq<FileMetadata>, i: int)
    requires
        0 <= i,
    ensures
        0 <= sentinels_before(files, i) <= i,
    decreases i,
{
    if i > 0 {
        lemma_sentinels_before_nonneg(files, i - 1);
    }
}

/// The identifier a record gets for the round: its own when assigned, else
/// the next provisional one past `latest`.
pub open spec fn refreshed_id(files: Seq<FileMetadata>, latest: int, i: int) -> int {
    if files[i].file_id == -1 {
        latest + 1 + sentinels_before(files, i)
    } else {
        files[i].file_id as int
    }
}

/// Rebuilds one vault's stored records for sending, giving each sentinel
/// record the next provisional identifier past `latest_file_id`.  Returns
/// the last identifier handed out and the records.
pub fn build_file_metadata_for_vault(
    vault: i32,
    rows: Vec<FileMetadata>,
    latest_file_id: i32,
    absolute_root_dir: String,
) -> (r: (i32, Vec<FileMetadata>))
    requires
        latest_file_id as int + sentinels_before(rows@, rows@.len() as int) <= 0x7fff_ffff,
    ensures
        r.0 as int == latest_file_id as int + sentinels_before(rows@, rows@.len() as int),
        r.1@.len() == rows@.len(),
        forall|i: int|
            0 <= i < rows@.len() ==> (#[trigger] r.1@[i]) == (FileMetadata {
                full_path: rows@[i].full_path,
                root_directory: rows@[i].root_directory,
                absolute_root_dir: absolute_root_dir,
                modified_time: rows@[i].modified_time,
                file_size: rows@[i].file_size,
                vault_id: vault,
                file_id: refreshed_id(rows@, latest_file_id as int, i) as i32,
            }),
{
    let mut out: Vec<FileMetadata> = Vec::new();
    let mut id: i32 = latest_file_id;
    let mut k: usize = 0;
    while k < rows.len()
        invariant
            k <= rows@.len(),
            out@.len() == k,
            id as int == latest_file_id as int + sentinels_before(rows@, k as int),
            latest_file_id as int + sentinels_before(rows@, rows@.len() as int) <= 0x7fff_ffff,
            forall|i: int|
                0 <= i < k ==> (#[trigger] out@[i]) == (FileMetadata {
                    full_path: rows@[i].full_path,
                    root_directory: rows@[i].root_directory,
                    absolute_root_dir: absolute_root_dir,
                    modified_time: rows@[i].modified_time,
                    file_size: rows@[i].file_size,
                    vault_id: vault,
                    file_id: refreshed_id(rows@, latest_file_id as int, i) as i32,
                }),
        decreases rows@.len() - k,
    {
        let row = &rows[k];
        proof {
            lemma_sentinels_before_bounds(rows@, k as int + 1);
            lemma_sentinels_before_bounds(rows@, k as int);
        }
        let file_id: i32 = if row.file_id == -1 {
            id = id + 1;
            id
        } else {
            row.file_id
        };
        out.push(FileMetadata {
            full_path: row.full_path.clone(),
            root_directory: row.root_directory.clone(),
            absolute_root_dir: absolute_root_dir.clone(),
            modified_time: row.modified_time,
            file_size: row.file_size,
            vault_id: vault,
            file_id,
        });
        k = k + 1;
    }
    (id, out)
}

/// The identifier the refresh has reached after the first `v` vaults.
pub open spec fn refreshed_base(
    records: Seq<FileMetadata>,
    vaults: Seq<(i32, String)>,
    v: int,
    start: int,
) -> int
    decreases v,
{
    if v <= 0 {
        start
    } else {
        let files = in_vault_seq(records, vaults[v - 1].0 as int);
        refreshed_base(records, vaults, v - 1, start) + sentinels_before(
            files,
            files.len() as int,
        )
    }
}

/// The refresh base never drops below its start.
proof fn lemma_refreshed_base_grows(
    records: Seq<FileMetadata>,
    vaults: Seq<(i32, String)>,
    v: int,
    start: int,
)
    requires
        0 <= v,
    ensures
        start <= refreshed_base(records, vaults, v, start),
    decreases v,
{
    if v > 0 {
        lemma_refreshed_base_grows(records, vaults, v - 1, start);
        let files = in_vault_seq(records, vaults[v - 1].0 as int);
        lemma_sentinels_before_nonneg(files, files.len() as int);
    }
}

/// Loads the client's stored records into a blob for sending, one vault
/// snapshot per configured vault, numbering sentinel records past
/// `file_id` — the greatest identifier the server reported.  Returns the
/// last identifier handed out and the blob.
pub fn load_file_metadata(store: &MetadataStore, vaults: &Vec<(i32, String)>, file_id: i32) -> (r: (
    i32,
    MetadataBlob,
))
    requires
        refreshed_base(store.records@, vaults@, vaults@.len() as int, file_id as int)
            <= 0x7fff_ffff,
    ensures
        r.0 as int == refreshed_base(store.records@, vaults@, vaults@.len() as int, file_id as int),
        r.1.vaults@.len() == vaults@.len(),
        forall|v: int|
            0 <= v < vaults@.len() ==> {
                let files = in_vault_seq(store.records@, vaults@[v].0 as int);
                let base = refreshed_base(store.records@, vaults@, v, file_id as int);
                &&& (#[trigger] r.1.vaults@[v]).vault_id == vaults@[v].0
                &&& r.1.vaults@[v].files@.len() == files.len()
                &&& forall|i: int|
                    0 <= i < files.len() ==> (#[trigger] r.1.vaults@[v].files@[i]) == (
                    FileMetadata {
                        full_path: files[i].full_path,
                        root_directory: files[i].root_directory,
                        absolute_root_dir: vaults@[v].1,
                        modified_time: files[i].modified_time,
                        file_size: files[i].file_size,
                        vault_id: vaults@[v].0,
                        file_id: refreshed_id(files, base, i) as i32,
                    })
            },
{
    let mut out: Vec<VaultMetadata> = Vec::new();
    let mut cur_id: i32 = file_id;
    let mut v: usize = 0;
    while v < vaults.len()
        invariant
            v <= vaults@.len(),
            out@.len() == v,
            cur_id as int == refreshed_base(store.records@, vaults@, v as int, file_id as int),
            refreshed_base(store.records@, vaults@, vaults@.len() as int, file_id as int)
                <= 0x7fff_ffff,
            forall|w: int|
                0 <= w < v ==> {
                    let files = in_vault_seq(store.records@, vaults@[w].0 as int);
                    let base = refreshed_base(store.records@, vaults@, w, file_id as int);
                    &&& (#[trigger] out@[w]).vault_id == vaults@[w].0
                    &&& out@[w].files@.len() == files.len()
                    &&& forall|i: int|
                        0 <= i < files.len() ==> (#[trigger] out@[w].files@[i]) == (FileMetadata {
                            full_path: files[i].full_path,
                            root_directory: files[i].root_directory,
                            absolute_root_dir: vaults@[w].1,
                            modified_time: files[i].modified_time,
                            file_size: files[i].file_size,
                            vault_id: vaults@[w].0,
                            file_id: refreshed_id(files, base, i) as i32,
                        })
                },
        decreases vaults@.len() - v,
    {
        let vault_id = vaults[v].0;
        let absolute_root_dir = vaults[v].1.clone();
        let rows = store.all_in_vault(vault_id);
        proof {
            lemma_refreshed_base_middle(store.records@, vaults@, v as int + 1, vaults@.len() as int, file_id as int);
        }
        let (next_id, files) = build_file_metadata_for_vault(
            vault_id,
            rows,
            cur_id,
            absolute_root_dir,
        );
        cur_id = next_id;
        out.push(VaultMetadata { files, vault_id });
        v = v + 1;
    }
    (cur_id, MetadataBlob { vaults: out })
}

/// The refresh base after more vaults is no smaller.
proof fn lemma_refreshed_base_middle(
    records: Seq<FileMetadata>,
    vaults: Seq<(i32, String)>,
    v: int,
    w: int,
    start: int,
)
    requires
        0 <= v <= w,
    ensures
        refreshed_base(records, vaults, v, start) <= refreshed_base(records, vaults, w, start),
    decreases w - v,
{
    if v < w {
        lemma_refreshed_base_middle(records, vaults, v + 1, w, start);
        let files = in_vault_seq(records, vaults[v].0 as int);
        lemma_sentinels_before_nonneg(files, files.len() as int);
    }
}

} // verus!
