//! The local metadata scanner: reconciling what is on disk with what the
//! store records.
//!
//! The caller walks a vault's root and hands the scanner one entry per file,
//! with the modification time and size read fresh from disk.  The scanner
//! prunes store records whose file is gone, assigns identifiers to files the
//! store does not know (really assigning them only on the authoritative
//! side), and upserts every entry, producing the vault's snapshot.

use vstd::prelude::*;

verus! {

use crate::errors::SyncError;
use crate::records::{FileMetadata, MetadataBlob, VaultMetadata};
use crate::store::{
    alloc_base, apply_upserts, first_in_vault_with_path, upserts_ok, MetadataStore,
};

/// Whether this replica may assign new file identifiers.
///
/// Only the server role assigns; a client leaves new files at the sentinel
/// `-1` for the server to resolve.
#[derive(Clone, Copy, Debug, PartialEq, Eq, Structural)]
pub enum AllocationRole {
    /// The server role: new files get the next free identifier at once.
    Authoritative,
    /// The client role: new files keep the sentinel identifier.
    NonAuthoritative,
}

/// One file as the directory walk reports it.
#[derive(Debug, Clone)]
pub struct DiskEntry {
    /// The file's absolute path on this replica.
    pub path: String,
    /// Seconds since the epoch, at whole-second precision.
    pub modified_time: i64,
    /// Size in bytes.
    pub file_size: i64,
}

impl DiskEntry {
    /// A field-for-field copy.
    pub fn duplicate(&self) -> (r: DiskEntry)
        ensures
            r == *self,
    {
        DiskEntry {
            path: self.path.clone(),
            modified_time: self.modified_time,
            file_size: self.file_size,
        }
    }
}

/// One row of the persisted record table, as the caller reads it back.
#[derive(Debug, Clone)]
pub struct MetadataRow {
    /// Vault-scoped identifier; `-1` while unassigned.
    pub file_id: i32,
    /// The vault the file belongs to.
    pub vault_id: i32,
    /// The file's absolute path on this replica.
    pub file_path: String,
    /// Name of the vault's root directory.
    pub root_directory: String,
    /// Seconds since the epoch, at whole-second precision.
    pub modified_time: i64,
    /// Size in bytes.
    pub file_size: i64,
}

/// Whether some path of `paths` reads `p`.
pub open spec fn paths_contain(paths: Seq<String>, p: Seq<char>) -> bool {
    exists|i: int| 0 <= i < paths.len() && (#[trigger] paths[i])@ == p
}

/// The record list with every record of the vault dropped whose path is not
/// among `keep`.
pub open spec fn prune_vault(
    s: Seq<FileMetadata>,
    vault_id: int,
    keep: Seq<String>,
) -> Seq<FileMetadata>
    decreases s.len(),
{
    if s.len() == 0 {
        Seq::empty()
    } else {
        prune_vault(s.drop_last(), vault_id, keep) + (if s.last().vault_id as int != vault_id
            || paths_contain(keep, s.last().full_path@) {
            seq![s.last()]
        } else {
            Seq::empty()
        })
    }
}

/// Every pruned record is one of the original records.
proof fn lemma_prune_vault_members(s: Seq<FileMetadata>, vault_id: int, keep: Seq<String>)
    ensures
        forall|x: FileMetadata|
            #[trigger] prune_vault(s, vault_id, keep).contains(x) ==> s.contains(x),
    decreases s.len(),
{
    if s.len() > 0 {
        lemma_prune_vault_members(s.drop_last(), vault_id, keep);
        let t = prune_vault(s, vault_id, keep);
        assert forall|x: FileMetadata| #[trigger] t.contains(x) implies s.contains(x) by {
            let rest = prune_vault(s.drop_last(), vault_id, keep);
            let i = choose|i: int| 0 <= i < t.len() && t[i] == x;
            if i < rest.len() {
                assert(rest.contains(x));
                let j = choose|j: int| 0 <= j < s.drop_last().len() && s.drop_last()[j] == x;
                assert(s[j] == x);
            } else {
                assert(x == s.last());
                assert(s[s.len() - 1] == x);
            }
        }
    }
}

/// Removes from the store every record of the vault whose file the walk no
/// longer found on disk.
///
/// This runs before identifier assignment, so that a file deleted and then
/// recreated gets a fresh record rather than inheriting the deleted one's
/// metadata.
pub fn remove_old_entries_from_db(
    store: &mut MetadataStore,
    vault_id: i32,
    disk_paths: &Vec<String>,
) -> (r: Result<(), SyncError>)
    ensures
        r is Ok,
        final(store).records@ == prune_vault(
            old(store).records@,
            vault_id as int,
            disk_paths@,
        ),
        old(store).wf() ==> final(store).wf(),
{
    let ghost orig = store.records@;
    let mut out: Vec<FileMetadata> = Vec::new();
    let mut k: usize = 0;
    proof {
        assert(orig.subrange(0, 0) =~= Seq::<FileMetadata>::empty());
    }
    while k < store.records.len()
        invariant
            k <= store.records@.len(),
            store.records@ == orig,
            out@ == prune_vault(orig.subrange(0, k as int), vault_id as int, disk_paths@),
        decreases store.records@.len() - k,
    {
        let rec = &store.records[k];
        if rec.vault_id != vault_id {
            out.push(rec.duplicate());
        } else {
            let mut found = false;
            let mut j: usize = 0;
            while j < disk_paths.len()
                invariant
                    j <= disk_paths@.len(),
                    k < store.records@.len(),
                    store.records@ == orig,
                    found ==> paths_contain(disk_paths@, orig[k as int].full_path@),
                    !found ==> (forall|i: int|
                        0 <= i < j ==> (#[trigger] disk_paths@[i])@ != orig[k as int].full_path@),
                decreases disk_paths@.len() - j,
            {
                if !found && disk_paths[j].eq(&store.records[k].full_path) {
                    found = true;
                }
                j = j + 1;
            }
            if found {
                out.push(store.records[k].duplicate());
            }
        }
        proof {
            let pre = orig.subrange(0, k + 1 as int);
            assert(pre.drop_last() =~= orig.subrange(0, k as int));
            assert(pre.last() == orig[k as int]);
            assert(out@ =~= prune_vault(pre, vault_id as int, disk_paths@));
        }
        k = k + 1;
    }
    proof {
        assert(orig.subrange(0, orig.len() as int) =~= orig);
    }
    store.records = out;
    proof {
        if crate::store::store_wf(orig) {
            lemma_prune_vault_preserves_wf(orig, vault_id as int, disk_paths@);
        }
    }
    Ok(())
}

/// Pruning keeps the store invariant.
proof fn lemma_prune_vault_preserves_wf(s: Seq<FileMetadata>, vault_id: int, keep: Seq<String>)
    requires
        crate::store::store_wf(s),
    ensures
        crate::store::store_wf(prune_vault(s, vault_id, keep)),
    decreases s.len(),
{
    if s.len() > 0 {
        let rest = s.drop_last();
        assert forall|i: int| 0 <= i < rest.len() implies rest[i] == s[i] by {}
        lemma_prune_vault_preserves_wf(rest, vault_id, keep);
        lemma_prune_vault_members(rest, vault_id, keep);
        let p = prune_vault(rest, vault_id, keep);
        let t = prune_vault(s, vault_id, keep);
        if t.len() > p.len() {
            assert(t == p + seq![s.last()]);
            assert forall|a: int, b: int|
                0 <= a < b < t.len() && (#[trigger] t[a]).vault_id == (#[trigger] t[b]).vault_id
                    implies t[a].full_path@ != t[b].full_path@ by {
                if b < p.len() {
                    assert(t[a] == p[a] && t[b] == p[b]);
                } else {
                    assert(t[b] == s.last());
                    assert(t[a] == p[a]);
                    assert(p.contains(p[a]));
                    assert(rest.contains(p[a]));
                    let w = choose|w: int| 0 <= w < rest.len() && rest[w] == p[a];
                    assert(s[w] == p[a]);
                    assert(s.last() == s[s.len() - 1]);
                }
            }
            assert forall|a: int, b: int|
                0 <= a < b < t.len() && (#[trigger] t[a]).vault_id == (#[trigger] t[b]).vault_id
                    && t[a].file_id != -1 implies t[a].file_id != t[b].file_id by {
                if b < p.len() {
                    assert(t[a] == p[a] && t[b] == p[b]);
                } else {
                    assert(t[b] == s.last());
                    assert(t[a] == p[a]);
                    assert(p.contains(p[a]));
                    assert(rest.contains(p[a]));
                    let w = choose|w: int| 0 <= w < rest.len() && rest[w] == p[a];
                    assert(s[w] == p[a]);
                    assert(s.last() == s[s.len() - 1]);
                }
            }
        } else {
            assert(t == p);
        }
    }
}

/// How many of the first `i` disk entries are new to the vault: their path
/// has no record in `s`.
pub open spec fn new_before(s: Seq<FileMetadata>, vault_id: int, disk: Seq<DiskEntry>, i: int) -> int
    decreases i,
{
    if i <= 0 {
        0
    } else {
        new_before(s, vault_id, disk, i - 1) + (if first_in_vault_with_path(
            s,
            vault_id,
            disk[i - 1].path@,
        ) is None {
            1int
        } else {
            0int
        })
    }
}

/// The number of new entries never drops and grows by at most one per entry.
proof fn lemma_new_before_bounds(s: Seq<FileMetadata>, vault_id: int, disk: Seq<DiskEntry>, i: int)
    requires
        0 <= i <= disk.len(),
    ensures
        0 <= new_before(s, vault_id, disk, i) <= i,
    decreases i,
{
    if i > 0 {
        lemma_new_before_bounds(s, vault_id, disk, i - 1);
    }
}

/// The identifier the scan gives the `i`-th disk entry: the stored one when
/// the vault knows the path, the next free one on the authoritative side,
/// and the sentinel otherwise.
pub open spec fn scanned_id(
    s: Seq<FileMetadata>,
    vault_id: int,
    disk: Seq<DiskEntry>,
    role: AllocationRole,
    i: int,
) -> int {
    match first_in_vault_with_path(s, vault_id, disk[i].path@) {
        Some(j) => s[j].file_id as int,
        None => if role == AllocationRole::Authoritative {
            alloc_base(s, vault_id) + new_before(s, vault_id, disk, i)
        } else {
            -1
        },
    }
}

/// Pairs each path on disk with its identifier, assigning fresh identifiers
/// to new paths on the authoritative side and the sentinel on a client.
///
/// Fresh identifiers count up from one past the vault's greatest assigned
/// identifier, so no two new files collide.
pub fn assign_file_ids(
    store: &MetadataStore,
    vault_id: i32,
    disk: &Vec<DiskEntry>,
    role: AllocationRole,
) -> (r: Vec<(i32, String)>)
    requires
        role == AllocationRole::Authoritative ==> alloc_base(store.records@, vault_id as int)
            + disk@.len() <= 0x7fff_ffff + 1,
    ensures
        r@.len() == disk@.len(),
        forall|i: int| 0 <= i < disk@.len() ==> (#[trigger] r@[i]).1 == disk@[i].path,
        forall|i: int|
            0 <= i < disk@.len() ==> (#[trigger] r@[i]).0 as int == scanned_id(
                store.records@,
                vault_id as int,
                disk@,
                role,
                i,
            ),
{
    let mut out: Vec<(i32, String)> = Vec::new();
    let mut next: i64 = match store.max_id(vault_id) {
        Some(m) => (m as i64) + 1,
        None => 0,
    };
    let mut k: usize = 0;
    while k < disk.len()
        invariant
            k <= disk@.len(),
            out@.len() == k,
            role == AllocationRole::Authoritative ==> next == alloc_base(
                store.records@,
                vault_id as int,
            ) + new_before(store.records@, vault_id as int, disk@, k as int),
            role == AllocationRole::Authoritative ==> alloc_base(store.records@, vault_id as int)
                + disk@.len() <= 0x7fff_ffff + 1,
            forall|i: int| 0 <= i < k ==> (#[trigger] out@[i]).1 == disk@[i].path,
            forall|i: int|
                0 <= i < k ==> (#[trigger] out@[i]).0 as int == scanned_id(
                    store.records@,
                    vault_id as int,
                    disk@,
                    role,
                    i,
                ),
        decreases disk@.len() - k,
    {
        let entry = &disk[k];
        match store.find_index_by_path(vault_id, &entry.path) {
            Some(j) => {
                out.push((store.records[j].file_id, entry.path.clone()));
            },
            None => {
                match role {
                    AllocationRole::Authoritative => {
                        proof {
                            lemma_new_before_bounds(
                                store.records@,
                                vault_id as int,
                                disk@,
                                k as int,
                            );
                            lemma_vault_max_id_in_range(store.records@, vault_id as int);
                        }
                        let id: i32 = next as i32;
                        out.push((id, entry.path.clone()));
                        next = next + 1;
                    },
                    AllocationRole::NonAuthoritative => {
                        out.push((-1i32, entry.path.clone()));
                        proof {
                            lemma_new_before_bounds(
                                store.records@,
                                vault_id as int,
                                disk@,
                                k as int,
                            );
                        }
                    },
                }
            },
        }
        k = k + 1;
    }
    out
}

/// The allocation base is one past some stored identifier or zero, so it
/// stays within one step of the identifier type's range.
proof fn lemma_vault_max_id_in_range(s: Seq<FileMetadata>, vault_id: int)
    ensures
        -0x8000_0000 < alloc_base(s, vault_id) <= 0x8000_0000,
    decreases s.len(),
{
    if s.len() > 0 {
        lemma_vault_max_id_in_range(s.drop_last(), vault_id);
    }
}

/// Builds the vault's records from the walked paths with their identifiers
/// and the stat data read from disk.
pub fn get_file_metadata_from_path(
    entries: Vec<(i32, DiskEntry)>,
    root_dir: String,
    absolute_root_dir: String,
    vault_id: i32,
) -> (r: Vec<FileMetadata>)
    ensures
        r@.len() == entries@.len(),
        forall|i: int|
            0 <= i < entries@.len() ==> (#[trigger] r@[i]) == (FileMetadata {
                full_path: entries@[i].1.path,
                root_directory: root_dir,
                absolute_root_dir: absolute_root_dir,
                modified_time: entries@[i].1.modified_time,
                file_size: entries@[i].1.file_size,
                vault_id: vault_id,
                file_id: entries@[i].0,
            }),
{
    let mut out: Vec<FileMetadata> = Vec::new();
    let mut k: usize = 0;
    while k < entries.len()
        invariant
            k <= entries@.len(),
            out@.len() == k,
            forall|i: int|
                0 <= i < k ==> (#[trigger] out@[i]) == (FileMetadata {
                    full_path: entries@[i].1.path,
                    root_directory: root_dir,
                    absolute_root_dir: absolute_root_dir,
                    modified_time: entries@[i].1.modified_time,
                    file_size: entries@[i].1.file_size,
                    vault_id: vault_id,
                    file_id: entries@[i].0,
                }),
        decreases entries@.len() - k,
    {
        let (file_id, entry) = (&entries[k].0, &entries[k].1);
        out.push(FileMetadata {
            full_path: entry.path.clone(),
            root_directory: root_dir.clone(),
            absolute_root_dir: absolute_root_dir.clone(),
            modified_time: entry.modified_time,
            file_size: entry.file_size,
            vault_id,
            file_id: *file_id,
        });
        k = k + 1;
    }
    out
}

/// Turns persisted rows back into records, all rooted at the vault's root on
/// this replica.
pub fn map_metadata_query_to_blob(rows: Vec<MetadataRow>, absolute_root_dir: &String) -> (r: Vec<
    FileMetadata,
>)
    ensures
        r@.len() == rows@.len(),
        forall|i: int|
            0 <= i < rows@.len() ==> (#[trigger] r@[i]) == (FileMetadata {
                full_path: rows@[i].file_path,
                root_directory: rows@[i].root_directory,
                absolute_root_dir: *absolute_root_dir,
                modified_time: rows@[i].modified_time,
                file_size: rows@[i].file_size,
                vault_id: rows@[i].vault_id,
                file_id: rows@[i].file_id,
            }),
{
    let mut out: Vec<FileMetadata> = Vec::new();
    let mut k: usize = 0;
    while k < rows.len()
        invariant
            k <= rows@.len(),
            out@.len() == k,
            forall|i: int|
                0 <= i < k ==> (#[trigger] out@[i]) == (FileMetadata {
                    full_path: rows@[i].file_path,
                    root_directory: rows@[i].root_directory,
                    absolute_root_dir: *absolute_root_dir,
                    modified_time: rows@[i].modified_time,
                    file_size: rows@[i].file_size,
                    vault_id: rows@[i].vault_id,
                    file_id: rows@[i].file_id,
                }),
        decreases rows@.len() - k,
    {
        let row = &rows[k];
        out.push(FileMetadata {
            full_path: row.file_path.clone(),
            root_directory: row.root_directory.clone(),
            absolute_root_dir: absolute_root_dir.clone(),
            modified_time: row.modified_time,
            file_size: row.file_size,
            vault_id: row.vault_id,
            file_id: row.file_id,
        });
        k = k + 1;
    }
    out
}

/// Assembles a whole-replica blob from each vault's persisted rows.
pub fn build_metadata_blob(vault_rows: Vec<(i32, String, Vec<MetadataRow>)>) -> (r: MetadataBlob)
    ensures
        r.vaults@.len() == vault_rows@.len(),
        forall|v: int|
            0 <= v < vault_rows@.len() ==> {
                &&& (#[trigger] r.vaults@[v]).vault_id == vault_rows@[v].0
                &&& r.vaults@[v].files@.len() == vault_rows@[v].2@.len()
                &&& forall|i: int|
                    0 <= i < vault_rows@[v].2@.len() ==> (#[trigger] r.vaults@[v].files@[i]) == (
                    FileMetadata {
                        full_path: vault_rows@[v].2@[i].file_path,
                        root_directory: vault_rows@[v].2@[i].root_directory,
                        absolute_root_dir: vault_rows@[v].1,
                        modified_time: vault_rows@[v].2@[i].modified_time,
                        file_size: vault_rows@[v].2@[i].file_size,
                        vault_id: vault_rows@[v].2@[i].vault_id,
                        file_id: vault_rows@[v].2@[i].file_id,
                    })
            },
{
    let mut vaults: Vec<VaultMetadata> = Vec::new();
    let len = vault_rows.len();
    let mut rest = vault_rows;
    let ghost orig = rest@;
    while vaults.len() < len
        invariant
            len == orig.len(),
            vaults@.len() + rest@.len() == len,
            rest@ == orig.skip(vaults@.len() as int),
            forall|v: int|
                0 <= v < vaults@.len() ==> {
                    &&& (#[trigger] vaults@[v]).vault_id == orig[v].0
                    &&& vaults@[v].files@.len() == orig[v].2@.len()
                    &&& forall|i: int|
                        0 <= i < orig[v].2@.len() ==> (#[trigger] vaults@[v].files@[i]) == (
                        FileMetadata {
                            full_path: orig[v].2@[i].file_path,
                            root_directory: orig[v].2@[i].root_directory,
                            absolute_root_dir: orig[v].1,
                            modified_time: orig[v].2@[i].modified_time,
                            file_size: orig[v].2@[i].file_size,
                            vault_id: orig[v].2@[i].vault_id,
                            file_id: orig[v].2@[i].file_id,
                        })
                },
        decreases rest@.len(),
    {
        proof {
            assert(rest@[0] == orig[vaults@.len() as int]);
            assert(rest@.remove(0) =~= orig.skip(vaults@.len() as int + 1));
        }
        let (vault_id, absolute_root_dir, rows) = rest.remove(0);
        let files = map_metadata_query_to_blob(rows, &absolute_root_dir);
        vaults.push(VaultMetadata { files, vault_id });
    }
    MetadataBlob { vaults }
}

/// The records one scan of the vault produces: one per disk entry, with
/// fresh time and size from disk and the identifier the scan assigns.
pub open spec fn scanned_files(
    pruned: Seq<FileMetadata>,
    vault_id: i32,
    root_dir: String,
    absolute_root_dir: String,
    disk: Seq<DiskEntry>,
    role: AllocationRole,
) -> Seq<FileMetadata> {
    Seq::new(
        disk.len(),
        |i: int|
            FileMetadata {
                full_path: disk[i].path,
                root_directory: root_dir,
                absolute_root_dir: absolute_root_dir,
                modified_time: disk[i].modified_time,
                file_size: disk[i].file_size,
                vault_id: vault_id,
                file_id: scanned_id(pruned, vault_id as int, disk, role, i) as i32,
            },
    )
}

/// Scans one vault: prunes records of deleted files, assigns identifiers,
/// refreshes every entry's time and size in the store, and returns the
/// resulting snapshot.
///
/// Fails with [`SyncError::IdentityConflict`] exactly when writing the
/// refreshed records back would give one assigned identifier to two paths of
/// the vault; the store keeps the records already written, each of which is
/// individually consistent.
pub fn scan_vault(
    store: &mut MetadataStore,
    vault_id: i32,
    root_dir: String,
    absolute_root_dir: String,
    disk: &Vec<DiskEntry>,
    role: AllocationRole,
) -> (r: Result<VaultMetadata, SyncError>)
    requires
        role == AllocationRole::Authoritative ==> alloc_base(
            prune_vault(
                old(store).records@,
                vault_id as int,
                disk@.map_values(|e: DiskEntry| e.path),
            ),
            vault_id as int,
        ) + disk@.len() <= 0x7fff_ffff + 1,
    ensures
        ({
            let pruned = prune_vault(
                old(store).records@,
                vault_id as int,
                disk@.map_values(|e: DiskEntry| e.path),
            );
            let scanned = scanned_files(pruned, vault_id, root_dir, absolute_root_dir, disk@, role);
            &&& (r is Ok <==> upserts_ok(pruned, scanned))
            &&& (r matches Ok(vm) ==> vm.vault_id == vault_id && vm.files@ == scanned
                && final(store).records@ == apply_upserts(pruned, scanned))
            &&& (r matches Err(e) ==> e == SyncError::IdentityConflict)
            &&& (old(store).wf() ==> final(store).wf())
        }),
{
    let ghost pruned = prune_vault(
        old(store).records@,
        vault_id as int,
        disk@.map_values(|e: DiskEntry| e.path),
    );
    let ghost scanned = scanned_files(
        pruned,
        vault_id,
        root_dir,
        absolute_root_dir,
        disk@,
        role,
    );
    let mut disk_paths: Vec<String> = Vec::new();
    let mut k: usize = 0;
    while k < disk.len()
        invariant
            k <= disk@.len(),
            disk_paths@.len() == k,
            forall|i: int| 0 <= i < k ==> (#[trigger] disk_paths@[i]) == disk@[i].path,
        decreases disk@.len() - k,
    {
        disk_paths.push(disk[k].path.clone());
        k = k + 1;
    }
    proof {
        assert(disk_paths@ =~= disk@.map_values(|e: DiskEntry| e.path));
    }
    match remove_old_entries_from_db(store, vault_id, &disk_paths) {
        Ok(()) => {},
        Err(e) => {
            return Err(e);
        },
    }
    let with_ids = assign_file_ids(store, vault_id, disk, role);
    let mut entries: Vec<(i32, DiskEntry)> = Vec::new();
    let mut k2: usize = 0;
    while k2 < disk.len()
        invariant
            k2 <= disk@.len(),
            with_ids@.len() == disk@.len(),
            entries@.len() == k2,
            forall|i: int|
                0 <= i < k2 ==> (#[trigger] entries@[i]).0 == with_ids@[i].0 && entries@[i].1
                    == disk@[i],
        decreases disk@.len() - k2,
    {
        let id = with_ids[k2].0;
        entries.push((id, disk[k2].duplicate()));
        k2 = k2 + 1;
    }
    let files = get_file_metadata_from_path(
        entries,
        root_dir.clone(),
        absolute_root_dir.clone(),
        vault_id,
    );
    proof {
        lemma_new_before_bounds(pruned, vault_id as int, disk@, disk@.len() as int);
        lemma_vault_max_id_in_range(pruned, vault_id as int);
        assert forall|i: int| 0 <= i < disk@.len() implies files@[i] == scanned[i] by {
            assert(with_ids@[i].0 as int == scanned_id(pruned, vault_id as int, disk@, role, i));
        }
        assert(files@ =~= scanned);
    }
    let snapshot = crate::records::clone_metadata_vec(&files);
    match crate::store::upsert_database(store, files) {
        Ok(()) => Ok(VaultMetadata { files: snapshot, vault_id }),
        Err(e) => Err(e),
    }
}

} // verus!
