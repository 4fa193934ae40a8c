//! The metadata model: one record per tracked file, grouped into per-vault
//! snapshots and whole-replica blobs.
//!
//! A record's `full_path` is its absolute path on the replica that produced
//! the record; the portion below the vault root is the logical path that must
//! match across replicas.  `file_id` is a vault-scoped identifier assigned by
//! the authoritative side; the sentinel `-1` marks a record whose identifier
//! has not been assigned yet and may repeat within a snapshot, while assigned
//! identifiers are unique within their vault.

use vstd::prelude::*;

verus! {

use vstd::string::StringExecFns;




/// Metadata of one tracked file, as seen by one replica at one instant.
#[derive(Debug, Clone)]
pub struct FileMetadata {
    /// Absolute path on the replica that produced the record.
    pub full_path: String,
    /// Name of the vault's root directory, identical on every replica.
    pub root_directory: String,
    /// Absolute root of the vault on the replica that produced the record.
    pub absolute_root_dir: String,
    /// Seconds since the epoch, at whole-second precision.
    pub modified_time: i64,
    /// Size in bytes.
    pub file_size: i64,
    /// The vault the file belongs to.
    pub vault_id: i32,
    /// Vault-scoped identifier; `-1` while unassigned.
    pub file_id: i32,
}

impl PartialEq for FileMetadata {
    /// Two records name the same file when they carry the same identifier.
    fn eq(&self, other: &Self) -> (r: bool) {
        self.file_id == other.file_id
    }
}

impl vstd::std_specs::cmp::PartialEqSpecImpl for FileMetadata {
    open spec fn obeys_eq_spec() -> bool {
        true
    }

    open spec fn eq_spec(&self, other: &Self) -> bool {
        self.file_id == other.file_id
    }
}

impl FileMetadata {
    /// A record as the server reports it.
    pub fn new_from_server(
        file_id: i32,
        vault_id: i32,
        file_path: String,
        absolute_root_dir: String,
        root_dir: String,
        mod_time: i64,
        file_size: i64,
    ) -> (r: FileMetadata)
        ensures
            r == (FileMetadata {
                full_path: file_path,
                root_directory: root_dir,
                absolute_root_dir,
                modified_time: mod_time,
                file_size,
                vault_id,
                file_id,
            }),
    {
        FileMetadata {
            full_path: file_path,
            root_directory: root_dir,
            absolute_root_dir,
            modified_time: mod_time,
            file_size,
            vault_id,
            file_id,
        }
    }

    /// A record as a client builds it from its own disk.
    pub fn new_from_client(
        full_path: String,
        root_directory: String,
        absolute_root_dir: String,
        modified_time: i64,
        file_size: i64,
        vault_id: i32,
        file_id: i32,
    ) -> (r: FileMetadata)
        ensures
            r == (FileMetadata {
                full_path,
                root_directory,
                absolute_root_dir,
                modified_time,
                file_size,
                vault_id,
                file_id,
            }),
    {
        FileMetadata {
            full_path,
            root_directory,
            absolute_root_dir,
            modified_time,
            file_size,
            vault_id,
            file_id,
        }
    }

    /// `1` when `self` was modified later than `other`, `-1` when earlier,
    /// `0` when the two carry the same modification time.
    pub fn compare_to(&self, other: &FileMetadata) -> (r: i32)
        ensures
            r == 1 <==> self.modified_time > other.modified_time,
            r == -1 <==> self.modified_time < other.modified_time,
            r == 0 <==> self.modified_time == other.modified_time,
    {
        if self.modified_time > other.modified_time {
            1
        } else if self.modified_time < other.modified_time {
            -1
        } else {
            0
        }
    }

    /// A field-for-field copy, for use where the verifier must know the copy
    /// equals the original.
    pub fn duplicate(&self) -> (r: FileMetadata)
        ensures
            r == *self,
    {
        FileMetadata {
            full_path: self.full_path.clone(),
            root_directory: self.root_directory.clone(),
            absolute_root_dir: self.absolute_root_dir.clone(),
            modified_time: self.modified_time,
            file_size: self.file_size,
            vault_id: self.vault_id,
            file_id: self.file_id,
        }
    }
}

/// A byte-for-byte copy of a buffer.
pub fn clone_bytes(v: &Vec<u8>) -> (r: Vec<u8>)
    ensures
        r@ == v@,
{
    let mut r: Vec<u8> = Vec::new();
    let mut k: usize = 0;
    while k < v.len()
        invariant
            k <= v@.len(),
            r@ == v@.subrange(0, k as int),
        decreases v@.len() - k,
    {
        r.push(v[k]);
        proof {
            assert(r@ =~= v@.subrange(0, k + 1 as int));
        }
        k = k + 1;
    }
    proof {
        assert(r@ =~= v@);
    }
    r
}

/// A file's metadata together with its bytes, as exchanged between replicas.
#[derive(Debug, Clone)]
pub struct RemoteFile {
    /// Absolute path on the replica that produced the value.
    pub full_path: String,
    /// Name of the vault's root directory.
    pub root_directory: String,
    /// Absolute root of the vault on the producing replica.
    pub absolute_root_dir: String,
    /// The file's bytes.
    pub contents: Vec<u8>,
    /// The vault the file belongs to.
    pub vault_id: i32,
    /// Vault-scoped identifier; `-1` while unassigned.
    pub file_id: i32,
    /// Seconds since the epoch, at whole-second precision.
    pub modified_time: i64,
}

impl RemoteFile {
    /// A transferable file built from plain values; the caller supplies the
    /// bytes it read.
    pub fn new(
        path: String,
        absolute_root_dir: String,
        root_dir: String,
        contents: Vec<u8>,
        vault_id: i32,
        file_id: i32,
        modified_time: i64,
    ) -> (r: RemoteFile)
        ensures
            r == (RemoteFile {
                full_path: path,
                root_directory: root_dir,
                absolute_root_dir,
                contents,
                vault_id,
                file_id,
                modified_time,
            }),
    {
        RemoteFile {
            full_path: path,
            root_directory: root_dir,
            absolute_root_dir,
            contents,
            vault_id,
            file_id,
            modified_time,
        }
    }

    /// A file value with no bytes and no timestamp.
    pub fn new_empty(path: String, root_dir: String, vault_id: i32, file_id: i32) -> (r: RemoteFile)
        ensures
            r.full_path == path,
            r.root_directory == root_dir,
            r.absolute_root_dir@ == Seq::<char>::empty(),
            r.contents@ == Seq::<u8>::empty(),
            r.vault_id == vault_id,
            r.file_id == file_id,
            r.modified_time == 0,
    {
        RemoteFile {
            full_path: path,
            root_directory: root_dir,
            absolute_root_dir: String::new(),
            contents: Vec::new(),
            vault_id,
            file_id,
            modified_time: 0,
        }
    }

    /// The file's bytes.
    pub fn get_contents(file: &Self) -> (r: &Vec<u8>)
        ensures
            r == &file.contents,
    {
        &file.contents
    }

    /// The vault the file belongs to.
    pub fn get_vault_id(file: &Self) -> (r: i32)
        ensures
            r == file.vault_id,
    {
        file.vault_id
    }

    /// The name of the vault's root directory.
    pub fn get_root_dir(file: &Self) -> (r: String)
        ensures
            r == file.root_directory,
    {
        file.root_directory.clone()
    }
}

/// Well-formedness of one vault's records: every record belongs to the vault,
/// no two records share a path, and no two records share an assigned
/// identifier (the sentinel may repeat).
pub open spec fn vault_files_wf(files: Seq<FileMetadata>, vault_id: int) -> bool {
    &&& forall|i: int| 0 <= i < files.len() ==> (#[trigger] files[i]).vault_id as int == vault_id
    &&& forall|i: int, j: int|
        0 <= i < j < files.len() ==> (#[trigger] files[i]).full_path@ != (
        #[trigger] files[j]).full_path@
    &&& forall|i: int, j: int|
        0 <= i < j < files.len() && (#[trigger] files[i]).file_id != -1 ==> files[i].file_id
            != (#[trigger] files[j]).file_id
}

/// The records of one vault, as seen by one replica at one instant.
#[derive(Debug, Clone)]
pub struct VaultMetadata {
    /// The vault's records.
    pub files: Vec<FileMetadata>,
    /// The vault the records belong to.
    pub vault_id: i32,
}

impl VaultMetadata {
    /// The snapshot's invariant.
    pub open spec fn wf(self) -> bool {
        vault_files_wf(self.files@, self.vault_id as int)
    }

    /// A copy of the vault's records.
    pub fn get_metadata_vec(&self) -> (r: Vec<FileMetadata>)
        ensures
            r@ == self.files@,
    {
        clone_metadata_vec(&self.files)
    }

    /// A field-for-field copy.
    pub fn duplicate(&self) -> (r: VaultMetadata)
        ensures
            r.files@ == self.files@,
            r.vault_id == self.vault_id,
    {
        VaultMetadata { files: clone_metadata_vec(&self.files), vault_id: self.vault_id }
    }
}

/// A record-for-record copy of a list of records.
pub fn clone_metadata_vec(files: &Vec<FileMetadata>) -> (r: Vec<FileMetadata>)
    ensures
        r@ == files@,
{
    let mut r: Vec<FileMetadata> = Vec::new();
    let mut k: usize = 0;
    while k < files.len()
        invariant
            k <= files@.len(),
            r@ == files@.subrange(0, k as int),
        decreases files@.len() - k,
    {
        r.push(files[k].duplicate());
        proof {
            assert(r@ =~= files@.subrange(0, k + 1 as int));
        }
        k = k + 1;
    }
    proof {
        assert(r@ =~= files@);
    }
    r
}

/// The first position in `vaults` that holds the vault with this id.
pub open spec fn first_vault_with_id(vaults: Seq<VaultMetadata>, vault_id: int) -> Option<int>
    decreases vaults.len(),
{
    if vaults.len() == 0 {
        None
    } else if vaults[0].vault_id as int == vault_id {
        Some(0)
    } else {
        match first_vault_with_id(vaults.drop_first(), vault_id) {
            Some(i) => Some(i + 1),
            None => None,
        }
    }
}

/// The records a blob holds for a vault: those of its first entry for the
/// vault, or none when the blob has no entry for it.
pub open spec fn blob_vault_files(vaults: Seq<VaultMetadata>, vault_id: int) -> Seq<FileMetadata> {
    match first_vault_with_id(vaults, vault_id) {
        Some(i) => vaults[i].files@,
        None => Seq::empty(),
    }
}

/// All records of a sequence of vault snapshots, in order.
pub open spec fn flat_files(vaults: Seq<VaultMetadata>) -> Seq<FileMetadata>
    decreases vaults.len(),
{
    if vaults.len() == 0 {
        Seq::empty()
    } else {
        flat_files(vaults.drop_last()) + vaults.last().files@
    }
}

/// Every record one replica holds, grouped by vault: the complete state a
/// replica sends to or receives from another.
#[derive(Debug, Clone)]
pub struct MetadataBlob {
    /// One snapshot per vault.
    pub vaults: Vec<VaultMetadata>,
}

impl MetadataBlob {
    /// The blob's invariant: one entry per vault, each entry well-formed.
    pub open spec fn wf(self) -> bool {
        &&& forall|i: int, j: int|
            0 <= i < j < self.vaults@.len() ==> (#[trigger] self.vaults@[i]).vault_id != (
            #[trigger] self.vaults@[j]).vault_id
        &&& forall|i: int| 0 <= i < self.vaults@.len() ==> (#[trigger] self.vaults@[i]).wf()
    }

    /// All records of the blob as one list, in vault order.
    pub fn convert_to_metadata_vec(self) -> (r: Vec<FileMetadata>)
        ensures
            r@ == flat_files(self.vaults@),
    {
        let mut r: Vec<FileMetadata> = Vec::new();
        let mut k: usize = 0;
        while k < self.vaults.len()
            invariant
                k <= self.vaults@.len(),
                r@ == flat_files(self.vaults@.subrange(0, k as int)),
            decreases self.vaults@.len() - k,
        {
            let mut part = clone_metadata_vec(&self.vaults[k].files);
            r.append(&mut part);
            proof {
                let pre = self.vaults@.subrange(0, k + 1 as int);
                assert(pre.drop_last() =~= self.vaults@.subrange(0, k as int));
                assert(pre.last() == self.vaults@[k as int]);
            }
            k = k + 1;
        }
        proof {
            assert(self.vaults@.subrange(0, self.vaults@.len() as int) =~= self.vaults@);
        }
        r
    }

    /// The position of the blob's entry for a vault, when it has one.
    pub fn find_vault(&self, vault_id: i32) -> (r: Option<usize>)
        ensures
            match r {
                Some(i) => i < self.vaults@.len() && self.vaults@[i as int].vault_id == vault_id
                    && Some(i as int) == first_vault_with_id(self.vaults@, vault_id as int),
                None => first_vault_with_id(self.vaults@, vault_id as int) is None,
            },
    {
        proof {
            assert(self.vaults@.skip(0) =~= self.vaults@);
        }
        let mut k: usize = 0;
        while k < self.vaults.len()
            invariant
                k <= self.vaults@.len(),
                forall|j: int| 0 <= j < k ==> (#[trigger] self.vaults@[j]).vault_id != vault_id,
                first_vault_with_id(self.vaults@, vault_id as int) == (match first_vault_with_id(
                    self.vaults@.skip(k as int),
                    vault_id as int,
                ) {
                    Some(i) => Some(i + k),
                    None => None::<int>,
                }),
            decreases self.vaults@.len() - k,
        {
            proof {
                assert(self.vaults@.skip(k as int).drop_first() =~= self.vaults@.skip(k + 1 as int));
            }
            if self.vaults[k].vault_id == vault_id {
                return Some(k);
            }
            k = k + 1;
        }
        None
    }
}

/// All records of a blob as one list, in vault order.
pub fn convert_blob_to_vec_metadata(blob: &MetadataBlob) -> (r: Vec<FileMetadata>)
    ensures
        r@ == flat_files(blob.vaults@),
{
    let mut r: Vec<FileMetadata> = Vec::new();
    let mut k: usize = 0;
    while k < blob.vaults.len()
        invariant
            k <= blob.vaults@.len(),
            r@ == flat_files(blob.vaults@.subrange(0, k as int)),
        decreases blob.vaults@.len() - k,
    {
        let mut part = clone_metadata_vec(&blob.vaults[k].files);
        r.append(&mut part);
        proof {
            let pre = blob.vaults@.subrange(0, k + 1 as int);
            assert(pre.drop_last() =~= blob.vaults@.subrange(0, k as int));
            assert(pre.last() == blob.vaults@[k as int]);
        }
        k = k + 1;
    }
    proof {
        assert(blob.vaults@.subrange(0, blob.vaults@.len() as int) =~= blob.vaults@);
    }
    r
}

/// Assembles a blob from per-vault record lists.
pub fn read_all_local_file_metadata(vaults: Vec<(i32, Vec<FileMetadata>)>) -> (r: MetadataBlob)
    ensures
        r.vaults@.len() == vaults@.len(),
        forall|i: int|
            0 <= i < vaults@.len() ==> (#[trigger] r.vaults@[i]).vault_id == vaults@[i].0
                && r.vaults@[i].files@ == vaults@[i].1@,
{
    let len = vaults.len();
    let mut rest = vaults;
    let mut out: Vec<VaultMetadata> = Vec::new();
    let ghost orig = rest@;
    while out.len() < len
        invariant
            len == orig.len(),
            out@.len() + rest@.len() == len,
            rest@ == orig.skip(out@.len() as int),
            forall|i: int|
                0 <= i < out@.len() ==> (#[trigger] out@[i]).vault_id == orig[i].0
                    && out@[i].files@ == orig[i].1@,
        decreases rest@.len(),
    {
        proof {
            assert(rest@[0] == orig[out@.len() as int]);
            assert(rest@.remove(0) =~= orig.skip(out@.len() as int + 1));
        }
        let (vault_id, files) = rest.remove(0);
        out.push(VaultMetadata { files, vault_id });
    }
    MetadataBlob { vaults: out }
}

/// The two directions of one reconciliation: what the server still needs and
/// what the client still needs, per vault.
#[derive(Debug, Clone)]
pub struct MetadataDiff {
    /// Records newer on the client or unknown to the server.
    pub new_for_server: Vec<VaultMetadata>,
    /// Records newer on the server or unknown to the client.
    pub new_for_client: Vec<VaultMetadata>,
}

impl MetadataDiff {
    /// Splits the diff into a blob per direction: what the client needs
    /// first, what the server needs second.
    pub fn destruct_into_tuple(self) -> (r: (MetadataBlob, MetadataBlob))
        ensures
            r.0.vaults == self.new_for_client,
            r.1.vaults == self.new_for_server,
    {
        (MetadataBlob { vaults: self.new_for_client }, MetadataBlob { vaults: self.new_for_server })
    }
}

} // verus!
