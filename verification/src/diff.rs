//! The cross-replica diff: given the client's and the server's snapshot of
//! one vault, decide which records each side still needs.
//!
//! Matching is by translated path: a client record corresponds to the server
//! record whose path equals the client path carried over from the client root
//! to the server root.  A strictly newer modification time wins; equal times
//! mean the two copies are already consistent.

use vstd::prelude::*;

verus! {

use crate::config::{cfg_has, cfg_root, first_cfg_with_id, VaultConfigMap};
use crate::errors::SyncError;
use crate::paths::{convert_path_to_local, is_under_root, translate_path};
use crate::records::{
    blob_vault_files, first_vault_with_id, FileMetadata, MetadataBlob, MetadataDiff, VaultMetadata,
};

/// The first position in `files` whose record carries this path.
pub open spec fn first_with_path(files: Seq<FileMetadata>, p: Seq<char>) -> Option<int>
    decreases files.len(),
{
    if files.len() == 0 {
        None
    } else if files[0].full_path@ == p {
        Some(0)
    } else {
        match first_with_path(files.drop_first(), p) {
            Some(i) => Some(i + 1),
            None => None,
        }
    }
}

/// What the first-position search guarantees.
pub proof fn lemma_first_with_path_props(files: Seq<FileMetadata>, p: Seq<char>)
    ensures
        match first_with_path(files, p) {
            Some(i) => 0 <= i < files.len() && files[i].full_path@ == p && (forall|j: int|
                0 <= j < i ==> (#[trigger] files[j]).full_path@ != p),
            None => forall|j: int|
                0 <= j < files.len() ==> (#[trigger] files[j]).full_path@ != p,
        },
    decreases files.len(),
{
    if files.len() > 0 && files[0].full_path@ != p {
        let rest = files.drop_first();
        lemma_first_with_path_props(rest, p);
        match first_with_path(rest, p) {
            Some(i) => {
                assert forall|j: int| 0 <= j < i + 1 implies (#[trigger] files[j]).full_path@
                    != p by {
                    if j > 0 {
                        assert(rest[j - 1] == files[j]);
                    }
                }
            },
            None => {
                assert forall|j: int| 0 <= j < files.len() implies (#[trigger] files[j]).full_path@
                    != p by {
                    if j > 0 {
                        assert(rest[j - 1] == files[j]);
                    }
                }
            },
        }
    }
}

/// The first record of `files` whose path equals `p`.
pub fn find_by_full_path(files: &Vec<FileMetadata>, p: &String) -> (r: Option<usize>)
    ensures
        match r {
            Some(i) => i < files@.len() && files@[i as int].full_path@ == p@ && Some(i as int)
                == first_with_path(files@, p@),
            None => first_with_path(files@, p@) is None,
        },
{
    proof {
        assert(files@.skip(0) =~= files@);
    }
    let mut k: usize = 0;
    while k < files.len()
        invariant
            k <= files@.len(),
            first_with_path(files@, p@) == (match first_with_path(files@.skip(k as int), p@) {
                Some(i) => Some(i + k),
                None => None::<int>,
            }),
        decreases files@.len() - k,
    {
        proof {
            assert(files@.skip(k as int).drop_first() =~= files@.skip(k + 1 as int));
        }
        if files[k].full_path.eq(p) {
            return Some(k);
        }
        k = k + 1;
    }
    None
}

/// Whether the server still needs this client record: the server has no
/// record at the translated path, or the client's copy is strictly newer.
pub open spec fn needs_on_server(
    f: FileMetadata,
    server: Seq<FileMetadata>,
    croot: Seq<char>,
    sroot: Seq<char>,
) -> bool {
    match first_with_path(server, translate_path(f.full_path@, croot, sroot)) {
        None => true,
        Some(i) => f.modified_time > server[i].modified_time,
    }
}

/// The server record matching this client record, when the server's copy is
/// strictly newer.
pub open spec fn newer_server_match(
    f: FileMetadata,
    server: Seq<FileMetadata>,
    croot: Seq<char>,
    sroot: Seq<char>,
) -> Option<FileMetadata> {
    match first_with_path(server, translate_path(f.full_path@, croot, sroot)) {
        None => None,
        Some(i) => if server[i].modified_time > f.modified_time {
            Some(server[i])
        } else {
            None
        },
    }
}

/// Whether the client has no record at this server record's translated path.
pub open spec fn only_on_server(
    g: FileMetadata,
    client: Seq<FileMetadata>,
    croot: Seq<char>,
    sroot: Seq<char>,
) -> bool {
    first_with_path(client, translate_path(g.full_path@, sroot, croot)) is None
}

/// The client records the server still needs, in client order.
pub open spec fn needed_by_server_seq(
    client: Seq<FileMetadata>,
    server: Seq<FileMetadata>,
    croot: Seq<char>,
    sroot: Seq<char>,
) -> Seq<FileMetadata>
    decreases client.len(),
{
    if client.len() == 0 {
        Seq::empty()
    } else {
        needed_by_server_seq(client.drop_last(), server, croot, sroot) + (if needs_on_server(
            client.last(),
            server,
            croot,
            sroot,
        ) {
            seq![client.last()]
        } else {
            Seq::empty()
        })
    }
}

/// The server records that are strictly newer than the client's matching
/// record, in client order.
pub open spec fn newer_on_server_seq(
    client: Seq<FileMetadata>,
    server: Seq<FileMetadata>,
    croot: Seq<char>,
    sroot: Seq<char>,
) -> Seq<FileMetadata>
    decreases client.len(),
{
    if client.len() == 0 {
        Seq::empty()
    } else {
        newer_on_server_seq(client.drop_last(), server, croot, sroot) + (match newer_server_match(
            client.last(),
            server,
            croot,
            sroot,
        ) {
            Some(g) => seq![g],
            None => Seq::empty(),
        })
    }
}

/// The server records the client has never seen, in server order.
pub open spec fn server_only_seq(
    server: Seq<FileMetadata>,
    client: Seq<FileMetadata>,
    croot: Seq<char>,
    sroot: Seq<char>,
) -> Seq<FileMetadata>
    decreases server.len(),
{
    if server.len() == 0 {
        Seq::empty()
    } else {
        server_only_seq(server.drop_last(), client, croot, sroot) + (if only_on_server(
            server.last(),
            client,
            croot,
            sroot,
        ) {
            seq![server.last()]
        } else {
            Seq::empty()
        })
    }
}

/// Everything the client still needs: the newer server copies of files both
/// sides hold, then the server records the client has never seen.
pub open spec fn needed_by_client_seq(
    client: Seq<FileMetadata>,
    server: Seq<FileMetadata>,
    croot: Seq<char>,
    sroot: Seq<char>,
) -> Seq<FileMetadata> {
    newer_on_server_seq(client, server, croot, sroot) + server_only_seq(
        server,
        client,
        croot,
        sroot,
    )
}

/// Whether one vault's two snapshots can be diffed at all: every record of
/// each side lies under that side's root.
pub open spec fn vault_diff_ok(
    client: Seq<FileMetadata>,
    server: Seq<FileMetadata>,
    croot: Seq<char>,
    sroot: Seq<char>,
) -> bool {
    &&& forall|i: int|
        0 <= i < client.len() ==> is_under_root((#[trigger] client[i]).full_path@, croot)
    &&& forall|i: int|
        0 <= i < server.len() ==> is_under_root((#[trigger] server[i]).full_path@, sroot)
}

impl VaultMetadata {
    /// Diffs this client-side snapshot against the server's snapshot of the
    /// same vault.  Returns what the client needs first and what the server
    /// needs second.
    ///
    /// Fails with [`SyncError::PathMismatch`] exactly when some record does
    /// not lie under its side's root; such a record indicates a cross-vault
    /// mixup and is never silently skipped.
    pub fn get_differences_from_server(
        &self,
        server: &VaultMetadata,
        client_root: &str,
        server_root: &str,
    ) -> (r: Result<(VaultMetadata, VaultMetadata), SyncError>)
        ensures
            r is Ok <==> vault_diff_ok(self.files@, server.files@, client_root@, server_root@),
            r matches Ok((nc, ns)) ==> {
                &&& nc.vault_id == server.vault_id
                &&& ns.vault_id == server.vault_id
                &&& nc.files@ == needed_by_client_seq(
                    self.files@,
                    server.files@,
                    client_root@,
                    server_root@,
                )
                &&& ns.files@ == needed_by_server_seq(
                    self.files@,
                    server.files@,
                    client_root@,
                    server_root@,
                )
            },
            r matches Err(e) ==> e == SyncError::PathMismatch,
    {
        let ghost croot = client_root@;
        let ghost sroot = server_root@;
        let mut ns_files: Vec<FileMetadata> = Vec::new();
        let mut newer_files: Vec<FileMetadata> = Vec::new();
        let mut k: usize = 0;
        proof {
            assert(self.files@.subrange(0, 0) =~= Seq::<FileMetadata>::empty());
        }
        while k < self.files.len()
            invariant
                k <= self.files@.len(),
                forall|i: int|
                    0 <= i < k ==> is_under_root((#[trigger] self.files@[i]).full_path@, croot),
                ns_files@ == needed_by_server_seq(
                    self.files@.subrange(0, k as int),
                    server.files@,
                    croot,
                    sroot,
                ),
                newer_files@ == newer_on_server_seq(
                    self.files@.subrange(0, k as int),
                    server.files@,
                    croot,
                    sroot,
                ),
                croot == client_root@,
                sroot == server_root@,
            decreases self.files@.len() - k,
        {
            let f = &self.files[k];
            let translated = match convert_path_to_local(
                f.full_path.as_str(),
                client_root,
                server_root,
            ) {
                Ok(t) => t,
                Err(e) => {
                    proof {
                        assert(!is_under_root(self.files@[k as int].full_path@, croot));
                    }
                    return Err(e);
                },
            };
            match find_by_full_path(&server.files, &translated) {
                None => {
                    ns_files.push(f.duplicate());
                },
                Some(i) => {
                    if f.modified_time > server.files[i].modified_time {
                        ns_files.push(f.duplicate());
                    } else if server.files[i].modified_time > f.modified_time {
                        newer_files.push(server.files[i].duplicate());
                    }
                },
            }
            proof {
                let pre = self.files@.subrange(0, k + 1 as int);
                assert(pre.drop_last() =~= self.files@.subrange(0, k as int));
                assert(pre.last() == self.files@[k as int]);
                assert(ns_files@ =~= needed_by_server_seq(pre, server.files@, croot, sroot));
                assert(newer_files@ =~= newer_on_server_seq(pre, server.files@, croot, sroot));
            }
            k = k + 1;
        }
        proof {
            assert(self.files@.subrange(0, self.files@.len() as int) =~= self.files@);
        }
        let mut so_files: Vec<FileMetadata> = Vec::new();
        let mut m: usize = 0;
        proof {
            assert(server.files@.subrange(0, 0) =~= Seq::<FileMetadata>::empty());
        }
        while m < server.files.len()
            invariant
                m <= server.files@.len(),
                forall|i: int|
                    0 <= i < m ==> is_under_root((#[trigger] server.files@[i]).full_path@, sroot),
                so_files@ == server_only_seq(
                    server.files@.subrange(0, m as int),
                    self.files@,
                    croot,
                    sroot,
                ),
                croot == client_root@,
                sroot == server_root@,
            decreases server.files@.len() - m,
        {
            let g = &server.files[m];
            let translated = match convert_path_to_local(
                g.full_path.as_str(),
                server_root,
                client_root,
            ) {
                Ok(t) => t,
                Err(e) => {
                    proof {
                        assert(!is_under_root(server.files@[m as int].full_path@, sroot));
                    }
                    return Err(e);
                },
            };
            if find_by_full_path(&self.files, &translated).is_none() {
                so_files.push(g.duplicate());
            }
            proof {
                let pre = server.files@.subrange(0, m + 1 as int);
                assert(pre.drop_last() =~= server.files@.subrange(0, m as int));
                assert(pre.last() == server.files@[m as int]);
                assert(so_files@ =~= server_only_seq(pre, self.files@, croot, sroot));
            }
            m = m + 1;
        }
        proof {
            assert(server.files@.subrange(0, server.files@.len() as int) =~= server.files@);
        }
        let mut nc_files = newer_files;
        nc_files.append(&mut so_files);
        Ok(
            (
                VaultMetadata { files: nc_files, vault_id: server.vault_id },
                VaultMetadata { files: ns_files, vault_id: server.vault_id },
            ),
        )
    }
}

/// Whether two whole-replica blobs can be diffed: every vault the client
/// holds has a configured root on both sides, and every record of both
/// snapshots of the vault lies under its side's root.
pub open spec fn blob_diff_ok(
    client: Seq<VaultMetadata>,
    server: Seq<VaultMetadata>,
    client_cfg: Seq<crate::config::VaultConfig>,
    server_cfg: Seq<crate::config::VaultConfig>,
) -> bool {
    forall|v: int|
        0 <= v < client.len() ==> {
            let vid = (#[trigger] client[v]).vault_id as int;
            &&& cfg_has(client_cfg, vid)
            &&& cfg_has(server_cfg, vid)
            &&& vault_diff_ok(
                client[v].files@,
                blob_vault_files(server, vid),
                cfg_root(client_cfg, vid),
                cfg_root(server_cfg, vid),
            )
        }
}

/// Computes the reconciliation of two whole-replica blobs, one vault at a
/// time, for every vault the client participates in.  A vault the server's
/// blob does not mention is treated as empty on the server.
///
/// Fails with [`SyncError::PathMismatch`] exactly when a vault has no
/// configured root on one of the sides or some record does not lie under its
/// side's root.
pub fn get_metadata_diff(
    client: &MetadataBlob,
    server: &MetadataBlob,
    client_cfg: &VaultConfigMap,
    server_cfg: &VaultConfigMap,
) -> (r: Result<MetadataDiff, SyncError>)
    ensures
        r is Ok <==> blob_diff_ok(
            client.vaults@,
            server.vaults@,
            client_cfg.configs@,
            server_cfg.configs@,
        ),
        r matches Ok(d) ==> {
            &&& d.new_for_server@.len() == client.vaults@.len()
            &&& d.new_for_client@.len() == client.vaults@.len()
            &&& forall|v: int|
                0 <= v < client.vaults@.len() ==> {
                    let vid = (#[trigger] client.vaults@[v]).vault_id as int;
                    let sfiles = blob_vault_files(server.vaults@, vid);
                    let croot = cfg_root(client_cfg.configs@, vid);
                    let sroot = cfg_root(server_cfg.configs@, vid);
                    &&& d.new_for_server@[v].vault_id as int == vid
                    &&& d.new_for_client@[v].vault_id as int == vid
                    &&& d.new_for_server@[v].files@ == needed_by_server_seq(
                        client.vaults@[v].files@,
                        sfiles,
                        croot,
                        sroot,
                    )
                    &&& d.new_for_client@[v].files@ == needed_by_client_seq(
                        client.vaults@[v].files@,
                        sfiles,
                        croot,
                        sroot,
                    )
                }
        },
        r matches Err(e) ==> e == SyncError::PathMismatch,
{
    let mut new_for_server: Vec<VaultMetadata> = Vec::new();
    let mut new_for_client: Vec<VaultMetadata> = Vec::new();
    let mut v: usize = 0;
    while v < client.vaults.len()
        invariant
            v <= client.vaults@.len(),
            new_for_server@.len() == v,
            new_for_client@.len() == v,
            forall|w: int|
                0 <= w < v ==> {
                    let vid = (#[trigger] client.vaults@[w]).vault_id as int;
                    &&& cfg_has(client_cfg.configs@, vid)
                    &&& cfg_has(server_cfg.configs@, vid)
                    &&& vault_diff_ok(
                        client.vaults@[w].files@,
                        blob_vault_files(server.vaults@, vid),
                        cfg_root(client_cfg.configs@, vid),
                        cfg_root(server_cfg.configs@, vid),
                    )
                },
            forall|w: int|
                0 <= w < v ==> {
                    let vid = (#[trigger] client.vaults@[w]).vault_id as int;
                    let sfiles = blob_vault_files(server.vaults@, vid);
                    let croot = cfg_root(client_cfg.configs@, vid);
                    let sroot = cfg_root(server_cfg.configs@, vid);
                    &&& new_for_server@[w].vault_id as int == vid
                    &&& new_for_client@[w].vault_id as int == vid
                    &&& new_for_server@[w].files@ == needed_by_server_seq(
                        client.vaults@[w].files@,
                        sfiles,
                        croot,
                        sroot,
                    )
                    &&& new_for_client@[w].files@ == needed_by_client_seq(
                        client.vaults@[w].files@,
                        sfiles,
                        croot,
                        sroot,
                    )
                },
        decreases client.vaults@.len() - v,
    {
        let cv = &client.vaults[v];
        let client_root = match client_cfg.get(cv.vault_id) {
            Some(c) => &c.full_path,
            None => {
                return Err(SyncError::PathMismatch);
            },
        };
        let server_root = match server_cfg.get(cv.vault_id) {
            Some(c) => &c.full_path,
            None => {
                return Err(SyncError::PathMismatch);
            },
        };
        let sv: VaultMetadata = match server.find_vault(cv.vault_id) {
            Some(i) => server.vaults[i].duplicate(),
            None => VaultMetadata { files: Vec::new(), vault_id: cv.vault_id },
        };
        proof {
            assert(sv.files@ == blob_vault_files(server.vaults@, cv.vault_id as int));
        }
        match cv.get_differences_from_server(
            &sv,
            client_root.as_str(),
            server_root.as_str(),
        ) {
            Ok((nc, ns)) => {
                let mut nc = nc;
                let mut ns = ns;
                nc.vault_id = cv.vault_id;
                ns.vault_id = cv.vault_id;
                new_for_client.push(nc);
                new_for_server.push(ns);
            },
            Err(e) => {
                return Err(e);
            },
        }
        v = v + 1;
    }
    Ok(MetadataDiff { new_for_server, new_for_client })
}

} // verus!
