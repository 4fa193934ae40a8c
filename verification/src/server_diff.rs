//! The identifier-keyed diff the server runs over whole-replica file lists,
//! and the ordering it presents them in.
//!
//! Unlike the path-keyed diff, this pass correlates records by their
//! assigned identifier: a client record still carrying the sentinel is by
//! definition unknown to the server, and identifiers the server holds that
//! the client lacks mark files the client has never seen.

use vstd::prelude::*;

verus! {

use vstd::pervasive::VecAdditionalExecFns;
use crate::records::FileMetadata;

/// The first position in `files` whose record carries this identifier.
pub open spec fn first_with_id(files: Seq<FileMetadata>, file_id: int) -> Option<int>
    decreases files.len(),
{
    if files.len() == 0 {
        None
    } else if files[0].file_id as int == file_id {
        Some(0)
    } else {
        match first_with_id(files.drop_first(), file_id) {
            Some(i) => Some(i + 1),
            None => None,
        }
    }
}

/// Whether the server still needs this client record, judged by identifier:
/// the record has no identifier yet, or the server's copy under the same
/// identifier is strictly older.
pub open spec fn id_needs_on_server(f: FileMetadata, server: Seq<FileMetadata>) -> bool {
    if f.file_id == -1 {
        true
    } else {
        match first_with_id(server, f.file_id as int) {
            Some(j) => f.modified_time > server[j].modified_time,
            None => false,
        }
    }
}

/// Whether the client still needs this server record: the client holds no
/// record under the identifier, or its copy is strictly older.
pub open spec fn id_needs_on_client(g: FileMetadata, client: Seq<FileMetadata>) -> bool {
    if g.file_id == -1 {
        true
    } else {
        match first_with_id(client, g.file_id as int) {
            Some(i) => g.modified_time > client[i].modified_time,
            None => true,
        }
    }
}

/// The client records the server still needs, in client order.
pub open spec fn id_needed_by_server_seq(
    client: Seq<FileMetadata>,
    server: Seq<FileMetadata>,
) -> Seq<FileMetadata>
    decreases client.len(),
{
    if client.len() == 0 {
        Seq::empty()
    } else {
        id_needed_by_server_seq(client.drop_last(), server) + (if id_needs_on_server(
            client.last(),
            server,
        ) {
            seq![client.last()]
        } else {
            Seq::empty()
        })
    }
}

/// The server records the client still needs, in server order.
pub open spec fn id_needed_by_client_seq(
    server: Seq<FileMetadata>,
    client: Seq<FileMetadata>,
) -> Seq<FileMetadata>
    decreases server.len(),
{
    if server.len() == 0 {
        Seq::empty()
    } else {
        id_needed_by_client_seq(server.drop_last(), client) + (if id_needs_on_client(
            server.last(),
            client,
        ) {
            seq![server.last()]
        } else {
            Seq::empty()
        })
    }
}

/// The first record of `files` carrying this identifier.
fn find_by_file_id(files: &Vec<FileMetadata>, file_id: i32) -> (r: Option<usize>)
    ensures
        match r {
            Some(i) => i < files@.len() && files@[i as int].file_id == file_id && Some(i as int)
                == first_with_id(files@, file_id as int),
            None => first_with_id(files@, file_id as int) is None,
        },
{
    proof {
        assert(files@.skip(0) =~= files@);
    }
    let mut k: usize = 0;
    while k < files.len()
        invariant
            k <= files@.len(),
            first_with_id(files@, file_id as int) == (match first_with_id(
                files@.skip(k as int),
                file_id as int,
            ) {
                Some(i) => Some(i + k),
                None => None::<int>,
            }),
        decreases files@.len() - k,
    {
        proof {
            assert(files@.skip(k as int).drop_first() =~= files@.skip(k + 1 as int));
        }
        if files[k].file_id == file_id {
            return Some(k);
        }
        k = k + 1;
    }
    None
}

/// Diffs whole replicas vault by vault, correlating records by identifier.
/// Returns the records newer or unknown on each side: what the client needs
/// first, what the server needs second, indexed like the inputs.
///
/// The client's list may cover fewer vaults than the server's; each client
/// vault is compared against the server vault at the same position.
pub fn get_file_differences(
    client_files: Vec<Vec<FileMetadata>>,
    server_files: Vec<Vec<FileMetadata>>,
) -> (r: (Vec<Vec<FileMetadata>>, Vec<Vec<FileMetadata>>))
    requires
        client_files@.len() <= server_files@.len(),
    ensures
        r.0@.len() == client_files@.len(),
        r.1@.len() == client_files@.len(),
        forall|v: int|
            0 <= v < client_files@.len() ==> (#[trigger] r.0@[v])@ == id_needed_by_client_seq(
                server_files@[v]@,
                client_files@[v]@,
            ),
        forall|v: int|
            0 <= v < client_files@.len() ==> (#[trigger] r.1@[v])@ == id_needed_by_server_seq(
                client_files@[v]@,
                server_files@[v]@,
            ),
{
    let mut new_for_client: Vec<Vec<FileMetadata>> = Vec::new();
    let mut new_for_server: Vec<Vec<FileMetadata>> = Vec::new();
    let mut v: usize = 0;
    while v < client_files.len()
        invariant
            v <= client_files@.len(),
            client_files@.len() <= server_files@.len(),
            new_for_client@.len() == v,
            new_for_server@.len() == v,
            forall|w: int|
                0 <= w < v ==> (#[trigger] new_for_client@[w])@ == id_needed_by_client_seq(
                    server_files@[w]@,
                    client_files@[w]@,
                ),
            forall|w: int|
                0 <= w < v ==> (#[trigger] new_for_server@[w])@ == id_needed_by_server_seq(
                    client_files@[w]@,
                    server_files@[w]@,
                ),
        decreases client_files@.len() - v,
    {
        let cv = &client_files[v];
        let sv = &server_files[v];
        let mut ns: Vec<FileMetadata> = Vec::new();
        let mut k: usize = 0;
        proof {
            assert(cv@.subrange(0, 0) =~= Seq::<FileMetadata>::empty());
        }
        while k < cv.len()
            invariant
                k <= cv@.len(),
                ns@ == id_needed_by_server_seq(cv@.subrange(0, k as int), sv@),
            decreases cv@.len() - k,
        {
            let f = &cv[k];
            if f.file_id == -1 {
                ns.push(f.duplicate());
            } else {
                match find_by_file_id(sv, f.file_id) {
                    Some(j) => {
                        if f.modified_time > sv[j].modified_time {
                            ns.push(f.duplicate());
                        }
                    },
                    None => {},
                }
            }
            proof {
                let pre = cv@.subrange(0, k + 1 as int);
                assert(pre.drop_last() =~= cv@.subrange(0, k as int));
                assert(pre.last() == cv@[k as int]);
                assert(ns@ =~= id_needed_by_server_seq(pre, sv@));
            }
            k = k + 1;
        }
        proof {
            assert(cv@.subrange(0, cv@.len() as int) =~= cv@);
        }
        let mut nc: Vec<FileMetadata> = Vec::new();
        let mut m: usize = 0;
        proof {
            assert(sv@.subrange(0, 0) =~= Seq::<FileMetadata>::empty());
        }
        while m < sv.len()
            invariant
                m <= sv@.len(),
                nc@ == id_needed_by_client_seq(sv@.subrange(0, m as int), cv@),
            decreases sv@.len() - m,
        {
            let g = &sv[m];
            if g.file_id == -1 {
                nc.push(g.duplicate());
            } else {
                match find_by_file_id(cv, g.file_id) {
                    Some(i) => {
                        if g.modified_time > cv[i].modified_time {
                            nc.push(g.duplicate());
                        }
                    },
                    None => {
                        nc.push(g.duplicate());
                    },
                }
            }
            proof {
                let pre = sv@.subrange(0, m + 1 as int);
                assert(pre.drop_last() =~= sv@.subrange(0, m as int));
                assert(pre.last() == sv@[m as int]);
                assert(nc@ =~= id_needed_by_client_seq(pre, cv@));
            }
            m = m + 1;
        }
        proof {
            assert(sv@.subrange(0, sv@.len() as int) =~= sv@);
        }
        new_for_client.push(nc);
        new_for_server.push(ns);
        v = v + 1;
    }
    (new_for_client, new_for_server)
}

/// Newest first within one list.
pub open spec fn sorted_by_modified_desc(s: Seq<FileMetadata>) -> bool {
    forall|i: int, j: int|
        0 <= i < j < s.len() ==> (#[trigger] s[i]).modified_time >= (#[trigger] s[j]).modified_time
}

/// One list rearranged newest first.
fn sort_one_by_modified_time(files: &Vec<FileMetadata>) -> (r: Vec<FileMetadata>)
    ensures
        sorted_by_modified_desc(r@),
        r@.to_multiset() == files@.to_multiset(),
{
    let mut rest = crate::records::clone_metadata_vec(files);
    let mut out: Vec<FileMetadata> = Vec::new();
    proof {
        broadcast use vstd::seq_lib::group_to_multiset_ensures;
        broadcast use vstd::multiset::group_multiset_axioms;

        assert(out@.to_multiset().add(rest@.to_multiset()) =~= files@.to_multiset());
    }
    while rest.len() > 0
        invariant
            sorted_by_modified_desc(out@),
            forall|i: int, j: int|
                0 <= i < out@.len() && 0 <= j < rest@.len() ==> (#[trigger] out@[i]).modified_time
                    >= (#[trigger] rest@[j]).modified_time,
            out@.to_multiset().add(rest@.to_multiset()) == files@.to_multiset(),
        decreases rest@.len(),
    {
        let mut best: usize = 0;
        let mut j: usize = 1;
        while j < rest.len()
            invariant
                best < j <= rest@.len() || (j <= rest@.len() && best == 0),
                best < rest@.len(),
                rest@.len() > 0,
                forall|i: int|
                    0 <= i < j ==> rest@[best as int].modified_time >= (
                    #[trigger] rest@[i]).modified_time,
            decreases rest@.len() - j,
        {
            if rest[j].modified_time > rest[best].modified_time {
                best = j;
            }
            j = j + 1;
        }
        let ghost pre_out = out@;
        let ghost pre_rest = rest@;
        let rec = rest.remove(best);
        out.push(rec);
        proof {
            broadcast use vstd::seq_lib::group_to_multiset_ensures;
        broadcast use vstd::multiset::group_multiset_axioms;

            assert(rest@.to_multiset() =~= pre_rest.to_multiset().remove(pre_rest[best as int]));
            assert(out@.to_multiset() =~= pre_out.to_multiset().insert(pre_rest[best as int]));
            assert(pre_rest.to_multiset().contains(pre_rest[best as int]));
            assert(out@.to_multiset().add(rest@.to_multiset()) =~= files@.to_multiset());
        }
    }
    proof {
        broadcast use vstd::seq_lib::group_to_multiset_ensures;
        broadcast use vstd::multiset::group_multiset_axioms;

        assert(rest@ =~= Seq::<FileMetadata>::empty());
        assert(rest@.to_multiset().len() == 0);
        assert(out@.to_multiset().add(rest@.to_multiset()) =~= out@.to_multiset());
    }
    out
}

/// Rearranges every vault's list newest first, keeping each list's records.
pub fn sort_files_by_modified_time(files: &mut Vec<Vec<FileMetadata>>)
    ensures
        final(files)@.len() == old(files)@.len(),
        forall|v: int|
            0 <= v < old(files)@.len() ==> sorted_by_modified_desc((#[trigger] final(files)@[v])@),
        forall|v: int|
            0 <= v < old(files)@.len() ==> (#[trigger] final(files)@[v])@.to_multiset() == old(
                files,
            )@[v]@.to_multiset(),
{
    let mut v: usize = 0;
    while v < files.len()
        invariant
            v <= files@.len(),
            files@.len() == old(files)@.len(),
            forall|w: int|
                0 <= w < v ==> sorted_by_modified_desc((#[trigger] files@[w])@),
            forall|w: int|
                0 <= w < v ==> (#[trigger] files@[w])@.to_multiset() == old(
                    files,
                )@[w]@.to_multiset(),
            forall|w: int| v <= w < files@.len() ==> (#[trigger] files@[w])@ == old(files)@[w]@,
        decreases files@.len() - v,
    {
        let sorted = sort_one_by_modified_time(&files[v]);
        files.set(v, sorted);
        v = v + 1;
    }
}

} // verus!
