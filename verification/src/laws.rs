//! The engine's laws: properties of the diff that hold for every pair of
//! snapshots, proved once and for all.

use vstd::prelude::*;

verus! {

use crate::diff::{
    first_with_path, lemma_first_with_path_props, needed_by_client_seq, needed_by_server_seq,
    needs_on_server, newer_on_server_seq, newer_server_match, only_on_server, server_only_seq,
    vault_diff_ok,
};
use crate::paths::{is_under_root, lemma_translate_round_trip, translate_path};
use crate::records::FileMetadata;

/// No two records of the snapshot share a path.
pub open spec fn distinct_paths(s: Seq<FileMetadata>) -> bool {
    forall|i: int, j: int|
        0 <= i < j < s.len() ==> (#[trigger] s[i]).full_path@ != (#[trigger] s[j]).full_path@
}

/// An element of one part is an element of the concatenation, and the other
/// way round.
pub proof fn lemma_add_contains<T>(a: Seq<T>, b: Seq<T>, x: T)
    ensures
        (a + b).contains(x) <==> a.contains(x) || b.contains(x),
{
    if (a + b).contains(x) {
        let i = choose|i: int| 0 <= i < (a + b).len() && (a + b)[i] == x;
        if i < a.len() {
            assert(a[i] == x);
        } else {
            assert(b[i - a.len()] == x);
        }
    }
    if a.contains(x) {
        let i = choose|i: int| 0 <= i < a.len() && a[i] == x;
        assert((a + b)[i] == x);
    }
    if b.contains(x) {
        let i = choose|i: int| 0 <= i < b.len() && b[i] == x;
        assert((a + b)[a.len() + i] == x);
    }
}

/// When the snapshot's paths are distinct, the record at a matching position
/// is the first match.
pub proof fn lemma_first_with_path_unique(files: Seq<FileMetadata>, p: Seq<char>, m: int)
    requires
        distinct_paths(files),
        0 <= m < files.len(),
        files[m].full_path@ == p,
    ensures
        first_with_path(files, p) == Some(m),
{
    lemma_first_with_path_props(files, p);
    match first_with_path(files, p) {
        Some(i) => {
            if i != m {
                assert(files[i].full_path@ == files[m].full_path@);
                assert(false);
            }
        },
        None => {
            assert(false);
        },
    }
}

/// A client record the server needs is in the result.
pub proof fn lemma_needed_by_server_complete(
    client: Seq<FileMetadata>,
    server: Seq<FileMetadata>,
    croot: Seq<char>,
    sroot: Seq<char>,
    k: int,
)
    requires
        0 <= k < client.len(),
        needs_on_server(client[k], server, croot, sroot),
    ensures
        needed_by_server_seq(client, server, croot, sroot).contains(client[k]),
    decreases client.len(),
{
    let t = needed_by_server_seq(client, server, croot, sroot);
    let rest = needed_by_server_seq(client.drop_last(), server, croot, sroot);
    if k == client.len() - 1 {
        assert(t[rest.len() as int] == client[k]);
    } else {
        lemma_needed_by_server_complete(client.drop_last(), server, croot, sroot, k);
        let i = choose|i: int| 0 <= i < rest.len() && rest[i] == client.drop_last()[k];
        assert(t[i] == client[k]);
    }
}

/// Everything in the result is a client record the server needs.
pub proof fn lemma_needed_by_server_sound(
    client: Seq<FileMetadata>,
    server: Seq<FileMetadata>,
    croot: Seq<char>,
    sroot: Seq<char>,
)
    ensures
        forall|x: FileMetadata|
            #[trigger] needed_by_server_seq(client, server, croot, sroot).contains(x) ==> exists|
                k: int,
            |
                0 <= k < client.len() && (#[trigger] client[k]) == x && needs_on_server(
                    client[k],
                    server,
                    croot,
                    sroot,
                ),
    decreases client.len(),
{
    if client.len() > 0 {
        lemma_needed_by_server_sound(client.drop_last(), server, croot, sroot);
        let t = needed_by_server_seq(client, server, croot, sroot);
        let rest = needed_by_server_seq(client.drop_last(), server, croot, sroot);
        assert forall|x: FileMetadata| #[trigger] t.contains(x) implies exists|k: int|
            0 <= k < client.len() && (#[trigger] client[k]) == x && needs_on_server(
                client[k],
                server,
                croot,
                sroot,
            ) by {
            let i = choose|i: int| 0 <= i < t.len() && t[i] == x;
            if i < rest.len() {
                assert(rest.contains(x));
                let k = choose|k: int|
                    0 <= k < client.drop_last().len() && (#[trigger] client.drop_last()[k]) == x
                        && needs_on_server(client.drop_last()[k], server, croot, sroot);
                assert((#[trigger] client[k]) == x);
            } else {
                assert(x == client.last());
                assert((#[trigger] client[client.len() - 1]) == x);
            }
        }
    }
}

/// A strictly newer server copy of a client file is in the result.
pub proof fn lemma_newer_on_server_complete(
    client: Seq<FileMetadata>,
    server: Seq<FileMetadata>,
    croot: Seq<char>,
    sroot: Seq<char>,
    k: int,
    g: FileMetadata,
)
    requires
        0 <= k < client.len(),
        newer_server_match(client[k], server, croot, sroot) == Some(g),
    ensures
        newer_on_server_seq(client, server, croot, sroot).contains(g),
    decreases client.len(),
{
    let t = newer_on_server_seq(client, server, croot, sroot);
    let rest = newer_on_server_seq(client.drop_last(), server, croot, sroot);
    if k == client.len() - 1 {
        assert(t[rest.len() as int] == g);
    } else {
        lemma_newer_on_server_complete(client.drop_last(), server, croot, sroot, k, g);
        let i = choose|i: int| 0 <= i < rest.len() && rest[i] == g;
        assert(t[i] == g);
    }
}

/// Everything in the result is the strictly newer server copy of some
/// client file.
pub proof fn lemma_newer_on_server_sound(
    client: Seq<FileMetadata>,
    server: Seq<FileMetadata>,
    croot: Seq<char>,
    sroot: Seq<char>,
)
    ensures
        forall|x: FileMetadata|
            #[trigger] newer_on_server_seq(client, server, croot, sroot).contains(x) ==> exists|
                k: int,
            |
                0 <= k < client.len() && newer_server_match(
                    #[trigger] client[k],
                    server,
                    croot,
                    sroot,
                ) == Some(x),
    decreases client.len(),
{
    if client.len() > 0 {
        lemma_newer_on_server_sound(client.drop_last(), server, croot, sroot);
        let t = newer_on_server_seq(client, server, croot, sroot);
        let rest = newer_on_server_seq(client.drop_last(), server, croot, sroot);
        assert forall|x: FileMetadata| #[trigger] t.contains(x) implies exists|k: int|
            0 <= k < client.len() && newer_server_match(
                #[trigger] client[k],
                server,
                croot,
                sroot,
            ) == Some(x) by {
            let i = choose|i: int| 0 <= i < t.len() && t[i] == x;
            if i < rest.len() {
                assert(rest.contains(x));
                let k = choose|k: int|
                    0 <= k < client.drop_last().len() && newer_server_match(
                        #[trigger] client.drop_last()[k],
                        server,
                        croot,
                        sroot,
                    ) == Some(x);
                assert(newer_server_match(#[trigger] client[k], server, croot, sroot) == Some(x));
            } else {
                assert(x == newer_server_match(client.last(), server, croot, sroot)->0);
                assert(newer_server_match(
                    #[trigger] client[client.len() - 1],
                    server,
                    croot,
                    sroot,
                ) == Some(x));
            }
        }
    }
}

/// A server record the client has never seen is in the result.
pub proof fn lemma_server_only_complete(
    server: Seq<FileMetadata>,
    client: Seq<FileMetadata>,
    croot: Seq<char>,
    sroot: Seq<char>,
    m: int,
)
    requires
        0 <= m < server.len(),
        only_on_server(server[m], client, croot, sroot),
    ensures
        server_only_seq(server, client, croot, sroot).contains(server[m]),
    decreases server.len(),
{
    let t = server_only_seq(server, client, croot, sroot);
    let rest = server_only_seq(server.drop_last(), client, croot, sroot);
    if m == server.len() - 1 {
        assert(t[rest.len() as int] == server[m]);
    } else {
        lemma_server_only_complete(server.drop_last(), client, croot, sroot, m);
        let i = choose|i: int| 0 <= i < rest.len() && rest[i] == server.drop_last()[m];
        assert(t[i] == server[m]);
    }
}

/// Everything in the result is a server record the client has never seen.
pub proof fn lemma_server_only_sound(
    server: Seq<FileMetadata>,
    client: Seq<FileMetadata>,
    croot: Seq<char>,
    sroot: Seq<char>,
)
    ensures
        forall|x: FileMetadata|
            #[trigger] server_only_seq(server, client, croot, sroot).contains(x) ==> exists|m: int|
                0 <= m < server.len() && (#[trigger] server[m]) == x && only_on_server(
                    server[m],
                    client,
                    croot,
                    sroot,
                ),
    decreases server.len(),
{
    if server.len() > 0 {
        lemma_server_only_sound(server.drop_last(), client, croot, sroot);
        let t = server_only_seq(server, client, croot, sroot);
        let rest = server_only_seq(server.drop_last(), client, croot, sroot);
        assert forall|x: FileMetadata| #[trigger] t.contains(x) implies exists|m: int|
            0 <= m < server.len() && (#[trigger] server[m]) == x && only_on_server(
                server[m],
                client,
                croot,
                sroot,
            ) by {
            let i = choose|i: int| 0 <= i < t.len() && t[i] == x;
            if i < rest.len() {
                assert(rest.contains(x));
                let m = choose|m: int|
                    0 <= m < server.drop_last().len() && (#[trigger] server.drop_last()[m]) == x
                        && only_on_server(server.drop_last()[m], client, croot, sroot);
                assert((#[trigger] server[m]) == x);
            } else {
                assert(x == server.last());
                assert((#[trigger] server[server.len() - 1]) == x);
            }
        }
    }
}

/// Untracked-file detection: a client record that still carries the sentinel
/// identifier and whose translated path has no counterpart in the server's
/// snapshot is always among the records the server needs.
pub proof fn lemma_untracked_file_needed_by_server(
    client: Seq<FileMetadata>,
    server: Seq<FileMetadata>,
    croot: Seq<char>,
    sroot: Seq<char>,
    k: int,
)
    requires
        0 <= k < client.len(),
        client[k].file_id == -1,
        first_with_path(server, translate_path(client[k].full_path@, croot, sroot)) is None,
    ensures
        needed_by_server_seq(client, server, croot, sroot).contains(client[k]),
{
    lemma_needed_by_server_complete(client, server, croot, sroot, k);
}

/// Newer wins: when the server's copy of a file is strictly newer than the
/// client's copy at the same translated path, the server's record is among
/// what the client needs, and the client's record is not among what the
/// server needs.
pub proof fn lemma_newer_wins(
    client: Seq<FileMetadata>,
    server: Seq<FileMetadata>,
    croot: Seq<char>,
    sroot: Seq<char>,
    k: int,
    m: int,
)
    requires
        distinct_paths(client),
        distinct_paths(server),
        0 <= k < client.len(),
        0 <= m < server.len(),
        server[m].full_path@ == translate_path(client[k].full_path@, croot, sroot),
        server[m].modified_time > client[k].modified_time,
    ensures
        needed_by_client_seq(client, server, croot, sroot).contains(server[m]),
        !needed_by_server_seq(client, server, croot, sroot).contains(client[k]),
{
    let tr = translate_path(client[k].full_path@, croot, sroot);
    lemma_first_with_path_unique(server, tr, m);
    assert(newer_server_match(client[k], server, croot, sroot) == Some(server[m]));
    lemma_newer_on_server_complete(client, server, croot, sroot, k, server[m]);
    lemma_add_contains(
        newer_on_server_seq(client, server, croot, sroot),
        server_only_seq(server, client, croot, sroot),
        server[m],
    );
    assert(!needs_on_server(client[k], server, croot, sroot));
    lemma_needed_by_server_sound(client, server, croot, sroot);
    if needed_by_server_seq(client, server, croot, sroot).contains(client[k]) {
        let j = choose|j: int|
            0 <= j < client.len() && (#[trigger] client[j]) == client[k] && needs_on_server(
                client[j],
                server,
                croot,
                sroot,
            );
        if j != k {
            assert(client[j].full_path@ == client[k].full_path@);
            assert(false);
        }
        assert(false);
    }
}


/// Everything the client needs is either the newer server copy of one of
/// its files or a server record it has never seen.
pub proof fn lemma_needed_by_client_sound(
    client: Seq<FileMetadata>,
    server: Seq<FileMetadata>,
    croot: Seq<char>,
    sroot: Seq<char>,
)
    ensures
        forall|x: FileMetadata|
            #[trigger] needed_by_client_seq(client, server, croot, sroot).contains(x) ==> (exists|
                k: int,
            |
                0 <= k < client.len() && newer_server_match(
                    #[trigger] client[k],
                    server,
                    croot,
                    sroot,
                ) == Some(x)) || (exists|m: int|
                0 <= m < server.len() && (#[trigger] server[m]) == x && only_on_server(
                    server[m],
                    client,
                    croot,
                    sroot,
                )),
{
    lemma_newer_on_server_sound(client, server, croot, sroot);
    lemma_server_only_sound(server, client, croot, sroot);
    assert forall|x: FileMetadata|
        #[trigger] needed_by_client_seq(client, server, croot, sroot).contains(x) implies (exists|
        k: int,
    |
        0 <= k < client.len() && newer_server_match(#[trigger] client[k], server, croot, sroot)
            == Some(x)) || (exists|m: int|
        0 <= m < server.len() && (#[trigger] server[m]) == x && only_on_server(
            server[m],
            client,
            croot,
            sroot,
        )) by {
        lemma_add_contains(
            newer_on_server_seq(client, server, croot, sroot),
            server_only_seq(server, client, croot, sroot),
            x,
        );
    }
}

/// Everything the client needs is one of the server's records.
pub proof fn lemma_needed_by_client_members(
    client: Seq<FileMetadata>,
    server: Seq<FileMetadata>,
    croot: Seq<char>,
    sroot: Seq<char>,
)
    ensures
        forall|x: FileMetadata|
            #[trigger] needed_by_client_seq(client, server, croot, sroot).contains(x) ==> exists|
                m: int,
            |
                0 <= m < server.len() && (#[trigger] server[m]) == x,
{
    lemma_needed_by_client_sound(client, server, croot, sroot);
    assert forall|x: FileMetadata|
        #[trigger] needed_by_client_seq(client, server, croot, sroot).contains(x) implies exists|
        m: int,
    |
        0 <= m < server.len() && (#[trigger] server[m]) == x by {
        if exists|k: int|
            0 <= k < client.len() && newer_server_match(
                #[trigger] client[k],
                server,
                croot,
                sroot,
            ) == Some(x) {
            let k = choose|k: int|
                0 <= k < client.len() && newer_server_match(
                    #[trigger] client[k],
                    server,
                    croot,
                    sroot,
                ) == Some(x);
            let tr = translate_path(client[k].full_path@, croot, sroot);
            lemma_first_with_path_props(server, tr);
            match first_with_path(server, tr) {
                Some(i) => {
                    assert((#[trigger] server[i]) == x);
                },
                None => {
                    assert(false);
                },
            }
        }
    }
}

/// Two snapshots agree when each record of either side has a counterpart on
/// the other side at the translated path with the same modification time.
pub open spec fn snapshots_agree(
    client: Seq<FileMetadata>,
    server: Seq<FileMetadata>,
    croot: Seq<char>,
    sroot: Seq<char>,
) -> bool {
    &&& forall|i: int|
        0 <= i < client.len() ==> exists|j: int|
            0 <= j < server.len() && (#[trigger] server[j]).full_path@ == translate_path(
                (#[trigger] client[i]).full_path@,
                croot,
                sroot,
            ) && server[j].modified_time == client[i].modified_time
    &&& forall|j: int|
        0 <= j < server.len() ==> exists|i: int|
            0 <= i < client.len() && (#[trigger] client[i]).full_path@ == translate_path(
                (#[trigger] server[j]).full_path@,
                sroot,
                croot,
            ) && client[i].modified_time == server[j].modified_time
}

/// When no client record is needed, the result is empty.
proof fn lemma_needed_by_server_empty(
    client: Seq<FileMetadata>,
    server: Seq<FileMetadata>,
    croot: Seq<char>,
    sroot: Seq<char>,
)
    requires
        forall|k: int|
            0 <= k < client.len() ==> !needs_on_server(#[trigger] client[k], server, croot, sroot),
    ensures
        needed_by_server_seq(client, server, croot, sroot) == Seq::<FileMetadata>::empty(),
    decreases client.len(),
{
    if client.len() > 0 {
        lemma_needed_by_server_empty(client.drop_last(), server, croot, sroot);
        assert(needed_by_server_seq(client, server, croot, sroot) =~= Seq::<
            FileMetadata,
        >::empty());
    }
}

/// When no server copy is newer, that part of the result is empty.
proof fn lemma_newer_on_server_empty(
    client: Seq<FileMetadata>,
    server: Seq<FileMetadata>,
    croot: Seq<char>,
    sroot: Seq<char>,
)
    requires
        forall|k: int|
            0 <= k < client.len() ==> newer_server_match(
                #[trigger] client[k],
                server,
                croot,
                sroot,
            ) is None,
    ensures
        newer_on_server_seq(client, server, croot, sroot) == Seq::<FileMetadata>::empty(),
    decreases client.len(),
{
    if client.len() > 0 {
        lemma_newer_on_server_empty(client.drop_last(), server, croot, sroot);
        assert(newer_on_server_seq(client, server, croot, sroot) =~= Seq::<FileMetadata>::empty());
    }
}

/// When every server record has a client counterpart, that part of the
/// result is empty.
proof fn lemma_server_only_empty(
    server: Seq<FileMetadata>,
    client: Seq<FileMetadata>,
    croot: Seq<char>,
    sroot: Seq<char>,
)
    requires
        forall|m: int|
            0 <= m < server.len() ==> !only_on_server(#[trigger] server[m], client, croot, sroot),
    ensures
        server_only_seq(server, client, croot, sroot) == Seq::<FileMetadata>::empty(),
    decreases server.len(),
{
    if server.len() > 0 {
        lemma_server_only_empty(server.drop_last(), client, croot, sroot);
        assert(server_only_seq(server, client, croot, sroot) =~= Seq::<FileMetadata>::empty());
    }
}

/// Idempotence of reconciliation: once the two snapshots agree record for
/// record — as they do after a completed run with no intervening changes —
/// reconciling them again asks for nothing in either direction.
pub proof fn lemma_second_run_empty(
    client: Seq<FileMetadata>,
    server: Seq<FileMetadata>,
    croot: Seq<char>,
    sroot: Seq<char>,
)
    requires
        distinct_paths(client),
        distinct_paths(server),
        snapshots_agree(client, server, croot, sroot),
    ensures
        needed_by_server_seq(client, server, croot, sroot) == Seq::<FileMetadata>::empty(),
        needed_by_client_seq(client, server, croot, sroot) == Seq::<FileMetadata>::empty(),
{
    assert forall|k: int| 0 <= k < client.len() implies !needs_on_server(
        #[trigger] client[k],
        server,
        croot,
        sroot,
    ) && newer_server_match(client[k], server, croot, sroot) is None by {
        let tr = translate_path(client[k].full_path@, croot, sroot);
        let j = choose|j: int|
            0 <= j < server.len() && (#[trigger] server[j]).full_path@ == tr
                && server[j].modified_time == client[k].modified_time;
        lemma_first_with_path_unique(server, tr, j);
    }
    assert forall|m: int| 0 <= m < server.len() implies !only_on_server(
        #[trigger] server[m],
        client,
        croot,
        sroot,
    ) by {
        let tr = translate_path(server[m].full_path@, sroot, croot);
        let i = choose|i: int|
            0 <= i < client.len() && (#[trigger] client[i]).full_path@ == tr
                && client[i].modified_time == server[m].modified_time;
        lemma_first_with_path_unique(client, tr, i);
    }
    lemma_needed_by_server_empty(client, server, croot, sroot);
    lemma_newer_on_server_empty(client, server, croot, sroot);
    lemma_server_only_empty(server, client, croot, sroot);
    assert(needed_by_client_seq(client, server, croot, sroot) =~= Seq::<FileMetadata>::empty());
}

/// The two directions of one reconciliation swap when the roles swap: what
/// one run says the server needs is exactly what the swapped run says the
/// client needs.
proof fn lemma_nbs_equals_swapped_nc(
    client: Seq<FileMetadata>,
    server: Seq<FileMetadata>,
    croot: Seq<char>,
    sroot: Seq<char>,
)
    requires
        distinct_paths(client),
        distinct_paths(server),
        vault_diff_ok(client, server, croot, sroot),
    ensures
        forall|x: FileMetadata|
            #[trigger] needed_by_server_seq(client, server, croot, sroot).contains(x)
                <==> needed_by_client_seq(server, client, sroot, croot).contains(x),
{
    let nbs = needed_by_server_seq(client, server, croot, sroot);
    let newer = newer_on_server_seq(server, client, sroot, croot);
    let so = server_only_seq(client, server, sroot, croot);
    let nc = needed_by_client_seq(server, client, sroot, croot);
    assert forall|x: FileMetadata| #[trigger] nbs.contains(x) implies nc.contains(x) by {
        lemma_needed_by_server_sound(client, server, croot, sroot);
        let k = choose|k: int|
            0 <= k < client.len() && (#[trigger] client[k]) == x && needs_on_server(
                client[k],
                server,
                croot,
                sroot,
            );
        let tr = translate_path(client[k].full_path@, croot, sroot);
        lemma_first_with_path_props(server, tr);
        match first_with_path(server, tr) {
            None => {
                assert(only_on_server(client[k], server, sroot, croot));
                lemma_server_only_complete(client, server, sroot, croot, k);
                lemma_add_contains(newer, so, x);
            },
            Some(j) => {
                assert(server[j].full_path@ == tr);
                assert(client[k].modified_time > server[j].modified_time);
                lemma_translate_round_trip(client[k].full_path@, croot, sroot);
                assert(translate_path(server[j].full_path@, sroot, croot)
                    == client[k].full_path@);
                lemma_first_with_path_unique(client, client[k].full_path@, k);
                assert(newer_server_match(server[j], client, sroot, croot) == Some(client[k]));
                lemma_newer_on_server_complete(server, client, sroot, croot, j, x);
                lemma_add_contains(newer, so, x);
            },
        }
    }
    assert forall|x: FileMetadata| #[trigger] nc.contains(x) implies nbs.contains(x) by {
        lemma_add_contains(newer, so, x);
        if newer.contains(x) {
            lemma_newer_on_server_sound(server, client, sroot, croot);
            let j = choose|j: int|
                0 <= j < server.len() && newer_server_match(
                    #[trigger] server[j],
                    client,
                    sroot,
                    croot,
                ) == Some(x);
            let tr = translate_path(server[j].full_path@, sroot, croot);
            lemma_first_with_path_props(client, tr);
            let k = first_with_path(client, tr)->0;
            assert(x == client[k]);
            assert(client[k].modified_time > server[j].modified_time);
            lemma_translate_round_trip(server[j].full_path@, sroot, croot);
            assert(translate_path(client[k].full_path@, croot, sroot) == server[j].full_path@);
            lemma_first_with_path_unique(server, server[j].full_path@, j);
            assert(needs_on_server(client[k], server, croot, sroot));
            lemma_needed_by_server_complete(client, server, croot, sroot, k);
        } else {
            lemma_server_only_sound(client, server, sroot, croot);
            let k = choose|k: int|
                0 <= k < client.len() && (#[trigger] client[k]) == x && only_on_server(
                    client[k],
                    server,
                    sroot,
                    croot,
                );
            assert(first_with_path(server, translate_path(client[k].full_path@, croot, sroot))
                is None);
            assert(needs_on_server(client[k], server, croot, sroot));
            lemma_needed_by_server_complete(client, server, croot, sroot, k);
        }
    }
}

/// Diff symmetry: reconciling with the roles of the two replicas swapped
/// yields the swapped result — each side's "needed" set is unchanged, only
/// relabelled.
pub proof fn lemma_diff_symmetry(
    client: Seq<FileMetadata>,
    server: Seq<FileMetadata>,
    croot: Seq<char>,
    sroot: Seq<char>,
)
    requires
        distinct_paths(client),
        distinct_paths(server),
        vault_diff_ok(client, server, croot, sroot),
    ensures
        forall|x: FileMetadata|
            #[trigger] needed_by_server_seq(client, server, croot, sroot).contains(x)
                <==> needed_by_client_seq(server, client, sroot, croot).contains(x),
        forall|x: FileMetadata|
            #[trigger] needed_by_client_seq(client, server, croot, sroot).contains(x)
                <==> needed_by_server_seq(server, client, sroot, croot).contains(x),
{
    lemma_nbs_equals_swapped_nc(client, server, croot, sroot);
    lemma_nbs_equals_swapped_nc(server, client, sroot, croot);
}

/// A count of all-new entries equals the prefix length.
proof fn lemma_new_before_all_new(
    s: Seq<FileMetadata>,
    vault_id: int,
    disk: Seq<crate::scanner::DiskEntry>,
    i: int,
)
    requires
        0 <= i,
        forall|j: int|
            0 <= j < i ==> crate::store::first_in_vault_with_path(
                s,
                vault_id,
                (#[trigger] disk[j]).path@,
            ) is None,
    ensures
        crate::scanner::new_before(s, vault_id, disk, i) == i,
    decreases i,
{
    if i > 0 {
        lemma_new_before_all_new(s, vault_id, disk, i - 1);
    }
}

/// Allocation monotonicity: when the authoritative side scans `n` files the
/// vault does not know yet, they get the consecutive identifiers starting
/// one past the vault's greatest assigned identifier — pairwise distinct by
/// construction.
pub proof fn lemma_allocation_monotonic(
    s: Seq<FileMetadata>,
    vault_id: int,
    disk: Seq<crate::scanner::DiskEntry>,
    n: int,
)
    requires
        0 <= n <= disk.len(),
        forall|i: int|
            0 <= i < n ==> crate::store::first_in_vault_with_path(
                s,
                vault_id,
                (#[trigger] disk[i]).path@,
            ) is None,
    ensures
        forall|i: int|
            0 <= i < n ==> crate::scanner::scanned_id(
                s,
                vault_id,
                disk,
                crate::scanner::AllocationRole::Authoritative,
                i,
            ) == crate::store::alloc_base(s, vault_id) + i,
        forall|i: int, j: int|
            0 <= i < j < n ==> crate::scanner::scanned_id(
                s,
                vault_id,
                disk,
                crate::scanner::AllocationRole::Authoritative,
                i,
            ) != crate::scanner::scanned_id(
                s,
                vault_id,
                disk,
                crate::scanner::AllocationRole::Authoritative,
                j,
            ),
{
    assert forall|i: int| 0 <= i < n implies crate::scanner::scanned_id(
        s,
        vault_id,
        disk,
        crate::scanner::AllocationRole::Authoritative,
        i,
    ) == crate::store::alloc_base(s, vault_id) + i by {
        lemma_new_before_all_new(s, vault_id, disk, i);
    }
}

/// The first position is the matching position with nothing matching
/// before it.
proof fn lemma_first_in_vault_with_path_of(
    s: Seq<FileMetadata>,
    vault_id: int,
    p: Seq<char>,
    i: int,
)
    requires
        0 <= i < s.len(),
        s[i].vault_id as int == vault_id,
        s[i].full_path@ == p,
        forall|j: int|
            0 <= j < i ==> !((#[trigger] s[j]).vault_id as int == vault_id && s[j].full_path@
                == p),
    ensures
        crate::store::first_in_vault_with_path(s, vault_id, p) == Some(i),
    decreases s.len(),
{
    if i > 0 {
        let rest = s.drop_first();
        assert forall|j: int| 0 <= j < rest.len() implies rest[j] == s[j + 1] by {}
        lemma_first_in_vault_with_path_of(rest, vault_id, p, i - 1);
    }
}

/// Materialization leaves nothing to rescan: after the store takes a
/// record — as it does when the Materializer writes the file and restores
/// its declared modification time — the vault's record for that path is
/// exactly the record taken, and upserting the same record again leaves the
/// store unchanged, so the next scan has nothing to write.
pub proof fn lemma_materialize_then_scan_unchanged(s: Seq<FileMetadata>, rec: FileMetadata)
    ensures
        ({
            let t = crate::store::upsert_one(s, rec);
            &&& crate::store::first_in_vault_with_path(t, rec.vault_id as int, rec.full_path@)
                matches Some(i) && t[i] == rec
            &&& crate::store::upsert_one(t, rec) == t
        }),
{
    crate::store::lemma_first_in_vault_with_path_props(s, rec.vault_id as int, rec.full_path@);
    let t = crate::store::upsert_one(s, rec);
    match crate::store::first_in_vault_with_path(s, rec.vault_id as int, rec.full_path@) {
        Some(i) => {
            assert(t == s.update(i, rec));
            assert forall|j: int|
                0 <= j < i implies !((#[trigger] t[j]).vault_id as int == rec.vault_id as int
                && t[j].full_path@ == rec.full_path@) by {
                assert(t[j] == s[j]);
            }
            lemma_first_in_vault_with_path_of(t, rec.vault_id as int, rec.full_path@, i);
            assert(t.update(i, rec) =~= t);
        },
        None => {
            let n = s.len() as int;
            assert(t == s.push(rec));
            assert forall|j: int|
                0 <= j < n implies !((#[trigger] t[j]).vault_id as int == rec.vault_id as int
                && t[j].full_path@ == rec.full_path@) by {
                assert(t[j] == s[j]);
            }
            lemma_first_in_vault_with_path_of(t, rec.vault_id as int, rec.full_path@, n);
            assert(t.update(n, rec) =~= t);
        },
    }
}

/// What one side needs never names a path twice.
pub proof fn lemma_needed_by_server_distinct(
    client: Seq<FileMetadata>,
    server: Seq<FileMetadata>,
    croot: Seq<char>,
    sroot: Seq<char>,
)
    requires
        distinct_paths(client),
    ensures
        distinct_paths(needed_by_server_seq(client, server, croot, sroot)),
    decreases client.len(),
{
    if client.len() > 0 {
        let cd = client.drop_last();
        assert forall|i: int| 0 <= i < cd.len() implies cd[i] == client[i] by {}
        assert(distinct_paths(cd));
        lemma_needed_by_server_distinct(cd, server, croot, sroot);
        lemma_needed_by_server_sound(cd, server, croot, sroot);
        let rest = needed_by_server_seq(cd, server, croot, sroot);
        let t = needed_by_server_seq(client, server, croot, sroot);
        if needs_on_server(client.last(), server, croot, sroot) {
            assert(t =~= rest.push(client.last()));
            assert forall|a: int, b: int|
                0 <= a < b < t.len() implies (#[trigger] t[a]).full_path@ != (
            #[trigger] t[b]).full_path@ by {
                if b < rest.len() {
                    assert(t[a] == rest[a] && t[b] == rest[b]);
                } else {
                    assert(t[b] == client.last());
                    assert(t[a] == rest[a]);
                    assert(rest.contains(rest[a]));
                    let k = choose|k: int|
                        0 <= k < cd.len() && (#[trigger] cd[k]) == rest[a] && needs_on_server(
                            cd[k],
                            server,
                            croot,
                            sroot,
                        );
                    assert(client[k] == rest[a]);
                    assert(client.last() == client[client.len() - 1]);
                }
            }
        } else {
            assert(t =~= rest);
        }
    }
}

/// The newer server copies of distinct client files sit at distinct paths.
proof fn lemma_newer_on_server_distinct(
    client: Seq<FileMetadata>,
    server: Seq<FileMetadata>,
    croot: Seq<char>,
    sroot: Seq<char>,
)
    requires
        distinct_paths(client),
        forall|i: int|
            0 <= i < client.len() ==> is_under_root((#[trigger] client[i]).full_path@, croot),
    ensures
        distinct_paths(newer_on_server_seq(client, server, croot, sroot)),
        forall|x: FileMetadata|
            #[trigger] newer_on_server_seq(client, server, croot, sroot).contains(x) ==> exists|
                k: int,
            |
                0 <= k < client.len() && x.full_path@ == translate_path(
                    (#[trigger] client[k]).full_path@,
                    croot,
                    sroot,
                ),
    decreases client.len(),
{
    lemma_newer_on_server_sound(client, server, croot, sroot);
    assert forall|x: FileMetadata|
        #[trigger] newer_on_server_seq(client, server, croot, sroot).contains(x) implies exists|
        k: int,
    |
        0 <= k < client.len() && x.full_path@ == translate_path(
            (#[trigger] client[k]).full_path@,
            croot,
            sroot,
        ) by {
        let k = choose|k: int|
            0 <= k < client.len() && newer_server_match(
                #[trigger] client[k],
                server,
                croot,
                sroot,
            ) == Some(x);
        let tr = translate_path(client[k].full_path@, croot, sroot);
        lemma_first_with_path_props(server, tr);
        assert(x.full_path@ == translate_path((#[trigger] client[k]).full_path@, croot, sroot));
    }
    if client.len() > 0 {
        let cd = client.drop_last();
        assert forall|i: int| 0 <= i < cd.len() implies cd[i] == client[i] by {}
        assert(distinct_paths(cd));
        lemma_newer_on_server_distinct(cd, server, croot, sroot);
        let rest = newer_on_server_seq(cd, server, croot, sroot);
        let t = newer_on_server_seq(client, server, croot, sroot);
        match newer_server_match(client.last(), server, croot, sroot) {
            Some(g) => {
                assert(t =~= rest.push(g));
                let trl = translate_path(client.last().full_path@, croot, sroot);
                lemma_first_with_path_props(server, trl);
                assert(g.full_path@ == trl);
                assert forall|a: int, b: int|
                    0 <= a < b < t.len() implies (#[trigger] t[a]).full_path@ != (
                #[trigger] t[b]).full_path@ by {
                    if b < rest.len() {
                        assert(t[a] == rest[a] && t[b] == rest[b]);
                    } else {
                        assert(t[b] == g);
                        assert(t[a] == rest[a]);
                        assert(rest.contains(rest[a]));
                        let k = choose|k: int|
                            0 <= k < cd.len() && rest[a].full_path@ == translate_path(
                                (#[trigger] cd[k]).full_path@,
                                croot,
                                sroot,
                            );
                        assert(client[k] == cd[k]);
                        assert(client.last() == client[client.len() - 1]);
                        if rest[a].full_path@ == g.full_path@ {
                            crate::paths::lemma_translate_round_trip(
                                client[k].full_path@,
                                croot,
                                sroot,
                            );
                            crate::paths::lemma_translate_round_trip(
                                client.last().full_path@,
                                croot,
                                sroot,
                            );
                            assert(client[k].full_path@ == client.last().full_path@);
                            assert(false);
                        }
                    }
                }
            },
            None => {
                assert(t =~= rest);
            },
        }
    }
}

/// The records only the server holds sit at distinct paths.
proof fn lemma_server_only_distinct(
    server: Seq<FileMetadata>,
    client: Seq<FileMetadata>,
    croot: Seq<char>,
    sroot: Seq<char>,
)
    requires
        distinct_paths(server),
    ensures
        distinct_paths(server_only_seq(server, client, croot, sroot)),
    decreases server.len(),
{
    if server.len() > 0 {
        let sd = server.drop_last();
        assert forall|i: int| 0 <= i < sd.len() implies sd[i] == server[i] by {}
        assert(distinct_paths(sd));
        lemma_server_only_distinct(sd, client, croot, sroot);
        lemma_server_only_sound(sd, client, croot, sroot);
        let rest = server_only_seq(sd, client, croot, sroot);
        let t = server_only_seq(server, client, croot, sroot);
        if only_on_server(server.last(), client, croot, sroot) {
            assert(t =~= rest.push(server.last()));
            assert forall|a: int, b: int|
                0 <= a < b < t.len() implies (#[trigger] t[a]).full_path@ != (
            #[trigger] t[b]).full_path@ by {
                if b < rest.len() {
                    assert(t[a] == rest[a] && t[b] == rest[b]);
                } else {
                    assert(t[b] == server.last());
                    assert(t[a] == rest[a]);
                    assert(rest.contains(rest[a]));
                    let m = choose|m: int|
                        0 <= m < sd.len() && (#[trigger] sd[m]) == rest[a] && only_on_server(
                            sd[m],
                            client,
                            croot,
                            sroot,
                        );
                    assert(server[m] == rest[a]);
                    assert(server.last() == server[server.len() - 1]);
                }
            }
        } else {
            assert(t =~= rest);
        }
    }
}

/// What the client needs never names a path twice.
pub proof fn lemma_needed_by_client_distinct(
    client: Seq<FileMetadata>,
    server: Seq<FileMetadata>,
    croot: Seq<char>,
    sroot: Seq<char>,
)
    requires
        distinct_paths(client),
        distinct_paths(server),
        vault_diff_ok(client, server, croot, sroot),
    ensures
        distinct_paths(needed_by_client_seq(client, server, croot, sroot)),
{
    lemma_newer_on_server_distinct(client, server, croot, sroot);
    lemma_server_only_distinct(server, client, croot, sroot);
    lemma_server_only_sound(server, client, croot, sroot);
    let newer = newer_on_server_seq(client, server, croot, sroot);
    let so = server_only_seq(server, client, croot, sroot);
    let t = needed_by_client_seq(client, server, croot, sroot);
    assert forall|a: int, b: int|
        0 <= a < b < t.len() implies (#[trigger] t[a]).full_path@ != (#[trigger] t[b]).full_path@ by {
        if b < newer.len() {
            assert(t[a] == newer[a] && t[b] == newer[b]);
        } else if a >= newer.len() {
            assert(t[a] == so[a - newer.len()] && t[b] == so[b - newer.len()]);
        } else {
            // one newer copy, one record only the server holds: the first
            // has a client counterpart at its path, the second has none
            assert(t[a] == newer[a] && t[b] == so[b - newer.len()]);
            assert(newer.contains(newer[a]));
            assert(so.contains(so[b - newer.len()]));
            let k = choose|k: int|
                0 <= k < client.len() && newer[a].full_path@ == translate_path(
                    (#[trigger] client[k]).full_path@,
                    croot,
                    sroot,
                );
            let m = choose|m: int|
                0 <= m < server.len() && (#[trigger] server[m]) == so[b - newer.len()]
                    && only_on_server(server[m], client, croot, sroot);
            if t[a].full_path@ == t[b].full_path@ {
                crate::paths::lemma_translate_round_trip(client[k].full_path@, croot, sroot);
                lemma_first_with_path_props(
                    client,
                    translate_path(server[m].full_path@, sroot, croot),
                );
                assert(translate_path(server[m].full_path@, sroot, croot)
                    == client[k].full_path@);
                assert(false);
            }
        }
    }
}

} // verus!
