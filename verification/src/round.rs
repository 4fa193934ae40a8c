//! The round theorem: one completed exchange leaves the two snapshots in
//! agreement, so the next reconciliation asks for nothing.
//!
//! The server takes every record it needed, re-rooted to its side; the
//! client takes every record it needed, re-rooted to its side.  Each side
//! upserts what it received by path.  These lemmas show the resulting
//! snapshots agree record for record, and with the idempotence law that the
//! second run's diff is empty in both directions.

use vstd::prelude::*;

verus! {

use crate::diff::{
    first_with_path, lemma_first_with_path_props, needed_by_client_seq, needed_by_server_seq,
    needs_on_server, newer_server_match, only_on_server, vault_diff_ok,
};
use crate::laws::{
    distinct_paths, lemma_add_contains, lemma_first_with_path_unique,
    lemma_needed_by_client_members, lemma_needed_by_client_sound, lemma_needed_by_server_complete,
    lemma_needed_by_server_sound, lemma_newer_on_server_complete, lemma_second_run_empty,
    snapshots_agree,
};
use crate::paths::{is_under_root, lemma_translate_round_trip, translate_path};
use crate::records::FileMetadata;

/// A snapshot after one received record: the record replaces the snapshot's
/// record at the same path, or joins the snapshot.
pub open spec fn snap_upsert_one(s: Seq<FileMetadata>, rec: FileMetadata) -> Seq<FileMetadata> {
    match first_with_path(s, rec.full_path@) {
        Some(i) => s.update(i, rec),
        None => s.push(rec),
    }
}

/// A snapshot after receiving each record in order.
pub open spec fn snap_upserts(s: Seq<FileMetadata>, recs: Seq<FileMetadata>) -> Seq<FileMetadata>
    decreases recs.len(),
{
    if recs.len() == 0 {
        s
    } else {
        snap_upsert_one(snap_upserts(s, recs.drop_last()), recs.last())
    }
}

/// Two snapshots with the same paths position for position agree on every
/// path lookup.
proof fn lemma_first_with_path_congruent(a: Seq<FileMetadata>, b: Seq<FileMetadata>, p: Seq<char>)
    requires
        a.len() == b.len(),
        forall|i: int| 0 <= i < a.len() ==> (#[trigger] a[i]).full_path@ == b[i].full_path@,
    ensures
        first_with_path(a, p) == first_with_path(b, p),
    decreases a.len(),
{
    if a.len() > 0 && a[0].full_path@ != p {
        let ar = a.drop_first();
        let br = b.drop_first();
        assert forall|i: int| 0 <= i < ar.len() implies (#[trigger] ar[i]).full_path@
            == br[i].full_path@ by {
            assert(ar[i] == a[i + 1] && br[i] == b[i + 1]);
        }
        lemma_first_with_path_congruent(ar, br, p);
    }
}

/// Appending a record moves a failed lookup to it and leaves a successful
/// lookup alone.
proof fn lemma_first_with_path_push(s: Seq<FileMetadata>, x: FileMetadata, p: Seq<char>)
    ensures
        first_with_path(s.push(x), p) == (match first_with_path(s, p) {
            Some(i) => Some(i),
            None => if x.full_path@ == p {
                Some(s.len() as int)
            } else {
                None
            },
        }),
    decreases s.len(),
{
    let t = s.push(x);
    if s.len() == 0 {
        assert(t[0] == x);
        if x.full_path@ == p {
            assert(first_with_path(t, p) == Some(0int));
        } else {
            assert(t.drop_first() =~= Seq::<FileMetadata>::empty());
            assert(first_with_path(t.drop_first(), p) is None);
            assert(first_with_path(t, p) is None);
        }
    } else {
        assert(t[0] == s[0]);
        if s[0].full_path@ == p {
            assert(first_with_path(t, p) == Some(0int));
            assert(first_with_path(s, p) == Some(0int));
        } else {
            assert(t.drop_first() =~= s.drop_first().push(x));
            lemma_first_with_path_push(s.drop_first(), x, p);
            assert(first_with_path(t, p) == (match first_with_path(t.drop_first(), p) {
                Some(i) => Some(i + 1),
                None => None::<int>,
            }));
            assert(first_with_path(s, p) == (match first_with_path(s.drop_first(), p) {
                Some(i) => Some(i + 1),
                None => None::<int>,
            }));
        }
    }
}

/// What a lookup finds after a round of received records: the received
/// record for a path the round carried, the original record otherwise.
proof fn lemma_snap_upserts_lookup(s: Seq<FileMetadata>, recs: Seq<FileMetadata>, p: Seq<char>)
    requires
        distinct_paths(recs),
    ensures
        match first_with_path(recs, p) {
            Some(k) => first_with_path(snap_upserts(s, recs), p) matches Some(j) && 0 <= j
                < snap_upserts(s, recs).len() && snap_upserts(s, recs)[j] == recs[k],
            None => (match first_with_path(s, p) {
                Some(i) => first_with_path(snap_upserts(s, recs), p) matches Some(j) && 0 <= j
                    < snap_upserts(s, recs).len() && snap_upserts(s, recs)[j] == s[i],
                None => first_with_path(snap_upserts(s, recs), p) is None,
            }),
        },
    decreases recs.len(),
{
    lemma_first_with_path_props(s, p);
    lemma_first_with_path_props(recs, p);
    if recs.len() == 0 {
    } else {
        let rest = recs.drop_last();
        let x = recs.last();
        let px = x.full_path@;
        let tp = snap_upserts(s, rest);
        let t = snap_upserts(s, recs);
        assert forall|i: int, j: int|
            0 <= i < j < rest.len() implies (#[trigger] rest[i]).full_path@ != (
        #[trigger] rest[j]).full_path@ by {
            assert(rest[i] == recs[i] && rest[j] == recs[j]);
        }
        lemma_snap_upserts_lookup(s, rest, p);
        lemma_snap_upserts_lookup(s, rest, px);
        lemma_first_with_path_props(tp, p);
        lemma_first_with_path_props(tp, px);
        lemma_first_with_path_props(rest, p);
        lemma_first_with_path_props(rest, px);
        // recs looked up as rest plus one more at the back
        assert(recs =~= rest.push(x));
        lemma_first_with_path_push(rest, x, p);
        match first_with_path(tp, px) {
            Some(i) => {
                assert(t == tp.update(i, x));
                assert forall|m: int| 0 <= m < t.len() implies (#[trigger] t[m]).full_path@
                    == tp[m].full_path@ by {
                    if m != i {
                        assert(t[m] == tp[m]);
                    }
                }
                lemma_first_with_path_congruent(t, tp, p);
                lemma_first_with_path_congruent(t, tp, px);
                if p == px {
                    assert(t[i] == x);
                } else {
                    match first_with_path(tp, p) {
                        Some(j) => {
                            assert(tp[j].full_path@ == p);
                            assert(j != i);
                            assert(t[j] == tp[j]);
                        },
                        None => {},
                    }
                }
            },
            None => {
                assert(t == tp.push(x));
                lemma_first_with_path_push(tp, x, p);
                if p == px {
                    assert(t[tp.len() as int] == x);
                } else {
                    match first_with_path(tp, p) {
                        Some(j) => {
                            assert(t[j] == tp[j]);
                        },
                        None => {},
                    }
                }
            },
        }
    }
}

/// Everything in the snapshot after a round was there before or arrived
/// with the round.
proof fn lemma_snap_upserts_members(s: Seq<FileMetadata>, recs: Seq<FileMetadata>)
    ensures
        forall|j: int|
            0 <= j < snap_upserts(s, recs).len() ==> s.contains(
                #[trigger] snap_upserts(s, recs)[j],
            ) || recs.contains(snap_upserts(s, recs)[j]),
    decreases recs.len(),
{
    if recs.len() > 0 {
        let rest = recs.drop_last();
        let x = recs.last();
        let tp = snap_upserts(s, rest);
        let t = snap_upserts(s, recs);
        lemma_snap_upserts_members(s, rest);
        lemma_first_with_path_props(tp, x.full_path@);
        assert forall|j: int| 0 <= j < t.len() implies s.contains(#[trigger] t[j]) || recs.contains(
            t[j],
        ) by {
            assert(recs[recs.len() - 1] == x);
            match first_with_path(tp, x.full_path@) {
                Some(i) => {
                    assert(t == tp.update(i, x));
                    if j == i {
                        assert(recs.contains(x));
                    } else {
                        assert(t[j] == tp[j]);
                        if rest.contains(tp[j]) {
                            let k = choose|k: int| 0 <= k < rest.len() && rest[k] == tp[j];
                            assert(recs[k] == tp[j]);
                        }
                    }
                },
                None => {
                    assert(t == tp.push(x));
                    if j == tp.len() {
                        assert(t[j] == x);
                        assert(recs.contains(x));
                    } else {
                        assert(t[j] == tp[j]);
                        if rest.contains(tp[j]) {
                            let k = choose|k: int| 0 <= k < rest.len() && rest[k] == tp[j];
                            assert(recs[k] == tp[j]);
                        }
                    }
                },
            }
        }
    }
}

/// A round keeps paths distinct.
proof fn lemma_snap_upserts_distinct(s: Seq<FileMetadata>, recs: Seq<FileMetadata>)
    requires
        distinct_paths(s),
    ensures
        distinct_paths(snap_upserts(s, recs)),
    decreases recs.len(),
{
    if recs.len() > 0 {
        let rest = recs.drop_last();
        let x = recs.last();
        let tp = snap_upserts(s, rest);
        let t = snap_upserts(s, recs);
        lemma_snap_upserts_distinct(s, rest);
        lemma_first_with_path_props(tp, x.full_path@);
        assert(recs.drop_last() == rest);
        match first_with_path(tp, x.full_path@) {
            Some(i) => {
                assert(t == tp.update(i, x));
                assert(tp[i].full_path@ == x.full_path@);
                assert forall|a: int, b: int|
                    0 <= a < b < t.len() implies (#[trigger] t[a]).full_path@ != (
                #[trigger] t[b]).full_path@ by {
                    assert(t[a].full_path@ == tp[a].full_path@);
                    assert(t[b].full_path@ == tp[b].full_path@);
                }
            },
            None => {
                assert(t == tp.push(x));
                assert forall|a: int, b: int|
                    0 <= a < b < t.len() implies (#[trigger] t[a]).full_path@ != (
                #[trigger] t[b]).full_path@ by {
                    if b == tp.len() {
                        assert(t[a] == tp[a] && t[b] == x);
                    } else {
                        assert(t[a] == tp[a] && t[b] == tp[b]);
                    }
                }
            },
        }
    }
}

/// Translation under one root is injective.
proof fn lemma_translate_injective(p1: Seq<char>, p2: Seq<char>, a: Seq<char>, b: Seq<char>)
    requires
        is_under_root(p1, a),
        is_under_root(p2, a),
        translate_path(p1, a, b) == translate_path(p2, a, b),
    ensures
        p1 == p2,
{
    lemma_translate_round_trip(p1, a, b);
    lemma_translate_round_trip(p2, a, b);
}

/// One completed exchange leaves the snapshots in agreement.
///
/// `pushed` is what the server received: the records the server needed,
/// re-rooted to the server's side.  `fetched` is what the client received:
/// the records the client needed, re-rooted to the client's side.  After
/// each side upserts what it received, every record of either side has a
/// counterpart with the same modification time on the other.
pub proof fn lemma_round_agreement(
    c: Seq<FileMetadata>,
    s: Seq<FileMetadata>,
    croot: Seq<char>,
    sroot: Seq<char>,
    pushed: Seq<FileMetadata>,
    fetched: Seq<FileMetadata>,
)
    requires
        distinct_paths(c),
        distinct_paths(s),
        vault_diff_ok(c, s, croot, sroot),
        pushed.len() == needed_by_server_seq(c, s, croot, sroot).len(),
        forall|k: int|
            0 <= k < pushed.len() ==> (#[trigger] pushed[k]).full_path@ == translate_path(
                needed_by_server_seq(c, s, croot, sroot)[k].full_path@,
                croot,
                sroot,
            ) && pushed[k].modified_time == needed_by_server_seq(
                c,
                s,
                croot,
                sroot,
            )[k].modified_time,
        fetched.len() == needed_by_client_seq(c, s, croot, sroot).len(),
        forall|k: int|
            0 <= k < fetched.len() ==> (#[trigger] fetched[k]).full_path@ == translate_path(
                needed_by_client_seq(c, s, croot, sroot)[k].full_path@,
                sroot,
                croot,
            ) && fetched[k].modified_time == needed_by_client_seq(
                c,
                s,
                croot,
                sroot,
            )[k].modified_time,
    ensures
        snapshots_agree(snap_upserts(c, fetched), snap_upserts(s, pushed), croot, sroot),
        distinct_paths(snap_upserts(c, fetched)),
        distinct_paths(snap_upserts(s, pushed)),
{
    let nbs = needed_by_server_seq(c, s, croot, sroot);
    let nc = needed_by_client_seq(c, s, croot, sroot);
    let c2 = snap_upserts(c, fetched);
    let s2 = snap_upserts(s, pushed);
    crate::laws::lemma_needed_by_server_distinct(c, s, croot, sroot);
    crate::laws::lemma_needed_by_client_distinct(c, s, croot, sroot);
    lemma_needed_by_server_sound(c, s, croot, sroot);
    lemma_needed_by_client_members(c, s, croot, sroot);
    assert forall|a: int, b: int|
        0 <= a < b < pushed.len() implies (#[trigger] pushed[a]).full_path@ != (
    #[trigger] pushed[b]).full_path@ by {
        assert(nbs.contains(nbs[a]));
        assert(nbs.contains(nbs[b]));
        let ia = choose|ia: int|
            0 <= ia < c.len() && (#[trigger] c[ia]) == nbs[a] && needs_on_server(
                c[ia],
                s,
                croot,
                sroot,
            );
        let ib = choose|ib: int|
            0 <= ib < c.len() && (#[trigger] c[ib]) == nbs[b] && needs_on_server(
                c[ib],
                s,
                croot,
                sroot,
            );
        if pushed[a].full_path@ == pushed[b].full_path@ {
            lemma_translate_injective(nbs[a].full_path@, nbs[b].full_path@, croot, sroot);
            assert(false);
        }
    }
    assert forall|a: int, b: int|
        0 <= a < b < fetched.len() implies (#[trigger] fetched[a]).full_path@ != (
    #[trigger] fetched[b]).full_path@ by {
        assert(nc.contains(nc[a]));
        assert(nc.contains(nc[b]));
        let ma = choose|ma: int| 0 <= ma < s.len() && (#[trigger] s[ma]) == nc[a];
        let mb = choose|mb: int| 0 <= mb < s.len() && (#[trigger] s[mb]) == nc[b];
        if fetched[a].full_path@ == fetched[b].full_path@ {
            lemma_translate_injective(nc[a].full_path@, nc[b].full_path@, sroot, croot);
            assert(false);
        }
    }
    lemma_snap_upserts_distinct(c, fetched);
    lemma_snap_upserts_distinct(s, pushed);
    lemma_snap_upserts_members(c, fetched);
    lemma_snap_upserts_members(s, pushed);
    lemma_needed_by_server_sound(c, s, croot, sroot);
    lemma_needed_by_client_sound(c, s, croot, sroot);
    lemma_needed_by_client_members(c, s, croot, sroot);

    // every record the client ends with has a server counterpart
    assert forall|i: int| #![trigger c2[i]] 0 <= i < c2.len() implies exists|j: int|
        0 <= j < s2.len() && (#[trigger] s2[j]).full_path@ == translate_path(
            c2[i].full_path@,
            croot,
            sroot,
        ) && s2[j].modified_time == c2[i].modified_time by {
        let x = c2[i];
        if fetched.contains(x) {
            // x arrived with the round: it mirrors a server record g
            let k = choose|k: int| 0 <= k < fetched.len() && fetched[k] == x;
            let g = nc[k];
            assert(nc.contains(g));
            let m = choose|m: int| 0 <= m < s.len() && (#[trigger] s[m]) == g;
            lemma_translate_round_trip(g.full_path@, sroot, croot);
            assert(translate_path(x.full_path@, croot, sroot) == g.full_path@);
            // the round pushed nothing onto g's path
            lemma_first_with_path_props(pushed, g.full_path@);
            match first_with_path(pushed, g.full_path@) {
                Some(k2) => {
                    let f2 = nbs[k2];
                    assert(nbs.contains(f2));
                    let i2 = choose|i2: int|
                        0 <= i2 < c.len() && (#[trigger] c[i2]) == f2 && needs_on_server(
                            c[i2],
                            s,
                            croot,
                            sroot,
                        );
                    assert(translate_path(f2.full_path@, croot, sroot) == g.full_path@);
                    lemma_first_with_path_unique(s, g.full_path@, m);
                    assert(f2.modified_time > g.modified_time);
                    if exists|k3: int|
                        0 <= k3 < c.len() && newer_server_match(
                            #[trigger] c[k3],
                            s,
                            croot,
                            sroot,
                        ) == Some(g) {
                        let k3 = choose|k3: int|
                            0 <= k3 < c.len() && newer_server_match(
                                #[trigger] c[k3],
                                s,
                                croot,
                                sroot,
                            ) == Some(g);
                        let tr3 = translate_path(c[k3].full_path@, croot, sroot);
                        lemma_first_with_path_props(s, tr3);
                        assert(g.full_path@ == tr3);
                        lemma_translate_injective(
                            c[k3].full_path@,
                            f2.full_path@,
                            croot,
                            sroot,
                        );
                        assert(c[k3] == f2) by {
                            if k3 != i2 {
                                assert(c[k3].full_path@ != c[i2].full_path@);
                                assert(false);
                            }
                        }
                        assert(g.modified_time > f2.modified_time);
                        assert(false);
                    } else {
                        let m4 = choose|m4: int|
                            0 <= m4 < s.len() && (#[trigger] s[m4]) == g && only_on_server(
                                s[m4],
                                c,
                                croot,
                                sroot,
                            );
                        lemma_translate_round_trip(f2.full_path@, croot, sroot);
                        assert(f2.full_path@ == translate_path(g.full_path@, sroot, croot));
                        lemma_first_with_path_props(
                            c,
                            translate_path(g.full_path@, sroot, croot),
                        );
                        assert(false);
                    }
                },
                None => {},
            }
            lemma_first_with_path_unique(s, g.full_path@, m);
            lemma_snap_upserts_lookup(s, pushed, g.full_path@);
            lemma_first_with_path_props(s2, g.full_path@);
            let j = first_with_path(s2, g.full_path@)->0;
            assert(s2[j] == g);
            assert(s2[j].modified_time == x.modified_time);
        } else {
            assert(c.contains(x));
            let i0 = choose|i0: int| 0 <= i0 < c.len() && c[i0] == x;
            // nothing the round fetched sits on x's path
            lemma_first_with_path_props(fetched, x.full_path@);
            match first_with_path(fetched, x.full_path@) {
                Some(kf) => {
                    lemma_snap_upserts_lookup(c, fetched, x.full_path@);
                    lemma_first_with_path_props(c2, x.full_path@);
                    let j2 = first_with_path(c2, x.full_path@)->0;
                    assert(c2[j2] == fetched[kf]);
                    assert(c2[j2].full_path@ == x.full_path@);
                    assert(j2 == i) by {
                        if j2 != i {
                            assert(c2[j2].full_path@ != c2[i].full_path@);
                            assert(false);
                        }
                    }
                    assert(fetched.contains(x));
                    assert(false);
                },
                None => {},
            }
            let tr = translate_path(x.full_path@, croot, sroot);
            lemma_first_with_path_props(s, tr);
            if needs_on_server(x, s, croot, sroot) {
                lemma_needed_by_server_complete(c, s, croot, sroot, i0);
                assert(nbs.contains(x));
                lemma_first_with_path_props(pushed, tr);
                let k2 = choose|k2: int| 0 <= k2 < nbs.len() && nbs[k2] == x;
                assert(pushed[k2].full_path@ == tr);
                match first_with_path(pushed, tr) {
                    Some(k3) => {
                        assert(pushed[k3].full_path@ == tr);
                        assert(nbs.contains(nbs[k3]));
                        let i3 = choose|i3: int|
                            0 <= i3 < c.len() && (#[trigger] c[i3]) == nbs[k3]
                                && needs_on_server(c[i3], s, croot, sroot);
                        lemma_translate_injective(
                            nbs[k3].full_path@,
                            x.full_path@,
                            croot,
                            sroot,
                        );
                        assert(nbs[k3] == x) by {
                            if i3 != i0 {
                                assert(c[i3].full_path@ != c[i0].full_path@);
                                assert(false);
                            }
                        }
                        lemma_snap_upserts_lookup(s, pushed, tr);
                        lemma_first_with_path_props(s2, tr);
                        let j = first_with_path(s2, tr)->0;
                        assert(s2[j] == pushed[k3]);
                        assert(s2[j].modified_time == x.modified_time);
                    },
                    None => {
                        assert(false);
                    },
                }
            } else {
                let m = first_with_path(s, tr)->0;
                let g = s[m];
                assert(g.full_path@ == tr);
                assert(x.modified_time <= g.modified_time);
                if g.modified_time == x.modified_time {
                    lemma_first_with_path_props(pushed, tr);
                    match first_with_path(pushed, tr) {
                        Some(k2) => {
                            assert(nbs.contains(nbs[k2]));
                            let i3 = choose|i3: int|
                                0 <= i3 < c.len() && (#[trigger] c[i3]) == nbs[k2]
                                    && needs_on_server(c[i3], s, croot, sroot);
                            lemma_translate_injective(
                                nbs[k2].full_path@,
                                x.full_path@,
                                croot,
                                sroot,
                            );
                            assert(nbs[k2] == x) by {
                                if i3 != i0 {
                                    assert(c[i3].full_path@ != c[i0].full_path@);
                                    assert(false);
                                }
                            }
                            assert(needs_on_server(x, s, croot, sroot));
                            assert(false);
                        },
                        None => {},
                    }
                    lemma_snap_upserts_lookup(s, pushed, tr);
                    lemma_first_with_path_props(s2, tr);
                    let j = first_with_path(s2, tr)->0;
                    assert(s2[j] == g);
                } else {
                    assert(newer_server_match(x, s, croot, sroot) == Some(g));
                    lemma_newer_on_server_complete(c, s, croot, sroot, i0, g);
                    lemma_add_contains(
                        crate::diff::newer_on_server_seq(c, s, croot, sroot),
                        crate::diff::server_only_seq(s, c, croot, sroot),
                        g,
                    );
                    assert(nc.contains(g));
                    let kn = choose|kn: int| 0 <= kn < nc.len() && nc[kn] == g;
                    lemma_translate_round_trip(x.full_path@, croot, sroot);
                    assert(fetched[kn].full_path@ == x.full_path@);
                    assert(first_with_path(fetched, x.full_path@) is None);
                    lemma_first_with_path_props(fetched, x.full_path@);
                    assert(false);
                }
            }
        }
    }

    // every record the server ends with has a client counterpart
    assert forall|j: int| #![trigger s2[j]] 0 <= j < s2.len() implies exists|i: int|
        0 <= i < c2.len() && (#[trigger] c2[i]).full_path@ == translate_path(
            s2[j].full_path@,
            sroot,
            croot,
        ) && c2[i].modified_time == s2[j].modified_time by {
        let y = s2[j];
        if pushed.contains(y) {
            // y arrived with the round: it mirrors a client record f
            let k = choose|k: int| 0 <= k < pushed.len() && pushed[k] == y;
            let f = nbs[k];
            assert(nbs.contains(f));
            let i0 = choose|i0: int|
                0 <= i0 < c.len() && (#[trigger] c[i0]) == f && needs_on_server(
                    c[i0],
                    s,
                    croot,
                    sroot,
                );
            lemma_translate_round_trip(f.full_path@, croot, sroot);
            assert(translate_path(y.full_path@, sroot, croot) == f.full_path@);
            // the round fetched nothing onto f's path
            lemma_first_with_path_props(fetched, f.full_path@);
            match first_with_path(fetched, f.full_path@) {
                Some(kf) => {
                    let g0 = nc[kf];
                    assert(nc.contains(g0));
                    let m0 = choose|m0: int| 0 <= m0 < s.len() && (#[trigger] s[m0]) == g0;
                    lemma_translate_round_trip(g0.full_path@, sroot, croot);
                    assert(g0.full_path@ == translate_path(f.full_path@, croot, sroot));
                    lemma_first_with_path_unique(
                        s,
                        translate_path(f.full_path@, croot, sroot),
                        m0,
                    );
                    assert(f.modified_time > g0.modified_time);
                    if exists|k3: int|
                        0 <= k3 < c.len() && newer_server_match(
                            #[trigger] c[k3],
                            s,
                            croot,
                            sroot,
                        ) == Some(g0) {
                        let k3 = choose|k3: int|
                            0 <= k3 < c.len() && newer_server_match(
                                #[trigger] c[k3],
                                s,
                                croot,
                                sroot,
                            ) == Some(g0);
                        let tr3 = translate_path(c[k3].full_path@, croot, sroot);
                        lemma_first_with_path_props(s, tr3);
                        assert(g0.full_path@ == tr3);
                        lemma_translate_injective(c[k3].full_path@, f.full_path@, croot, sroot);
                        assert(c[k3] == f) by {
                            if k3 != i0 {
                                assert(c[k3].full_path@ != c[i0].full_path@);
                                assert(false);
                            }
                        }
                        assert(g0.modified_time > f.modified_time);
                        assert(false);
                    } else {
                        let m4 = choose|m4: int|
                            0 <= m4 < s.len() && (#[trigger] s[m4]) == g0 && only_on_server(
                                s[m4],
                                c,
                                croot,
                                sroot,
                            );
                        lemma_first_with_path_props(
                            c,
                            translate_path(g0.full_path@, sroot, croot),
                        );
                        assert(false);
                    }
                },
                None => {},
            }
            lemma_first_with_path_unique(c, f.full_path@, i0);
            lemma_snap_upserts_lookup(c, fetched, f.full_path@);
            lemma_first_with_path_props(c2, f.full_path@);
            let i = first_with_path(c2, f.full_path@)->0;
            assert(c2[i] == f);
            assert(c2[i].modified_time == y.modified_time);
        } else {
            assert(s.contains(y));
            let m0 = choose|m0: int| 0 <= m0 < s.len() && s[m0] == y;
            // nothing the round pushed sits on y's path
            lemma_first_with_path_props(pushed, y.full_path@);
            match first_with_path(pushed, y.full_path@) {
                Some(kp) => {
                    lemma_snap_upserts_lookup(s, pushed, y.full_path@);
                    lemma_first_with_path_props(s2, y.full_path@);
                    let j2 = first_with_path(s2, y.full_path@)->0;
                    assert(s2[j2] == pushed[kp]);
                    assert(j2 == j) by {
                        if j2 != j {
                            assert(s2[j2].full_path@ != s2[j].full_path@);
                            assert(false);
                        }
                    }
                    assert(pushed.contains(y));
                    assert(false);
                },
                None => {},
            }
            let back = translate_path(y.full_path@, sroot, croot);
            lemma_translate_round_trip(y.full_path@, sroot, croot);
            lemma_first_with_path_props(c, back);
            match first_with_path(c, back) {
                None => {
                    // the client has never seen y: it was fetched
                    assert(only_on_server(y, c, croot, sroot)) by {
                        assert(s[m0] == y);
                    }
                    crate::laws::lemma_server_only_complete(s, c, croot, sroot, m0);
                    lemma_add_contains(
                        crate::diff::newer_on_server_seq(c, s, croot, sroot),
                        crate::diff::server_only_seq(s, c, croot, sroot),
                        y,
                    );
                    assert(nc.contains(y));
                    let kn = choose|kn: int| 0 <= kn < nc.len() && nc[kn] == y;
                    assert(fetched[kn].full_path@ == back);
                    lemma_first_with_path_props(fetched, back);
                    match first_with_path(fetched, back) {
                        Some(kf) => {
                            let g1 = nc[kf];
                            assert(nc.contains(g1));
                            let m1 = choose|m1: int|
                                0 <= m1 < s.len() && (#[trigger] s[m1]) == g1;
                            lemma_translate_injective(
                                g1.full_path@,
                                y.full_path@,
                                sroot,
                                croot,
                            );
                            assert(g1 == y) by {
                                if m1 != m0 {
                                    assert(s[m1].full_path@ != s[m0].full_path@);
                                    assert(false);
                                }
                            }
                            lemma_snap_upserts_lookup(c, fetched, back);
                            lemma_first_with_path_props(c2, back);
                            let i = first_with_path(c2, back)->0;
                            assert(c2[i] == fetched[kf]);
                            assert(c2[i].modified_time == y.modified_time);
                        },
                        None => {
                            assert(false);
                        },
                    }
                },
                Some(i1) => {
                    let f = c[i1];
                    assert(f.full_path@ == back);
                    assert(y.full_path@ == translate_path(f.full_path@, croot, sroot));
                    lemma_first_with_path_unique(s, y.full_path@, m0);
                    if y.modified_time > f.modified_time {
                        assert(newer_server_match(f, s, croot, sroot) == Some(y));
                        lemma_newer_on_server_complete(c, s, croot, sroot, i1, y);
                        lemma_add_contains(
                            crate::diff::newer_on_server_seq(c, s, croot, sroot),
                            crate::diff::server_only_seq(s, c, croot, sroot),
                            y,
                        );
                        assert(nc.contains(y));
                        let kn = choose|kn: int| 0 <= kn < nc.len() && nc[kn] == y;
                        assert(fetched[kn].full_path@ == back);
                        lemma_first_with_path_props(fetched, back);
                        match first_with_path(fetched, back) {
                            Some(kf) => {
                                let g1 = nc[kf];
                                assert(nc.contains(g1));
                                let m1 = choose|m1: int|
                                    0 <= m1 < s.len() && (#[trigger] s[m1]) == g1;
                                lemma_translate_injective(
                                    g1.full_path@,
                                    y.full_path@,
                                    sroot,
                                    croot,
                                );
                                assert(g1 == y) by {
                                    if m1 != m0 {
                                        assert(s[m1].full_path@ != s[m0].full_path@);
                                        assert(false);
                                    }
                                }
                                lemma_snap_upserts_lookup(c, fetched, back);
                                lemma_first_with_path_props(c2, back);
                                let i = first_with_path(c2, back)->0;
                                assert(c2[i] == fetched[kf]);
                                assert(c2[i].modified_time == y.modified_time);
                            },
                            None => {
                                assert(false);
                            },
                        }
                    } else if y.modified_time == f.modified_time {
                        lemma_first_with_path_props(fetched, back);
                        match first_with_path(fetched, back) {
                            Some(kf) => {
                                let g1 = nc[kf];
                                assert(nc.contains(g1));
                                let m1 = choose|m1: int|
                                    0 <= m1 < s.len() && (#[trigger] s[m1]) == g1;
                                lemma_translate_injective(
                                    g1.full_path@,
                                    y.full_path@,
                                    sroot,
                                    croot,
                                );
                                assert(g1 == y) by {
                                    if m1 != m0 {
                                        assert(s[m1].full_path@ != s[m0].full_path@);
                                        assert(false);
                                    }
                                }
                                // y would then be newer than or unknown to the client
                                if exists|k3: int|
                                    0 <= k3 < c.len() && newer_server_match(
                                        #[trigger] c[k3],
                                        s,
                                        croot,
                                        sroot,
                                    ) == Some(y) {
                                    let k3 = choose|k3: int|
                                        0 <= k3 < c.len() && newer_server_match(
                                            #[trigger] c[k3],
                                            s,
                                            croot,
                                            sroot,
                                        ) == Some(y);
                                    let tr3 = translate_path(c[k3].full_path@, croot, sroot);
                                    lemma_first_with_path_props(s, tr3);
                                    assert(y.full_path@ == tr3);
                                    lemma_translate_injective(
                                        c[k3].full_path@,
                                        f.full_path@,
                                        croot,
                                        sroot,
                                    );
                                    assert(c[k3] == f) by {
                                        if k3 != i1 {
                                            assert(c[k3].full_path@ != c[i1].full_path@);
                                            assert(false);
                                        }
                                    }
                                    assert(y.modified_time > f.modified_time);
                                    assert(false);
                                } else {
                                    let m4 = choose|m4: int|
                                        0 <= m4 < s.len() && (#[trigger] s[m4]) == y
                                            && only_on_server(s[m4], c, croot, sroot);
                                    assert(false);
                                }
                            },
                            None => {},
                        }
                        lemma_first_with_path_unique(c, back, i1);
                        lemma_snap_upserts_lookup(c, fetched, back);
                        lemma_first_with_path_props(c2, back);
                        let i = first_with_path(c2, back)->0;
                        assert(c2[i] == f);
                    } else {
                        assert(needs_on_server(f, s, croot, sroot));
                        lemma_needed_by_server_complete(c, s, croot, sroot, i1);
                        assert(nbs.contains(f));
                        let k2 = choose|k2: int| 0 <= k2 < nbs.len() && nbs[k2] == f;
                        assert(pushed[k2].full_path@ == y.full_path@);
                        lemma_first_with_path_props(pushed, y.full_path@);
                        assert(false);
                    }
                },
            }
        }
    }
}

/// Idempotence of the protocol: after one completed exchange with no
/// intervening changes, the next reconciliation asks for nothing in either
/// direction.
pub proof fn lemma_round_idempotent(
    c: Seq<FileMetadata>,
    s: Seq<FileMetadata>,
    croot: Seq<char>,
    sroot: Seq<char>,
    pushed: Seq<FileMetadata>,
    fetched: Seq<FileMetadata>,
)
    requires
        distinct_paths(c),
        distinct_paths(s),
        vault_diff_ok(c, s, croot, sroot),
        pushed.len() == needed_by_server_seq(c, s, croot, sroot).len(),
        forall|k: int|
            0 <= k < pushed.len() ==> (#[trigger] pushed[k]).full_path@ == translate_path(
                needed_by_server_seq(c, s, croot, sroot)[k].full_path@,
                croot,
                sroot,
            ) && pushed[k].modified_time == needed_by_server_seq(
                c,
                s,
                croot,
                sroot,
            )[k].modified_time,
        fetched.len() == needed_by_client_seq(c, s, croot, sroot).len(),
        forall|k: int|
            0 <= k < fetched.len() ==> (#[trigger] fetched[k]).full_path@ == translate_path(
                needed_by_client_seq(c, s, croot, sroot)[k].full_path@,
                sroot,
                croot,
            ) && fetched[k].modified_time == needed_by_client_seq(
                c,
                s,
                croot,
                sroot,
            )[k].modified_time,
    ensures
        needed_by_server_seq(
            snap_upserts(c, fetched),
            snap_upserts(s, pushed),
            croot,
            sroot,
        ) == Seq::<FileMetadata>::empty(),
        needed_by_client_seq(
            snap_upserts(c, fetched),
            snap_upserts(s, pushed),
            croot,
            sroot,
        ) == Seq::<FileMetadata>::empty(),
{
    lemma_round_agreement(c, s, croot, sroot, pushed, fetched);
    lemma_second_run_empty(snap_upserts(c, fetched), snap_upserts(s, pushed), croot, sroot);
}

} // verus!
