//! The in-memory metadata store: the engine's model of the per-replica
//! record database.
//!
//! Records are keyed by vault and path.  The store keeps the invariant that
//! one vault never holds two records for one path, nor two records with the
//! same assigned identifier; an attempt to break the identifier invariant is
//! a fatal consistency error, never resolved by guessing.  Callers that
//! persist records elsewhere mirror these operations one for one.

use vstd::prelude::*;

verus! {

use vstd::pervasive::VecAdditionalExecFns;
use crate::errors::SyncError;
use crate::records::{flat_files, FileMetadata, MetadataBlob};

/// What an upsert did.
#[derive(Clone, Copy, Debug, PartialEq, Eq, Structural)]
pub enum UpsertOutcome {
    /// No record existed for the vault and path; one was added.
    Inserted,
    /// A record existed and its identifier, time or size changed.
    Updated,
    /// A record existed and already carried the same identifier, time and
    /// size; nothing needs to be persisted.
    Unchanged,
}

/// The store invariant over a record list: within one vault, paths are
/// unique and assigned identifiers are unique.
pub open spec fn store_wf(s: Seq<FileMetadata>) -> bool {
    &&& forall|i: int, j: int|
        0 <= i < j < s.len() && (#[trigger] s[i]).vault_id == (#[trigger] s[j]).vault_id ==> s[i].full_path@
            != s[j].full_path@
    &&& forall|i: int, j: int|
        0 <= i < j < s.len() && (#[trigger] s[i]).vault_id == (#[trigger] s[j]).vault_id
            && s[i].file_id != -1 ==> s[i].file_id != s[j].file_id
}

/// The first position holding this vault's record for this path.
pub open spec fn first_in_vault_with_path(
    s: Seq<FileMetadata>,
    vault_id: int,
    p: Seq<char>,
) -> Option<int>
    decreases s.len(),
{
    if s.len() == 0 {
        None
    } else if s[0].vault_id as int == vault_id && s[0].full_path@ == p {
        Some(0)
    } else {
        match first_in_vault_with_path(s.drop_first(), vault_id, p) {
            Some(i) => Some(i + 1),
            None => None,
        }
    }
}

/// What the first-position search guarantees.
pub proof fn lemma_first_in_vault_with_path_props(s: Seq<FileMetadata>, vault_id: int, p: Seq<char>)
    ensures
        match first_in_vault_with_path(s, vault_id, p) {
            Some(i) => 0 <= i < s.len() && s[i].vault_id as int == vault_id && s[i].full_path@ == p
                && (forall|j: int|
                0 <= j < i ==> !((#[trigger] s[j]).vault_id as int == vault_id && s[j].full_path@
                    == p)),
            None => forall|j: int|
                0 <= j < s.len() ==> !((#[trigger] s[j]).vault_id as int == vault_id
                    && s[j].full_path@ == p),
        },
    decreases s.len(),
{
    if s.len() > 0 && !(s[0].vault_id as int == vault_id && s[0].full_path@ == p) {
        let rest = s.drop_first();
        lemma_first_in_vault_with_path_props(rest, vault_id, p);
        assert forall|j: int| 1 <= j < s.len() implies rest[j - 1] == s[j] by {}
    }
}

/// The greatest assigned identifier among this vault's records, or `None`
/// when the vault has none.
pub open spec fn vault_max_id(s: Seq<FileMetadata>, vault_id: int) -> Option<i32>
    decreases s.len(),
{
    if s.len() == 0 {
        None
    } else {
        let rest = vault_max_id(s.drop_last(), vault_id);
        if s.last().vault_id as int == vault_id && s.last().file_id != -1 {
            match rest {
                Some(m) => if s.last().file_id > m {
                    Some(s.last().file_id)
                } else {
                    Some(m)
                },
                None => Some(s.last().file_id),
            }
        } else {
            rest
        }
    }
}

/// The next identifier the authoritative side hands out: one past the
/// greatest assigned identifier, or `0` when the vault has none.
pub open spec fn alloc_base(s: Seq<FileMetadata>, vault_id: int) -> int {
    match vault_max_id(s, vault_id) {
        Some(m) => m + 1,
        None => 0,
    }
}

/// The greatest assigned identifier is one of the vault's identifiers and
/// bounds them all.
pub proof fn lemma_vault_max_id_props(s: Seq<FileMetadata>, vault_id: int)
    ensures
        match vault_max_id(s, vault_id) {
            Some(m) => has_id_in_vault(s, vault_id, m as int) && m != -1 && (forall|i: int|
                0 <= i < s.len() && (#[trigger] s[i]).vault_id as int == vault_id && s[i].file_id
                    != -1 ==> s[i].file_id <= m),
            None => forall|i: int|
                0 <= i < s.len() && (#[trigger] s[i]).vault_id as int == vault_id ==> s[i].file_id
                    == -1,
        },
    decreases s.len(),
{
    if s.len() > 0 {
        let rest = s.drop_last();
        lemma_vault_max_id_props(rest, vault_id);
        let n = s.len() - 1;
        assert forall|i: int| 0 <= i < n implies rest[i] == s[i] by {}
        match vault_max_id(s, vault_id) {
            Some(m) => {
                if has_id_in_vault(rest, vault_id, m as int) {
                    let w = choose|i: int|
                        0 <= i < rest.len() && (#[trigger] rest[i]).vault_id as int == vault_id
                            && rest[i].file_id as int == m as int;
                    assert((#[trigger] s[w]).vault_id as int == vault_id && s[w].file_id as int
                        == m as int);
                } else {
                    assert((#[trigger] s[n]).vault_id as int == vault_id && s[n].file_id as int
                        == m as int);
                }
            },
            None => {},
        }
    }
}

/// A record with this assigned identifier exists in this vault.
pub open spec fn has_id_in_vault(s: Seq<FileMetadata>, vault_id: int, file_id: int) -> bool {
    exists|i: int|
        0 <= i < s.len() && (#[trigger] s[i]).vault_id as int == vault_id && s[i].file_id as int
            == file_id
}

/// The record list after one upsert: the vault's record for the path is
/// replaced by `rec`, or `rec` is appended when the vault had none.
pub open spec fn upsert_one(s: Seq<FileMetadata>, rec: FileMetadata) -> Seq<FileMetadata> {
    match first_in_vault_with_path(s, rec.vault_id as int, rec.full_path@) {
        Some(i) => s.update(i, rec),
        None => s.push(rec),
    }
}

/// Whether upserting `rec` would give one assigned identifier to two paths
/// of one vault.
pub open spec fn upsert_conflict(s: Seq<FileMetadata>, rec: FileMetadata) -> bool {
    rec.file_id != -1 && exists|i: int|
        0 <= i < s.len() && (#[trigger] s[i]).vault_id == rec.vault_id && s[i].file_id
            == rec.file_id && s[i].full_path@ != rec.full_path@
}

/// The record list after upserting each of `recs` in order.
pub open spec fn apply_upserts(s: Seq<FileMetadata>, recs: Seq<FileMetadata>) -> Seq<FileMetadata>
    decreases recs.len(),
{
    if recs.len() == 0 {
        s
    } else {
        upsert_one(apply_upserts(s, recs.drop_last()), recs.last())
    }
}

/// Whether upserting each of `recs` in order stays free of identifier
/// conflicts.
pub open spec fn upserts_ok(s: Seq<FileMetadata>, recs: Seq<FileMetadata>) -> bool
    decreases recs.len(),
{
    if recs.len() == 0 {
        true
    } else {
        upserts_ok(s, recs.drop_last()) && !upsert_conflict(
            apply_upserts(s, recs.drop_last()),
            recs.last(),
        )
    }
}

/// The record list with the vault's record for a path removed, when present.
pub open spec fn delete_one(s: Seq<FileMetadata>, vault_id: int, p: Seq<char>) -> Seq<FileMetadata> {
    match first_in_vault_with_path(s, vault_id, p) {
        Some(i) => s.remove(i),
        None => s,
    }
}

/// The per-replica metadata store.
#[derive(Debug, Clone)]
pub struct MetadataStore {
    /// The records, all vaults together.
    pub records: Vec<FileMetadata>,
}

impl MetadataStore {
    /// The store invariant.
    pub open spec fn wf(self) -> bool {
        store_wf(self.records@)
    }

    /// An empty store.
    pub fn new() -> (r: MetadataStore)
        ensures
            r.records@ == Seq::<FileMetadata>::empty(),
            r.wf(),
    {
        MetadataStore { records: Vec::new() }
    }

    /// The position of this vault's record for this path, when present.
    pub fn find_index_by_path(&self, vault_id: i32, logical_path: &String) -> (r: Option<usize>)
        ensures
            match r {
                Some(i) => i < self.records@.len() && Some(i as int) == first_in_vault_with_path(
                    self.records@,
                    vault_id as int,
                    logical_path@,
                ) && self.records@[i as int].vault_id == vault_id
                    && self.records@[i as int].full_path@ == logical_path@,
                None => first_in_vault_with_path(self.records@, vault_id as int, logical_path@)
                    is None,
            },
    {
        proof {
            assert(self.records@.skip(0) =~= self.records@);
        }
        let mut k: usize = 0;
        while k < self.records.len()
            invariant
                k <= self.records@.len(),
                first_in_vault_with_path(self.records@, vault_id as int, logical_path@) == (
                match first_in_vault_with_path(
                    self.records@.skip(k as int),
                    vault_id as int,
                    logical_path@,
                ) {
                    Some(i) => Some(i + k),
                    None => None::<int>,
                }),
            decreases self.records@.len() - k,
        {
            proof {
                assert(self.records@.skip(k as int).drop_first() =~= self.records@.skip(
                    k + 1 as int,
                ));
            }
            if self.records[k].vault_id == vault_id && self.records[k].full_path.eq(logical_path) {
                return Some(k);
            }
            k = k + 1;
        }
        None
    }

    /// A copy of this vault's record for this path, when present.
    pub fn find_by_path(&self, vault_id: i32, logical_path: &String) -> (r: Option<FileMetadata>)
        ensures
            r is Some <==> first_in_vault_with_path(self.records@, vault_id as int, logical_path@)
                is Some,
            r matches Some(rec) ==> first_in_vault_with_path(
                self.records@,
                vault_id as int,
                logical_path@,
            ) matches Some(i) && rec == self.records@[i],
    {
        match self.find_index_by_path(vault_id, logical_path) {
            Some(i) => Some(self.records[i].duplicate()),
            None => None,
        }
    }

    /// A copy of this vault's record with this assigned identifier, when
    /// present.  The sentinel identifies nothing and finds nothing.
    pub fn find_by_id(&self, vault_id: i32, file_id: i32) -> (r: Option<FileMetadata>)
        ensures
            r is Some <==> file_id != -1 && has_id_in_vault(
                self.records@,
                vault_id as int,
                file_id as int,
            ),
            r matches Some(rec) ==> exists|i: int|
                0 <= i < self.records@.len() && rec == (#[trigger] self.records@[i])
                    && rec.vault_id == vault_id && rec.file_id == file_id,
    {
        if file_id == -1 {
            return None;
        }
        let mut k: usize = 0;
        while k < self.records.len()
            invariant
                k <= self.records@.len(),
                file_id != -1,
                forall|j: int|
                    0 <= j < k ==> !((#[trigger] self.records@[j]).vault_id == vault_id
                        && self.records@[j].file_id == file_id),
            decreases self.records@.len() - k,
        {
            if self.records[k].vault_id == vault_id && self.records[k].file_id == file_id {
                proof {
                    assert((#[trigger] self.records@[k as int]).vault_id == vault_id);
                    assert(has_id_in_vault(self.records@, vault_id as int, file_id as int));
                }
                return Some(self.records[k].duplicate());
            }
            k = k + 1;
        }
        None
    }

    /// The greatest assigned identifier of a vault, or `None` when the vault
    /// has no assigned identifiers.
    pub fn max_id(&self, vault_id: i32) -> (r: Option<i32>)
        ensures
            r == vault_max_id(self.records@, vault_id as int),
    {
        let mut best: Option<i32> = None;
        let mut k: usize = 0;
        proof {
            assert(self.records@.subrange(0, 0) =~= Seq::<FileMetadata>::empty());
        }
        while k < self.records.len()
            invariant
                k <= self.records@.len(),
                best == vault_max_id(self.records@.subrange(0, k as int), vault_id as int),
            decreases self.records@.len() - k,
        {
            let rec = &self.records[k];
            if rec.vault_id == vault_id && rec.file_id != -1 {
                match best {
                    None => {
                        best = Some(rec.file_id);
                    },
                    Some(m) => {
                        if rec.file_id > m {
                            best = Some(rec.file_id);
                        }
                    },
                }
            }
            proof {
                let pre = self.records@.subrange(0, k + 1 as int);
                assert(pre.drop_last() =~= self.records@.subrange(0, k as int));
                assert(pre.last() == self.records@[k as int]);
            }
            k = k + 1;
        }
        proof {
            assert(self.records@.subrange(0, self.records@.len() as int) =~= self.records@);
        }
        best
    }

    /// This vault's records, in store order.
    pub fn all_in_vault(&self, vault_id: i32) -> (r: Vec<FileMetadata>)
        ensures
            r@ == in_vault_seq(self.records@, vault_id as int),
    {
        let mut out: Vec<FileMetadata> = Vec::new();
        let mut k: usize = 0;
        proof {
            assert(self.records@.subrange(0, 0) =~= Seq::<FileMetadata>::empty());
        }
        while k < self.records.len()
            invariant
                k <= self.records@.len(),
                out@ == in_vault_seq(self.records@.subrange(0, k as int), vault_id as int),
            decreases self.records@.len() - k,
        {
            if self.records[k].vault_id == vault_id {
                out.push(self.records[k].duplicate());
            }
            proof {
                let pre = self.records@.subrange(0, k + 1 as int);
                assert(pre.drop_last() =~= self.records@.subrange(0, k as int));
                assert(pre.last() == self.records@[k as int]);
                assert(out@ =~= in_vault_seq(pre, vault_id as int));
            }
            k = k + 1;
        }
        proof {
            assert(self.records@.subrange(0, self.records@.len() as int) =~= self.records@);
        }
        out
    }

    /// Inserts the record, or replaces the vault's record for the same path.
    ///
    /// Reports [`UpsertOutcome::Unchanged`] when the stored record already
    /// carried the same identifier, modification time and size, so callers
    /// can skip an unnecessary write to their persistent store.  Fails with
    /// [`SyncError::IdentityConflict`] exactly when the record's assigned
    /// identifier is already held by a different path of the vault.
    pub fn upsert(&mut self, rec: FileMetadata) -> (r: Result<UpsertOutcome, SyncError>)
        ensures
            r is Ok <==> !upsert_conflict(old(self).records@, rec),
            r matches Ok(o) ==> {
                &&& final(self).records@ == upsert_one(old(self).records@, rec)
                &&& (o == UpsertOutcome::Inserted <==> first_in_vault_with_path(
                    old(self).records@,
                    rec.vault_id as int,
                    rec.full_path@,
                ) is None)
                &&& (o == UpsertOutcome::Unchanged <==> (first_in_vault_with_path(
                    old(self).records@,
                    rec.vault_id as int,
                    rec.full_path@,
                ) matches Some(i) && old(self).records@[i].file_id == rec.file_id && old(
                    self,
                ).records@[i].modified_time == rec.modified_time && old(
                    self,
                ).records@[i].file_size == rec.file_size))
            },
            r is Err ==> final(self).records@ == old(self).records@,
            r matches Err(e) ==> e == SyncError::IdentityConflict,
            old(self).wf() && r is Ok ==> final(self).wf(),
    {
        // refuse an assigned identifier that another path of the vault holds
        if rec.file_id != -1 {
            let mut k: usize = 0;
            while k < self.records.len()
                invariant
                    k <= self.records@.len(),
                    forall|j: int|
                        0 <= j < k ==> !((#[trigger] self.records@[j]).vault_id == rec.vault_id
                            && self.records@[j].file_id == rec.file_id
                            && self.records@[j].full_path@ != rec.full_path@),
                    rec.file_id != -1,
                decreases self.records@.len() - k,
            {
                let cur = &self.records[k];
                if cur.vault_id == rec.vault_id && cur.file_id == rec.file_id
                    && !cur.full_path.eq(&rec.full_path) {
                    return Err(SyncError::IdentityConflict);
                }
                k = k + 1;
            }
        }
        let ghost pre = self.records@;
        proof {
            lemma_first_in_vault_with_path_props(pre, rec.vault_id as int, rec.full_path@);
        }
        let outcome = match self.find_index_by_path(rec.vault_id, &rec.full_path) {
            Some(i) => {
                let unchanged = self.records[i].file_id == rec.file_id
                    && self.records[i].modified_time == rec.modified_time
                    && self.records[i].file_size == rec.file_size;
                self.records.set(i, rec);
                if unchanged {
                    UpsertOutcome::Unchanged
                } else {
                    UpsertOutcome::Updated
                }
            },
            None => {
                self.records.push(rec);
                UpsertOutcome::Inserted
            },
        };
        proof {
            if old(self).wf() {
                lemma_upsert_preserves_wf(pre, rec);
            }
        }
        Ok(outcome)
    }

    /// Removes the vault's record for this path; removing an absent record
    /// is not an error.
    pub fn delete_by_path(&mut self, vault_id: i32, logical_path: &String) -> (r: Result<
        (),
        SyncError,
    >)
        ensures
            r is Ok,
            final(self).records@ == delete_one(old(self).records@, vault_id as int, logical_path@),
            old(self).wf() ==> final(self).wf(),
    {
        let ghost pre = self.records@;
        match self.find_index_by_path(vault_id, logical_path) {
            Some(i) => {
                self.records.remove(i);
                proof {
                    if store_wf(pre) {
                        lemma_remove_preserves_wf(pre, i as int);
                    }
                }
            },
            None => {},
        }
        Ok(())
    }
}

/// This vault's records, in order.
pub open spec fn in_vault_seq(s: Seq<FileMetadata>, vault_id: int) -> Seq<FileMetadata>
    decreases s.len(),
{
    if s.len() == 0 {
        Seq::empty()
    } else {
        in_vault_seq(s.drop_last(), vault_id) + (if s.last().vault_id as int == vault_id {
            seq![s.last()]
        } else {
            Seq::empty()
        })
    }
}

/// One conflict-free upsert keeps the store invariant.
proof fn lemma_upsert_preserves_wf(s: Seq<FileMetadata>, rec: FileMetadata)
    requires
        store_wf(s),
        !upsert_conflict(s, rec),
    ensures
        store_wf(upsert_one(s, rec)),
{
    lemma_first_in_vault_with_path_props(s, rec.vault_id as int, rec.full_path@);
    match first_in_vault_with_path(s, rec.vault_id as int, rec.full_path@) {
        Some(i) => {
            let t = s.update(i, rec);
            assert forall|a: int, b: int|
                0 <= a < b < t.len() && (#[trigger] t[a]).vault_id == (#[trigger] t[b]).vault_id
                    implies t[a].full_path@ != t[b].full_path@ by {
                if a != i && b != i {
                    assert(t[a] == s[a] && t[b] == s[b]);
                } else if a == i {
                    assert(t[b] == s[b]);
                    if t[a].full_path@ == t[b].full_path@ {
                        assert(s[b].vault_id == rec.vault_id && s[b].full_path@ == rec.full_path@);
                        assert(s[i].vault_id == rec.vault_id && s[i].full_path@ == rec.full_path@);
                        assert(false);
                    }
                } else {
                    assert(t[a] == s[a]);
                    if t[a].full_path@ == t[b].full_path@ {
                        assert(s[a].vault_id == rec.vault_id && s[a].full_path@ == rec.full_path@);
                        assert(false);
                    }
                }
            }
            assert forall|a: int, b: int|
                0 <= a < b < t.len() && (#[trigger] t[a]).vault_id == (#[trigger] t[b]).vault_id
                    && t[a].file_id != -1 implies t[a].file_id != t[b].file_id by {
                if a != i && b != i {
                    assert(t[a] == s[a] && t[b] == s[b]);
                } else if a == i {
                    assert(t[b] == s[b]);
                    if t[a].file_id == t[b].file_id {
                        assert(s[b].full_path@ != rec.full_path@);
                        assert(upsert_conflict(s, rec));
                        assert(false);
                    }
                } else {
                    assert(t[a] == s[a]);
                    if t[a].file_id == t[b].file_id && t[b].file_id != -1 {
                        assert(s[a].full_path@ != rec.full_path@);
                        assert(upsert_conflict(s, rec));
                        assert(false);
                    }
                }
            }
        },
        None => {
            let t = s.push(rec);
            let n = s.len() as int;
            assert forall|a: int, b: int|
                0 <= a < b < t.len() && (#[trigger] t[a]).vault_id == (#[trigger] t[b]).vault_id
                    implies t[a].full_path@ != t[b].full_path@ by {
                if b < n {
                    assert(t[a] == s[a] && t[b] == s[b]);
                } else {
                    assert(t[a] == s[a] && t[b] == rec);
                    if t[a].full_path@ == t[b].full_path@ {
                        assert(s[a].vault_id == rec.vault_id && s[a].full_path@ == rec.full_path@);
                        assert(false);
                    }
                }
            }
            assert forall|a: int, b: int|
                0 <= a < b < t.len() && (#[trigger] t[a]).vault_id == (#[trigger] t[b]).vault_id
                    && t[a].file_id != -1 implies t[a].file_id != t[b].file_id by {
                if b < n {
                    assert(t[a] == s[a] && t[b] == s[b]);
                } else {
                    assert(t[a] == s[a] && t[b] == rec);
                    if t[a].file_id == t[b].file_id {
                        assert(s[a].full_path@ != rec.full_path@);
                        assert(upsert_conflict(s, rec));
                        assert(false);
                    }
                }
            }
        },
    }
}

/// Removing one record keeps the store invariant.
proof fn lemma_remove_preserves_wf(s: Seq<FileMetadata>, i: int)
    requires
        store_wf(s),
        0 <= i < s.len(),
    ensures
        store_wf(s.remove(i)),
{
    let t = s.remove(i);
    assert forall|a: int, b: int|
        0 <= a < b < t.len() && (#[trigger] t[a]).vault_id == (#[trigger] t[b]).vault_id implies t[a].full_path@
            != t[b].full_path@ by {
        let sa: int = if a < i {
            a
        } else {
            a + 1
        };
        let sb: int = if b < i {
            b
        } else {
            b + 1
        };
        assert(t[a] == s[sa] && t[b] == s[sb]);
    }
    assert forall|a: int, b: int|
        0 <= a < b < t.len() && (#[trigger] t[a]).vault_id == (#[trigger] t[b]).vault_id && t[a].file_id
            != -1 implies t[a].file_id != t[b].file_id by {
        let sa: int = if a < i {
            a
        } else {
            a + 1
        };
        let sb: int = if b < i {
            b
        } else {
            b + 1
        };
        assert(t[a] == s[sa] && t[b] == s[sb]);
    }
}

/// Applies a list of records to the store, first to last.
///
/// Fails with [`SyncError::IdentityConflict`] exactly when some record,
/// applied after those before it, would give one assigned identifier to two
/// paths of a vault; the records before the conflicting one stay applied,
/// matching a store whose writes are individually durable.
pub fn upsert_database(store: &mut MetadataStore, files: Vec<FileMetadata>) -> (r: Result<
    (),
    SyncError,
>)
    ensures
        r is Ok <==> upserts_ok(old(store).records@, files@),
        r is Ok ==> final(store).records@ == apply_upserts(old(store).records@, files@),
        r matches Err(e) ==> e == SyncError::IdentityConflict,
        old(store).wf() ==> final(store).wf(),
{
    let ghost orig = store.records@;
    let mut done: usize = 0;
    proof {
        assert(files@.subrange(0, 0) =~= Seq::<FileMetadata>::empty());
    }
    while done < files.len()
        invariant
            done <= files@.len(),
            store.records@ == apply_upserts(orig, files@.subrange(0, done as int)),
            upserts_ok(orig, files@.subrange(0, done as int)),
            old(store).wf() ==> store.wf(),
            orig == old(store).records@,
        decreases files@.len() - done,
    {
        proof {
            let pre = files@.subrange(0, done as int + 1);
            assert(pre.drop_last() =~= files@.subrange(0, done as int));
            assert(pre.last() == files@[done as int]);
        }
        let rec = files[done].duplicate();
        match store.upsert(rec) {
            Ok(_) => {},
            Err(e) => {
                proof {
                    let prefix = files@.subrange(0, done as int);
                    let pre = files@.subrange(0, done as int + 1);
                    assert(upsert_conflict(apply_upserts(orig, prefix), files@[done as int]));
                    assert(pre.drop_last() =~= prefix);
                    assert(!upserts_ok(orig, pre));
                    lemma_upserts_ok_prefix(orig, files@, done as int + 1);
                    assert(!upserts_ok(orig, files@));
                }
                return Err(e);
            },
        }
        done = done + 1;
    }
    proof {
        assert(files@.subrange(0, files@.len() as int) =~= files@);
    }
    Ok(())
}

/// When a prefix of the record list already conflicts, the whole list does.
proof fn lemma_upserts_ok_prefix(s: Seq<FileMetadata>, recs: Seq<FileMetadata>, n: int)
    requires
        0 <= n <= recs.len(),
        !upserts_ok(s, recs.subrange(0, n)),
    ensures
        !upserts_ok(s, recs),
    decreases recs.len() - n,
{
    if n < recs.len() {
        let pre = recs.subrange(0, n + 1);
        assert(pre.drop_last() =~= recs.subrange(0, n));
        lemma_upserts_ok_prefix(s, recs, n + 1);
    } else {
        assert(recs.subrange(0, n) =~= recs);
    }
}

/// Applies a server-sent blob of records to the client's store.
pub fn insert_server_metadata_into_client_db(
    store: &mut MetadataStore,
    server_mdata: &MetadataBlob,
) -> (r: Result<(), SyncError>)
    ensures
        r is Ok <==> upserts_ok(old(store).records@, flat_files(server_mdata.vaults@)),
        r is Ok ==> final(store).records@ == apply_upserts(
            old(store).records@,
            flat_files(server_mdata.vaults@),
        ),
        r matches Err(e) ==> e == SyncError::IdentityConflict,
        old(store).wf() ==> final(store).wf(),
{
    let files = crate::records::convert_blob_to_vec_metadata(server_mdata);
    upsert_database(store, files)
}

} // verus!
