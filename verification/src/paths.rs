//! Root-relative path translation.
//!
//! Each replica stores a vault under its own absolute root, so the absolute
//! path of a file differs between replicas while the portion below the root
//! is identical.  Translation strips the source root from a path and joins
//! the remainder onto the target root.  Roots are normalized by dropping
//! trailing separators first, so that the same translation is computed in
//! both directions regardless of how a root was written.

use vstd::prelude::*;

verus! {

use vstd::string::StrSliceExecFns;
use vstd::string::StringExecFns;
use crate::errors::SyncError;

/// A root with its trailing `'/'` separators removed.
pub open spec fn norm_root(r: Seq<char>) -> Seq<char>
    decreases r.len(),
{
    if r.len() > 0 && r[r.len() - 1] == '/' {
        norm_root(r.drop_last())
    } else {
        r
    }
}

/// Whether `p` lies strictly under `root`: the normalized root is a proper
/// prefix of `p` and is followed by a separator.
pub open spec fn is_under_root(p: Seq<char>, root: Seq<char>) -> bool {
    let n = norm_root(root);
    &&& n.len() < p.len()
    &&& p.subrange(0, n.len() as int) == n
    &&& p[n.len() as int] == '/'
}

/// The translation of `p` from under `src_root` to under `dst_root`:
/// the normalized target root followed by everything of `p` past the
/// normalized source root (including the separator).
pub open spec fn translate_path(p: Seq<char>, src_root: Seq<char>, dst_root: Seq<char>) -> Seq<char> {
    norm_root(dst_root) + p.subrange(norm_root(src_root).len() as int, p.len() as int)
}

/// A normalized root does not end in a separator.
proof fn lemma_norm_root_no_trailing(r: Seq<char>)
    ensures
        norm_root(r).len() > 0 ==> norm_root(r)[norm_root(r).len() - 1] != '/',
    decreases r.len(),
{
    if r.len() > 0 && r[r.len() - 1] == '/' {
        lemma_norm_root_no_trailing(r.drop_last());
    }
}

/// Normalization is idempotent.
proof fn lemma_norm_root_idempotent(r: Seq<char>)
    ensures
        norm_root(norm_root(r)) == norm_root(r),
{
    lemma_norm_root_no_trailing(r);
}

/// Translating a path from root `a` to root `b` and back returns the
/// original path, and the intermediate path lies under `b`.
pub proof fn lemma_translate_round_trip(p: Seq<char>, root_a: Seq<char>, root_b: Seq<char>)
    requires
        is_under_root(p, root_a),
    ensures
        is_under_root(translate_path(p, root_a, root_b), root_b),
        translate_path(translate_path(p, root_a, root_b), root_b, root_a) == p,
{
    let na = norm_root(root_a);
    let nb = norm_root(root_b);
    let q = translate_path(p, root_a, root_b);
    lemma_norm_root_idempotent(root_b);
    assert(q.subrange(0, nb.len() as int) =~= nb);
    assert(q[nb.len() as int] == p[na.len() as int]);
    assert(translate_path(q, root_b, root_a) =~= p);
}

/// Strips trailing separators from a root.
pub fn normalize_root(root: &str) -> (r: String)
    ensures
        r@ == norm_root(root@),
{
    let len = root.unicode_len();
    let mut end: usize = len;
    proof {
        assert(root@.subrange(0, end as int) =~= root@);
    }
    while end > 0 && root.get_char(end - 1) == '/'
        invariant
            end <= root@.len(),
            norm_root(root@) == norm_root(root@.subrange(0, end as int)),
        decreases end,
    {
        proof {
            let cur = root@.subrange(0, end as int);
            assert(cur.drop_last() =~= root@.subrange(0, end as int - 1));
        }
        end = end - 1;
    }
    let r = root.substring_char(0, end).to_owned();
    r
}

/// Translates `remote_file` from under `remote_root` to the corresponding
/// absolute path under `local_root`.
///
/// Fails with [`SyncError::PathMismatch`] exactly when `remote_file` does not
/// lie under `remote_root`; a path outside its declared root indicates a
/// caller bug or a cross-vault mixup and is never silently tolerated.
pub fn convert_path_to_local(remote_file: &str, remote_root: &str, local_root: &str) -> (r: Result<
    String,
    SyncError,
>)
    ensures
        r is Ok <==> is_under_root(remote_file@, remote_root@),
        r matches Ok(q) ==> q@ == translate_path(remote_file@, remote_root@, local_root@),
        r matches Err(e) ==> e == SyncError::PathMismatch,
{
    let src = normalize_root(remote_root);
    let dst = normalize_root(local_root);
    let p_len = remote_file.unicode_len();
    let s_len = src.as_str().unicode_len();
    if s_len >= p_len {
        return Err(SyncError::PathMismatch);
    }
    let prefix = remote_file.substring_char(0, s_len);
    if !prefix.to_owned().eq(&src) {
        return Err(SyncError::PathMismatch);
    }
    if remote_file.get_char(s_len) != '/' {
        return Err(SyncError::PathMismatch);
    }
    let rel = remote_file.substring_char(s_len, p_len);
    let q = dst.concat(rel);
    Ok(q)
}

/// Translates every path of `files` from under `remote_root` to under
/// `local_root`; fails with [`SyncError::PathMismatch`] when any path does
/// not lie under `remote_root`.
pub fn convert_all_paths(files: &Vec<String>, remote_root: &str, local_root: &str) -> (r: Result<
    Vec<String>,
    SyncError,
>)
    ensures
        r is Ok <==> (forall|i: int|
            0 <= i < files@.len() ==> is_under_root(files@[i]@, remote_root@)),
        r matches Ok(v) ==> {
            &&& v@.len() == files@.len()
            &&& forall|i: int|
                0 <= i < files@.len() ==> v@[i]@ == translate_path(
                    files@[i]@,
                    remote_root@,
                    local_root@,
                )
        },
        r matches Err(e) ==> e == SyncError::PathMismatch,
{
    let mut converted: Vec<String> = Vec::new();
    let mut k: usize = 0;
    while k < files.len()
        invariant
            k <= files@.len(),
            converted@.len() == k,
            forall|i: int| 0 <= i < k ==> is_under_root(files@[i]@, remote_root@),
            forall|i: int|
                0 <= i < k ==> converted@[i]@ == translate_path(
                    files@[i]@,
                    remote_root@,
                    local_root@,
                ),
        decreases files@.len() - k,
    {
        match convert_path_to_local(files[k].as_str(), remote_root, local_root) {
            Ok(q) => converted.push(q),
            Err(e) => {
                return Err(e);
            },
        }
        k = k + 1;
    }
    Ok(converted)
}

/// Whether `pat` occurs in `s` at position `i`.
pub open spec fn matches_at(s: Seq<char>, pat: Seq<char>, i: int) -> bool {
    0 <= i && i + pat.len() <= s.len() && s.subrange(i, i + pat.len()) == pat
}

/// The last position at or below `i` where `pat` occurs in `s`.
pub open spec fn last_match_from(s: Seq<char>, pat: Seq<char>, i: int) -> Option<int>
    decreases i + 1,
{
    if i < 0 {
        None
    } else if matches_at(s, pat, i) {
        Some(i)
    } else {
        last_match_from(s, pat, i - 1)
    }
}

/// The last position where `pat` occurs in `s`.
pub open spec fn last_match(s: Seq<char>, pat: Seq<char>) -> Option<int> {
    last_match_from(s, pat, s.len() - pat.len())
}

/// The last occurrence of `pat` in `s`, searched from the end.
pub fn rfind_str(s: &str, pat: &str) -> (r: Option<usize>)
    ensures
        match r {
            Some(i) => matches_at(s@, pat@, i as int) && Some(i as int) == last_match(s@, pat@),
            None => last_match(s@, pat@) is None,
        },
{
    let n = s.unicode_len();
    let m = pat.unicode_len();
    if m > n {
        return None;
    }
    if m == 0 {
        proof {
            assert(s@.subrange(n as int, n as int) =~= pat@);
        }
        return Some(n);
    }
    let mut i: usize = n - m + 1;
    while i > 0
        invariant
            i <= n - m + 1,
            m <= n,
            n == s@.len(),
            m == pat@.len(),
            last_match(s@, pat@) == last_match_from(s@, pat@, i as int - 1),
        decreases i,
    {
        i = i - 1;
        let sub = s.substring_char(i, i + m);
        if sub.to_owned().eq(&pat.to_owned()) {
            return Some(i);
        }
    }
    None
}

/// The path a vault file gets in the server's storage area: the storage
/// root, then the vault's own directory, then everything of the producing
/// path past the last occurrence of the vault's root directory name.
pub open spec fn server_path_spec(
    p: Seq<char>,
    root_dir: Seq<char>,
    storage: Seq<char>,
    vault_id: int,
) -> Seq<char> {
    norm_root(storage) + "/vault"@ + crate::decimal::dec_str_i64(vault_id)
        + p.subrange(last_match(p, root_dir)->0 + root_dir.len(), p.len() as int)
}

/// Builds the server-side storage path for a transferred file.
///
/// Fails with [`SyncError::PathMismatch`] exactly when the file's path does
/// not mention the vault's root directory, in which case no storage location
/// can be derived for it.
pub fn get_server_path(file: &crate::records::RemoteFile, config: &crate::config::VaultConfig) -> (r: Result<
    String,
    SyncError,
>)
    ensures
        r is Ok <==> last_match(file.full_path@, config.vault_root@) is Some,
        r matches Ok(q) ==> q@ == server_path_spec(
            file.full_path@,
            config.vault_root@,
            config.full_path@,
            config.vault_id as int,
        ),
        r matches Err(e) ==> e == SyncError::PathMismatch,
{
    let i = match rfind_str(file.full_path.as_str(), config.vault_root.as_str()) {
        Some(i) => i,
        None => {
            return Err(SyncError::PathMismatch);
        },
    };
    let n = file.full_path.as_str().unicode_len();
    let m = config.vault_root.as_str().unicode_len();
    let rest = file.full_path.as_str().substring_char(i + m, n);
    let storage = normalize_root(config.full_path.as_str());
    let q = storage.concat("/vault").concat(
        crate::decimal::i64_to_decimal(config.vault_id as i64).as_str(),
    ).concat(rest);
    proof {
        assert(q@ =~= server_path_spec(
            file.full_path@,
            config.vault_root@,
            config.full_path@,
            config.vault_id as int,
        ));
    }
    Ok(q)
}

} // verus!
