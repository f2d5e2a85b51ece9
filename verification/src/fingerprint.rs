//! Fingerprint resolution: identity keys and change tokens.
//!
//! An identity key is a file's path relative to the vault root, and is the
//! handle under which the index stores the file's record. A change token is
//! a cheap fingerprint of the file's current content; two equal tokens for
//! the same key mean the file is treated as unchanged and is not re-extracted.

use vstd::prelude::*;
use vstd::string::StrSliceExecFns;

verus! {

/// Cheap fingerprint used to decide whether a file must be re-extracted.
///
/// Equality compares byte length, modification time, and a content hash
/// together. Modification-time resolution on some filesystems is coarser
/// than the rate of edits (two writes within the same timestamp tick), so
/// the token also carries a hash of the content: same-tick successive
/// writes that change the bytes still compare unequal and force
/// re-extraction.
#[derive(Clone, Copy, PartialEq, Eq, Structural, Debug)]
pub struct ChangeToken {
    /// File size in bytes.
    pub len: u64,
    /// Modification time, in nanoseconds since an arbitrary fixed epoch.
    pub mtime_ns: u64,
    /// Hash of the file's content, under any stable hash chosen by the caller.
    pub content_hash: u64,
}

/// A vault root is a non-empty path that does not end with a separator.
pub open spec fn valid_root(root: Seq<char>) -> bool {
    root.len() > 0 && root[root.len() - 1] != '/'
}

/// `path` names an entry strictly inside the tree rooted at `root`.
pub open spec fn descends_from(path: Seq<char>, root: Seq<char>) -> bool {
    &&& path.len() > root.len() + 1
    &&& path.subrange(0, root.len() as int) == root
    &&& path[root.len() as int] == '/'
}

/// The identity key of `path` relative to `root`: the remainder after the
/// root and its trailing separator.
pub open spec fn relative_key(path: Seq<char>, root: Seq<char>) -> Seq<char> {
    path.subrange(root.len() + 1 as int, path.len() as int)
}

/// The engine's identity-key charset: keys are non-empty and free of NUL.
pub open spec fn valid_key(key: Seq<char>) -> bool {
    key.len() > 0 && (forall|i: int| 0 <= i < key.len() ==> key[i] != '\0')
}

/// A name is hidden when it starts with the hidden-file marker.
pub open spec fn is_hidden_name(name: Seq<char>) -> bool {
    name.len() > 0 && name[0] == '.'
}

/// A key is excluded from indexing when any of its path components is
/// hidden, i.e. some component starts with the hidden-file marker.
pub open spec fn is_excluded_key(key: Seq<char>) -> bool {
    exists|i: int| 0 <= i < key.len() && #[trigger] key[i] == '.' && (i == 0 || key[i - 1] == '/')
}

/// Why a path could not be resolved to an identity key.
#[derive(Clone, Copy, PartialEq, Eq, Structural, Debug)]
pub enum ResolveError {
    /// The path does not descend from the vault root.
    PathOutsideVault,
    /// The relative path cannot be represented in the identity-key charset.
    InvalidEncoding,
}

/// True exactly when `name` starts with the hidden-file marker.
pub fn is_hidden(name: &str) -> (r: bool)
    ensures
        r == is_hidden_name(name@),
{
    let n: usize = name.unicode_len();
    if n == 0 {
        false
    } else {
        name.get_char(0) == '.'
    }
}

/// True exactly when some component of `key` is hidden.
pub fn key_is_excluded(key: &str) -> (r: bool)
    ensures
        r == is_excluded_key(key@),
{
    let n: usize = key.unicode_len();
    let mut i: usize = 0;
    while i < n
        invariant
            0 <= i <= n,
            n == key@.len(),
            forall|j: int| 0 <= j < i ==> !(#[trigger] key@[j] == '.' && (j == 0 || key@[j - 1]
                == '/')),
        decreases n - i,
    {
        if key.get_char(i) == '.' {
            if i == 0 || key.get_char(i - 1) == '/' {
                return true;
            }
        }
        i = i + 1;
    }
    false
}

/// Computes the identity key of `path` within the vault rooted at `root`.
///
/// Succeeds exactly when `path` descends from `root` and the remainder lies
/// in the identity-key charset; says which of the two failed otherwise.
pub fn resolve(path: &str, root: &str) -> (r: Result<String, ResolveError>)
    requires
        valid_root(root@),
    ensures
        match r {
            Ok(k) => descends_from(path@, root@) && valid_key(relative_key(path@, root@))
                && k@ == relative_key(path@, root@),
            Err(ResolveError::PathOutsideVault) => !descends_from(path@, root@),
            Err(ResolveError::InvalidEncoding) => descends_from(path@, root@)
                && !valid_key(relative_key(path@, root@)),
        },
{
    let n: usize = path.unicode_len();
    let rn: usize = root.unicode_len();
    if n <= rn || n - rn < 2 {
        return Err(ResolveError::PathOutsideVault);
    }
    let mut i: usize = 0;
    while i < rn
        invariant
            0 <= i <= rn,
            rn == root@.len(),
            n == path@.len(),
            n > rn,
            forall|j: int| 0 <= j < i ==> path@[j] == root@[j],
        decreases rn - i,
    {
        if path.get_char(i) != root.get_char(i) {
            return Err(ResolveError::PathOutsideVault);
        }
        i = i + 1;
    }
    if path.get_char(rn) != '/' {
        return Err(ResolveError::PathOutsideVault);
    }
    proof {
        assert(path@.subrange(0, root@.len() as int) =~= root@);
    }
    let mut j: usize = rn + 1;
    while j < n
        invariant
            rn + 1 <= j <= n,
            rn == root@.len(),
            n == path@.len(),
            descends_from(path@, root@),
            forall|t: int| rn + 1 <= t < j ==> path@[t] != '\0',
        decreases n - j,
    {
        if path.get_char(j) == '\0' {
            proof {
                assert(relative_key(path@, root@)[j - rn - 1] == '\0');
            }
            return Err(ResolveError::InvalidEncoding);
        }
        j = j + 1;
    }
    let key = path.substring_char(rn + 1, n).to_owned();
    proof {
        assert(forall|t: int| 0 <= t < relative_key(path@, root@).len()
            ==> relative_key(path@, root@)[t] == path@[t + rn + 1]
                && path@[t + rn + 1] != '\0');
    }
    Ok(key)
}

/// A path takes part in indexing when it descends from the root, its
/// relative form lies in the identity-key charset, and no component of it
/// is hidden.
pub open spec fn admissible(root: Seq<char>, path: Seq<char>) -> bool {
    &&& descends_from(path, root)
    &&& valid_key(relative_key(path, root))
    &&& !is_excluded_key(relative_key(path, root))
}

/// Resolves `paths[i]` to an identity key when it is admissible.
pub fn admissible_key(root: &str, paths: &Vec<String>, i: usize) -> (r: Option<String>)
    requires
        valid_root(root@),
        i < paths@.len(),
    ensures
        match r {
            Some(k) => admissible(root@, paths.deep_view()[i as int]) && k@ == relative_key(
                paths.deep_view()[i as int],
                root@,
            ),
            None => !admissible(root@, paths.deep_view()[i as int]),
        },
{
    proof {
        assert(paths.deep_view()[i as int] == paths@[i as int]@);
    }
    match resolve(paths[i].as_str(), root) {
        Ok(k) => {
            if key_is_excluded(k.as_str()) {
                None
            } else {
                Some(k)
            }
        },
        Err(_) => None,
    }
}

} // verus!
