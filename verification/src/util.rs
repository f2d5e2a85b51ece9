//! Path-text utilities: home-directory lookup and tilde expansion.
//!
//! Paths are handled as plain text throughout the library; the only call
//! that leaves it here is the home-directory lookup, whose result depends
//! on the environment.

use vstd::prelude::*;
use vstd::string::StrSliceExecFns;
use vstd::string::StringExecFns;

verus! {

/// Relies on home::home_dir: the current user's home directory, read
/// from the environment or OS account data. `None` when it cannot be
/// determined, or when it is not valid UTF-8. The result depends on the
/// environment, so nothing is promised of its value.
#[verifier::external_body]
pub fn get_home_dir() -> (r: Option<String>) {
    home::home_dir().and_then(|p| p.to_str().map(|s| s.to_string()))
}

/// `base` and `rest` joined with exactly one separator between them; an
/// empty base contributes nothing.
pub open spec fn spec_join_path(base: Seq<char>, rest: Seq<char>) -> Seq<char> {
    if base.len() == 0 {
        rest
    } else if base[base.len() - 1] == '/' {
        base + rest
    } else {
        base.push('/') + rest
    }
}

/// The path starts with the tilde marker alone or `~/`.
pub open spec fn tilde_prefixed(p: Seq<char>) -> bool {
    p == seq!['~'] || (p.len() >= 2 && p[0] == '~' && p[1] == '/')
}

/// The tilde expansion of `p` against the home directory `home`: `~`
/// becomes `home`, `~/rest` becomes `home` joined with `rest`, anything
/// else is returned as it came.
pub open spec fn spec_expand_tilde(p: Seq<char>, home: Seq<char>) -> Seq<char> {
    if p == seq!['~'] {
        home
    } else if p.len() >= 2 && p[0] == '~' && p[1] == '/' {
        spec_join_path(home, p.subrange(2, p.len() as int))
    } else {
        p
    }
}

/// Joins `base` and `rest` with exactly one separator.
pub fn join_path(base: &str, rest: &str) -> (r: String)
    ensures
        r@ == spec_join_path(base@, rest@),
{
    let n: usize = base.unicode_len();
    if n == 0 {
        return rest.to_owned();
    }
    let mut out = base.to_owned();
    if base.get_char(n - 1) != '/' {
        out.append("/");
        proof {
            reveal_strlit("/");
            assert(out@ =~= base@.push('/'));
        }
    }
    out.append(rest);
    proof {
        assert(out@ =~= spec_join_path(base@, rest@));
    }
    out
}

/// Expands a path starting with `~` to the user's home directory, taken
/// as the argument `home`.
pub fn expand_tilde_with(input_path: &str, home: &str) -> (r: String)
    ensures
        r@ == spec_expand_tilde(input_path@, home@),
{
    let n: usize = input_path.unicode_len();
    if n == 1 && input_path.get_char(0) == '~' {
        proof {
            assert(input_path@ =~= seq!['~']);
        }
        home.to_owned()
    } else if n >= 2 && input_path.get_char(0) == '~' && input_path.get_char(1) == '/' {
        proof {
            assert(input_path@ != seq!['~']);
        }
        let rest = input_path.substring_char(2, n);
        join_path(home, rest)
    } else {
        proof {
            assert(input_path@ != seq!['~']);
        }
        input_path.to_owned()
    }
}

/// Expands a path starting with `~` to the user's home directory.
///
/// Returns `None` when the path needs expansion but the home directory
/// cannot be determined; a path that does not start with the tilde
/// marker is returned as it came.
pub fn expand_tilde(input_path: &str) -> (r: Option<String>)
    ensures
        match r {
            Some(s) => if tilde_prefixed(input_path@) {
                exists|h: Seq<char>| s@ == spec_expand_tilde(input_path@, h)
            } else {
                s@ == input_path@
            },
            None => tilde_prefixed(input_path@),
        },
{
    let n: usize = input_path.unicode_len();
    let tilde = (n == 1 && input_path.get_char(0) == '~') || (n >= 2 && input_path.get_char(0)
        == '~' && input_path.get_char(1) == '/');
    proof {
        if n >= 1 && input_path@[0] == '~' && n == 1 {
            assert(input_path@ =~= seq!['~']);
        }
        if input_path@ == seq!['~'] {
            assert(n == 1 && input_path@[0] == '~');
        }
    }
    if !tilde {
        return Some(input_path.to_owned());
    }
    match get_home_dir() {
        Some(home) => {
            let expanded = expand_tilde_with(input_path, home.as_str());
            proof {
                assert(expanded@ == spec_expand_tilde(input_path@, home@));
            }
            Some(expanded)
        },
        None => None,
    }
}

} // verus!
