//! Tilde expansion for user-supplied paths.
//!
//! The expansion itself is the pure function
//! [`crate::util::expand_tilde_with`]; this module binds it to the
//! environment's home directory.

use vstd::prelude::*;
use vstd::string::StrSliceExecFns;
use crate::util::{expand_tilde_with, get_home_dir, spec_expand_tilde, tilde_prefixed};

verus! {

/// Expands a path starting with `~` to the user's home directory.
///
/// Returns `None` when the path needs expansion but the home directory
/// cannot be determined; a path that does not start with the tilde
/// marker is returned as it came.
pub fn expand_tilde(input_path: &str) -> (r: Option<String>)
    ensures
        match r {
            Some(s) => if tilde_prefixed(input_path@) {
                exists|h: Seq<char>| s@ == spec_expand_tilde(input_path@, h)
            } else {
                s@ == input_path@
            },
            None => tilde_prefixed(input_path@),
        },
{
    let n: usize = input_path.unicode_len();
    let tilde = (n == 1 && input_path.get_char(0) == '~') || (n >= 2 && input_path.get_char(0)
        == '~' && input_path.get_char(1) == '/');
    proof {
        if n >= 1 && input_path@[0] == '~' && n == 1 {
            assert(input_path@ =~= seq!['~']);
        }
        if input_path@ == seq!['~'] {
            assert(n == 1 && input_path@[0] == '~');
        }
    }
    if !tilde {
        return Some(input_path.to_owned());
    }
    match get_home_dir() {
        Some(home) => Some(expand_tilde_with(input_path, home.as_str())),
        None => None,
    }
}

} // verus!
