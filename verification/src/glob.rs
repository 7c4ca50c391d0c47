//! Glob matching of paths.
use vstd::prelude::*;

verus! {

/// Whether `path` matches the glob `glob`, as `fast_glob::glob_match` decides it
/// (`*`, `**`, `?`, classes, braces, and leading `!` negation).
pub uninterp spec fn glob_matches(glob: Seq<char>, path: Seq<char>) -> bool;

/// Calls `fast_glob::glob_match` on the UTF-8 bytes of `glob` and `path`.
#[verifier::external_body]
pub(crate) fn glob_match(glob: &str, path: &str) -> (r: bool)
    ensures
        r == glob_matches(glob@, path@),
{
    fast_glob::glob_match(glob, path)
}

} // verus!
