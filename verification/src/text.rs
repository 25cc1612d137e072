//! Specifications of the few string operations the library relies on.

use vstd::prelude::*;

verus! {

/// `s` with every leading `c` removed.
pub open spec fn trim_leading(s: Seq<char>, c: char) -> Seq<char>
    decreases s.len(),
{
    if s.len() > 0 && s[0] == c {
        trim_leading(s.drop_first(), c)
    } else {
        s
    }
}

/// Calls `str::eq`: true exactly when both slices hold the same characters.
#[verifier::external_body]
pub(crate) fn str_eq(a: &str, b: &str) -> (res: bool)
    ensures
        res == (a@ == b@),
{
    a == b
}

/// Calls `str::trim_start_matches` with the pattern `'/'`: the slice with
/// every leading slash removed, as the standard library documents.
#[verifier::external_body]
pub(crate) fn trim_leading_slashes(s: &str) -> (res: &str)
    ensures
        res@ == trim_leading(s@, '/'),
{
    s.trim_start_matches('/')
}

/// Calls `str::contains` with the pattern `'/'`: whether a slash occurs.
#[verifier::external_body]
pub(crate) fn contains_slash(s: &str) -> (res: bool)
    ensures
        res == s@.contains('/'),
{
    s.contains('/')
}

} // verus!
