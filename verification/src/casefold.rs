//! Lowercase folding, done by the standard library and given a name here so
//! that contracts can speak of it.

use vstd::prelude::*;

verus! {

/// The lowercase folding of a character sequence, as `str::to_lowercase`
/// computes it. It is a function of the characters alone.
pub uninterp spec fn lower_of(s: Seq<char>) -> Seq<char>;

/// Relies on `str::to_lowercase`: returns the lowercase equivalent of the
/// slice, determined by the Unicode lowercase mapping of its characters alone
/// (no locale or other environment is consulted).
#[verifier::external_body]
pub(crate) fn to_lowercase(s: &str) -> (r: String)
    ensures
        r@ == lower_of(s@),
{
    s.to_lowercase()
}

} // verus!
