//! Substring containment: the test that decides whether a line matches a
//! query, together with its mathematical statement.

use vstd::prelude::*;

verus! {

/// `needle` occurs as a contiguous run of characters somewhere in `hay`.
/// The empty sequence occurs in every sequence (at position 0).
pub open spec fn spec_contains(hay: Seq<char>, needle: Seq<char>) -> bool {
    exists|i: int|
        0 <= i && i + needle.len() <= hay.len() && #[trigger] hay.subrange(i, i + needle.len())
            == needle
}

/// Whether `needle` occurs in `hay` starting exactly at position `at`.
fn match_at(hay: &str, needle: &str, at: usize, needle_len: usize) -> (r: bool)
    requires
        needle_len == needle@.len(),
        at + needle_len <= hay@.len(),
        hay@.len() <= usize::MAX,
    ensures
        r == (hay@.subrange(at as int, at + needle_len) == needle@),
{
    let mut j: usize = 0;
    while j < needle_len
        invariant
            needle_len == needle@.len(),
            at + needle_len <= hay@.len(),
            hay@.len() <= usize::MAX,
            j <= needle_len,
            forall|k: int| 0 <= k < j ==> hay@[at + k] == needle@[k],
        decreases needle_len - j,
    {
        if hay.get_char(at + j) != needle.get_char(j) {
            proof {
                assert(hay@.subrange(at as int, at + needle_len)[j as int] == hay@[at + j]);
            }
            return false;
        }
        j += 1;
    }
    proof {
        assert(hay@.subrange(at as int, at + needle_len) =~= needle@);
    }
    true
}

/// Decides whether `needle` occurs as a contiguous substring of `hay`,
/// comparing characters exactly.
pub fn contains_str(hay: &str, needle: &str) -> (r: bool)
    ensures
        r == spec_contains(hay@, needle@),
{
    let hay_len = hay.unicode_len();
    let needle_len = needle.unicode_len();
    if needle_len > hay_len {
        return false;
    }
    let bound = hay_len - needle_len;
    let mut i: usize = 0;
    loop
        invariant
            hay_len == hay@.len(),
            needle_len == needle@.len(),
            needle_len <= hay_len,
            bound == hay_len - needle_len,
            i <= bound,
            forall|k: int| 0 <= k < i ==> #[trigger] hay@.subrange(k, k + needle@.len()) != needle@,
        ensures
            forall|k: int|
                0 <= k && k + needle@.len() <= hay@.len() ==> #[trigger] hay@.subrange(
                    k,
                    k + needle@.len(),
                ) != needle@,
        decreases bound - i,
    {
        if match_at(hay, needle, i, needle_len) {
            proof {
                assert(hay@.subrange(i as int, i + needle@.len()) == needle@);
            }
            return true;
        }
        if i == bound {
            break ;
        }
        i += 1;
    }
    false
}

} // verus!
