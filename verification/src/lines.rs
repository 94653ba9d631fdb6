//! Splitting a text into its lines. A line ends at a line feed or at a
//! carriage return followed by a line feed; the terminator characters are not
//! part of the line, and a final terminator opens no further empty line.

use vstd::prelude::*;

verus! {

/// Position of the first line feed in `s`, or `s.len()` if there is none.
pub open spec fn first_newline(s: Seq<char>) -> int
    decreases s.len(),
{
    if s.len() == 0 {
        0
    } else if s[0] == '\n' {
        0
    } else {
        1 + first_newline(s.drop_first())
    }
}

pub proof fn lemma_first_newline(s: Seq<char>)
    ensures
        0 <= first_newline(s) <= s.len(),
        forall|k: int| 0 <= k < first_newline(s) ==> s[k] != '\n',
        first_newline(s) < s.len() ==> s[first_newline(s)] == '\n',
    decreases s.len(),
{
    if s.len() == 0 {
    } else if s[0] == '\n' {
    } else {
        let t = s.drop_first();
        lemma_first_newline(t);
        assert forall|k: int| 0 <= k < first_newline(s) implies s[k] != '\n' by {
            if k > 0 {
                assert(s[k] == t[k - 1]);
            }
        }
        if first_newline(s) < s.len() {
            assert(s[first_newline(s)] == t[first_newline(t)]);
        }
    }
}

/// `first_newline` is pinned down by its characterization: no line feed
/// before `k`, and a line feed at `k` unless `k` is the length.
proof fn lemma_first_newline_at(s: Seq<char>, k: int)
    requires
        0 <= k <= s.len(),
        forall|j: int| 0 <= j < k ==> s[j] != '\n',
        k < s.len() ==> s[k] == '\n',
    ensures
        first_newline(s) == k,
    decreases s.len(),
{
    if k == 0 {
        if s.len() > 0 && s[0] != '\n' {
            let t = s.drop_first();
            lemma_first_newline(t);
        }
    } else {
        assert(s[0] != '\n');
        let t = s.drop_first();
        assert forall|j: int| 0 <= j < k - 1 implies t[j] != '\n' by {
            assert(t[j] == s[j + 1]);
        }
        if k - 1 < t.len() {
            assert(t[k - 1] == s[k]);
        }
        lemma_first_newline_at(t, k - 1);
    }
}

/// A line as delivered: the piece before the line feed, with one carriage
/// return dropped from its end if present.
pub open spec fn strip_cr(line: Seq<char>) -> Seq<char> {
    if line.len() > 0 && line.last() == '\r' {
        line.drop_last()
    } else {
        line
    }
}

/// The lines of `s`, in order: the empty text has no lines; otherwise the
/// piece before the first line feed (without a trailing carriage return) is
/// the first line, and the rest of the text supplies the rest of the lines.
/// A text without a final line feed still ends in a line, kept whole.
pub open spec fn spec_lines(s: Seq<char>) -> Seq<Seq<char>>
    decreases s.len(),
{
    if s.len() == 0 {
        Seq::empty()
    } else {
        let i = first_newline(s);
        if i == s.len() {
            seq![s]
        } else {
            proof {
                lemma_first_newline(s);
            }
            seq![strip_cr(s.subrange(0, i))] + spec_lines(s.subrange(i + 1, s.len() as int))
        }
    }
}

/// Splits `contents` into its lines, each a slice of `contents` itself.
pub fn split_lines<'a>(contents: &'a str) -> (lines: Vec<&'a str>)
    ensures
        lines.deep_view() == spec_lines(contents@),
{
    let n = contents.unicode_len();
    let mut lines: Vec<&'a str> = Vec::new();
    let mut start: usize = 0;
    let mut i: usize = 0;
    proof {
        assert(contents@.subrange(0, n as int) =~= contents@);
        assert(lines.deep_view() + spec_lines(contents@) =~= spec_lines(contents@));
    }
    while i < n
        invariant
            n == contents@.len(),
            start <= i <= n,
            forall|k: int| start <= k < i ==> contents@[k] != '\n',
            lines.deep_view() + spec_lines(contents@.subrange(start as int, n as int))
                == spec_lines(contents@),
        decreases n - i,
    {
        if contents.get_char(i) == '\n' {
            let end = if i > start && contents.get_char(i - 1) == '\r' {
                i - 1
            } else {
                i
            };
            let line = contents.substring_char(start, end);
            proof {
                let s = contents@;
                let suf = s.subrange(start as int, n as int);
                assert forall|j: int| 0 <= j < i - start implies suf[j] != '\n' by {
                    assert(suf[j] == s[start + j]);
                }
                lemma_first_newline_at(suf, i - start);
                assert(strip_cr(suf.subrange(0, i - start)) =~= s.subrange(
                    start as int,
                    end as int,
                ));
                assert(suf.subrange(i - start + 1, suf.len() as int) =~= s.subrange(
                    i + 1,
                    n as int,
                ));
                assert(spec_lines(suf) == seq![s.subrange(start as int, end as int)] + spec_lines(
                    s.subrange(i + 1, n as int),
                ));
                assert(lines.deep_view().push(line@) + spec_lines(s.subrange(i + 1, n as int))
                    =~= lines.deep_view() + spec_lines(suf));
            }
            let ghost old_lines = lines.deep_view();
            lines.push(line);
            proof {
                assert(lines.deep_view() =~= old_lines.push(line@));
            }
            start = i + 1;
        }
        i += 1;
    }
    if start < n {
        let line = contents.substring_char(start, n);
        proof {
            let s = contents@;
            let suf = s.subrange(start as int, n as int);
            assert forall|j: int| 0 <= j < suf.len() implies suf[j] != '\n' by {
                assert(suf[j] == s[start + j]);
            }
            lemma_first_newline_at(suf, suf.len() as int);
            assert(spec_lines(suf) == seq![suf]);
            assert(lines.deep_view().push(line@) =~= lines.deep_view() + spec_lines(suf));
        }
        let ghost old_lines = lines.deep_view();
        lines.push(line);
        proof {
            assert(lines.deep_view() =~= old_lines.push(line@));
        }
    } else {
        proof {
            let suf = contents@.subrange(start as int, n as int);
            assert(suf =~= Seq::<char>::empty());
            assert(lines.deep_view() + spec_lines(suf) =~= lines.deep_view());
        }
    }
    lines
}

} // verus!
