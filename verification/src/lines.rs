//! Splitting a text into lines.
//!
//! A line ends at a line feed or at a carriage return followed by a line
//! feed; the terminator is not part of the line. A final line without a
//! terminator is still a complete line, and a text that ends with a
//! terminator produces no extra empty line. A carriage return not followed
//! by a line feed does not end a line.

use vstd::prelude::*;

verus! {

/// The position of the first line feed at or after `from`, or `s.len()`
/// when there is none.
pub open spec fn newline_index_from(s: Seq<char>, from: int) -> int
    decreases s.len() - from when 0 <= from <= s.len()
{
    if from >= s.len() {
        s.len() as int
    } else if s[from] == '\n' {
        from
    } else {
        newline_index_from(s, from + 1)
    }
}

/// Bounds and characterization of `newline_index_from`.
pub proof fn lemma_newline_index_from(s: Seq<char>, from: int)
    requires
        0 <= from <= s.len(),
    ensures
        from <= newline_index_from(s, from) <= s.len(),
        forall|k: int| from <= k < newline_index_from(s, from) ==> s[k] != '\n',
        newline_index_from(s, from) < s.len() ==> s[newline_index_from(s, from)] == '\n',
    decreases s.len() - from,
{
    if from < s.len() && s[from] != '\n' {
        lemma_newline_index_from(s, from + 1);
    }
}

/// `newline_index_from` finds exactly the first line feed.
pub proof fn lemma_newline_index_from_is(s: Seq<char>, from: int, k: int)
    requires
        0 <= from <= k <= s.len(),
        forall|j: int| from <= j < k ==> s[j] != '\n',
        k < s.len() ==> s[k] == '\n',
    ensures
        newline_index_from(s, from) == k,
    decreases k - from,
{
    if from < k {
        lemma_newline_index_from_is(s, from + 1, k);
    }
}

/// A line content with a trailing carriage return removed; that form arises
/// just before a line feed.
pub open spec fn strip_cr(s: Seq<char>) -> Seq<char> {
    if s.len() > 0 && s[s.len() - 1] == '\r' {
        s.subrange(0, s.len() - 1)
    } else {
        s
    }
}

/// The lines of a text, in order.
pub open spec fn lines_of(s: Seq<char>) -> Seq<Seq<char>>
    decreases s.len() via lines_of_decreases
{
    if s.len() == 0 {
        Seq::empty()
    } else {
        let k = newline_index_from(s, 0);
        if k < s.len() {
            seq![strip_cr(s.subrange(0, k))] + lines_of(s.subrange(k + 1, s.len() as int))
        } else {
            seq![s]
        }
    }
}

#[via_fn]
proof fn lines_of_decreases(s: Seq<char>) {
    if s.len() > 0 {
        lemma_newline_index_from(s, 0);
    }
}

/// Splits `contents` into its lines, exactly as `lines_of` describes.
pub fn split_lines(contents: &str) -> (r: Vec<String>)
    ensures
        r.deep_view() == lines_of(contents@),
{
    let n = contents.unicode_len();
    let mut r: Vec<String> = Vec::new();
    let mut start: usize = 0;
    let mut i: usize = 0;
    proof {
        assert(contents@.subrange(0, n as int) =~= contents@);
        assert(r.deep_view() =~= Seq::<Seq<char>>::empty());
        assert(Seq::<Seq<char>>::empty() + lines_of(contents@) =~= lines_of(contents@));
    }
    while i < n
        invariant
            n == contents@.len(),
            0 <= start <= i <= n,
            forall|k: int| start <= k < i ==> contents@[k] != '\n',
            lines_of(contents@) == r.deep_view() + lines_of(
                contents@.subrange(start as int, n as int),
            ),
        decreases n - i,
    {
        let c = contents.get_char(i);
        if c == '\n' {
            let end: usize = if i > start && contents.get_char(i - 1) == '\r' {
                i - 1
            } else {
                i
            };
            let line = contents.substring_char(start, end);
            let ghost old_lines = r.deep_view();
            r.push(String::from_str(line));
            proof {
                let s = contents@;
                let suffix = s.subrange(start as int, n as int);
                lemma_newline_index_from_is(suffix, 0, i - start);
                assert(suffix.subrange(0, i - start) =~= s.subrange(start as int, i as int));
                assert(suffix.subrange(i - start + 1, suffix.len() as int) =~= s.subrange(
                    i + 1,
                    n as int,
                ));
                assert(strip_cr(s.subrange(start as int, i as int)) =~= s.subrange(
                    start as int,
                    end as int,
                ));
                assert(lines_of(suffix) == seq![line@] + lines_of(
                    s.subrange(i + 1, n as int),
                ));
                assert(r.deep_view() =~= old_lines + seq![line@]);
            }
            start = i + 1;
        }
        i += 1;
    }
    if start < n {
        let line = contents.substring_char(start, n);
        let ghost old_lines = r.deep_view();
        r.push(String::from_str(line));
        proof {
            let s = contents@;
            let suffix = s.subrange(start as int, n as int);
            lemma_newline_index_from_is(suffix, 0, suffix.len() as int);
            assert(lines_of(suffix) == seq![suffix]);
            assert(line@ == suffix);
            assert(r.deep_view() =~= old_lines + seq![line@]);
        }
    } else {
        proof {
            assert(contents@.subrange(start as int, n as int) =~= Seq::<char>::empty());
        }
    }
    proof {
        assert(r.deep_view() =~= r.deep_view() + Seq::<Seq<char>>::empty());
    }
    r
}

} // verus!
