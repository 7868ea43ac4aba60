//! The matcher: which lines of a text contain a query substring.
//!
//! A line matches when it contains the query as a contiguous substring. In
//! case-insensitive mode both line and query are compared through the case
//! folding of `crate::fold`; the returned lines keep their original casing.
//! An empty query is contained in every line. File order is preserved and
//! duplicate lines may appear more than once.

use vstd::prelude::*;
use crate::fold::{fold, fold_if, lemma_fold_if_subrange, chars_compare_equal};
use crate::lines::{lines_of, split_lines};

verus! {

/// `pat` occurs in `text` starting at position `i`.
pub open spec fn occurs_at(text: Seq<char>, pat: Seq<char>, i: int) -> bool {
    &&& 0 <= i
    &&& i + pat.len() <= text.len()
    &&& text.subrange(i, i + pat.len() as int) == pat
}

/// `pat` occurs somewhere in `text`.
pub open spec fn contains_seq(text: Seq<char>, pat: Seq<char>) -> bool {
    exists|i: int| occurs_at(text, pat, i)
}

/// The line contains the query, under the comparison that the mode selects.
pub open spec fn line_contains(line: Seq<char>, query: Seq<char>, case_sensitive: bool) -> bool {
    contains_seq(fold_if(line, case_sensitive), fold_if(query, case_sensitive))
}

/// Whether `query` occurs in `line` at position `i`, compared
/// case-appropriately.
pub fn match_at(line: &str, query: &str, i: usize, case_sensitive: bool) -> (r: bool)
    requires
        i + query@.len() <= line@.len(),
    ensures
        r == occurs_at(fold_if(line@, case_sensitive), fold_if(query@, case_sensitive), i as int),
{
    let n = line.unicode_len();
    let m = query.unicode_len();
    let ghost tf = fold_if(line@, case_sensitive);
    let ghost pf = fold_if(query@, case_sensitive);
    let mut j: usize = 0;
    while j < m
        invariant
            n == line@.len(),
            m == query@.len(),
            i + m <= n,
            0 <= j <= m,
            tf == fold_if(line@, case_sensitive),
            pf == fold_if(query@, case_sensitive),
            tf.len() == line@.len(),
            pf.len() == query@.len(),
            forall|k: int| 0 <= k < j ==> tf[i + k] == pf[k],
        decreases m - j,
    {
        let a = line.get_char(i + j);
        let b = query.get_char(j);
        if !chars_compare_equal(a, b, case_sensitive) {
            proof {
                assert(tf[i as int + j as int] != pf[j as int]);
                assert(!occurs_at(tf, pf, i as int)) by {
                    if occurs_at(tf, pf, i as int) {
                        assert(tf.subrange(i as int, i + pf.len() as int)[j as int] == pf[j as int]);
                    }
                }
            }
            return false;
        }
        j += 1;
    }
    proof {
        assert(tf.subrange(i as int, i + pf.len() as int) =~= pf);
    }
    true
}

/// Whether `line` contains `query`, compared case-appropriately.
pub fn contains_query(line: &str, query: &str, case_sensitive: bool) -> (r: bool)
    ensures
        r == line_contains(line@, query@, case_sensitive),
{
    let n = line.unicode_len();
    let m = query.unicode_len();
    let ghost tf = fold_if(line@, case_sensitive);
    let ghost pf = fold_if(query@, case_sensitive);
    if m > n {
        proof {
            assert(forall|i: int| !occurs_at(tf, pf, i));
        }
        return false;
    }
    let last = n - m;
    let mut i: usize = 0;
    loop
        invariant
            n == line@.len(),
            m == query@.len(),
            m <= n,
            last == n - m,
            0 <= i <= last,
            tf == fold_if(line@, case_sensitive),
            pf == fold_if(query@, case_sensitive),
            tf.len() == n,
            pf.len() == m,
            forall|k: int| 0 <= k < i ==> !occurs_at(tf, pf, k),
        decreases last - i,
    {
        if match_at(line, query, i, case_sensitive) {
            return true;
        }
        if i == last {
            proof {
                assert(forall|k: int| occurs_at(tf, pf, k) ==> 0 <= k <= last as int);
            }
            return false;
        }
        i += 1;
    }
}

/// The subsequence of `lines` whose members contain `query`, in order.
pub open spec fn matching_lines(lines: Seq<Seq<char>>, query: Seq<char>, case_sensitive: bool) -> Seq<
    Seq<char>,
>
    decreases lines.len(),
{
    if lines.len() == 0 {
        Seq::empty()
    } else {
        let rest = matching_lines(lines.drop_last(), query, case_sensitive);
        if line_contains(lines.last(), query, case_sensitive) {
            rest.push(lines.last())
        } else {
            rest
        }
    }
}

/// The lines of `text` that contain `query`, in file order, with their
/// original casing.
pub fn find_matching_lines(query: &str, text: &str, case_sensitive: bool) -> (r: Vec<String>)
    ensures
        r.deep_view() == matching_lines(lines_of(text@), query@, case_sensitive),
{
    let lines = split_lines(text);
    let mut r: Vec<String> = Vec::new();
    let mut k: usize = 0;
    proof {
        assert(lines.deep_view().subrange(0, 0) =~= Seq::<Seq<char>>::empty());
    }
    while k < lines.len()
        invariant
            lines.deep_view() == lines_of(text@),
            lines.deep_view().len() == lines@.len(),
            0 <= k <= lines@.len(),
            r.deep_view() == matching_lines(
                lines.deep_view().subrange(0, k as int),
                query@,
                case_sensitive,
            ),
        decreases lines@.len() - k,
    {
        let line = &lines[k];
        let ghost prefix = lines.deep_view().subrange(0, k as int);
        let ghost old_r = r.deep_view();
        if contains_query(line.as_str(), query, case_sensitive) {
            r.push(line.clone());
            proof {
                assert(r.deep_view() =~= old_r.push(line@));
            }
        }
        proof {
            let next = lines.deep_view().subrange(0, k + 1);
            assert(next.drop_last() =~= prefix);
            assert(next.last() == lines.deep_view()[k as int]);
            assert(lines.deep_view()[k as int] == line@);
        }
        k += 1;
    }
    proof {
        assert(lines.deep_view().subrange(0, lines@.len() as int) =~= lines.deep_view());
    }
    r
}

/// The lines of `contents` that contain `query` as an exact substring.
pub fn search(query: &str, contents: &str) -> (r: Vec<String>)
    ensures
        r.deep_view() == matching_lines(lines_of(contents@), query@, true),
{
    find_matching_lines(query, contents, true)
}

/// The lines of `contents` that contain `query` up to case folding.
pub fn search_case_insensitive(query: &str, contents: &str) -> (r: Vec<String>)
    ensures
        r.deep_view() == matching_lines(lines_of(contents@), query@, false),
{
    find_matching_lines(query, contents, false)
}

/// A line is in the matching set exactly when it is one of the lines and
/// contains the query: matching is substring containment, nothing else.
pub proof fn lemma_matching_lines_iff(
    lines: Seq<Seq<char>>,
    query: Seq<char>,
    case_sensitive: bool,
    l: Seq<char>,
)
    ensures
        matching_lines(lines, query, case_sensitive).contains(l) <==> (lines.contains(l)
            && line_contains(l, query, case_sensitive)),
    decreases lines.len(),
{
    if lines.len() > 0 {
        lemma_matching_lines_iff(lines.drop_last(), query, case_sensitive, l);
        assert(lines.drop_last().contains(l) ==> lines.contains(l)) by {
            if lines.drop_last().contains(l) {
                let i = choose|i: int| 0 <= i < lines.drop_last().len() && lines.drop_last()[i] == l;
                assert(lines[i] == l);
            }
        }
        if lines.contains(l) && line_contains(l, query, case_sensitive) {
            let i = choose|i: int| 0 <= i < lines.len() && lines[i] == l;
            if i < lines.len() - 1 {
                assert(lines.drop_last()[i] == l);
            }
            let res = matching_lines(lines, query, case_sensitive);
            let rest = matching_lines(lines.drop_last(), query, case_sensitive);
            if i == lines.len() - 1 {
                assert(res[res.len() - 1] == l);
            } else {
                assert(rest.contains(l));
                let j = choose|j: int| 0 <= j < rest.len() && rest[j] == l;
                assert(res[j] == l);
            }
        }
    }
}

/// The case-insensitive search depends on the query only through its fold:
/// two queries that fold to the same characters select the same lines.
pub proof fn lemma_insensitive_query_fold_invariant(
    lines: Seq<Seq<char>>,
    q1: Seq<char>,
    q2: Seq<char>,
)
    requires
        fold(q1) == fold(q2),
    ensures
        matching_lines(lines, q1, false) == matching_lines(lines, q2, false),
    decreases lines.len(),
{
    if lines.len() > 0 {
        lemma_insensitive_query_fold_invariant(lines.drop_last(), q1, q2);
    }
}

/// An empty query is contained in every line, so it selects all of them.
pub proof fn lemma_empty_query_matches_all(lines: Seq<Seq<char>>, case_sensitive: bool)
    ensures
        matching_lines(lines, Seq::empty(), case_sensitive) == lines,
    decreases lines.len(),
{
    if lines.len() > 0 {
        lemma_empty_query_matches_all(lines.drop_last(), case_sensitive);
        let l = lines.last();
        assert(fold_if(Seq::empty(), case_sensitive) =~= Seq::<char>::empty());
        assert(fold_if(l, case_sensitive).subrange(0, 0) =~= Seq::<char>::empty());
        assert(occurs_at(fold_if(l, case_sensitive), fold_if(Seq::empty(), case_sensitive), 0));
        assert(lines.drop_last().push(l) =~= lines);
    }
}

/// A line that contains the query exactly also contains it up to folding.
pub proof fn lemma_contains_folded(line: Seq<char>, query: Seq<char>)
    requires
        line_contains(line, query, true),
    ensures
        line_contains(line, query, false),
{
    let i = choose|i: int| occurs_at(line, query, i);
    lemma_fold_if_subrange(line, i, i + query.len() as int, false);
    assert(fold_if(line, false).subrange(i, i + query.len() as int) =~= fold_if(query, false));
    assert(occurs_at(fold_if(line, false), fold_if(query, false), i));
}

/// Case-insensitive matching is a superset of case-sensitive matching:
/// every line that the case-sensitive search returns, the case-insensitive
/// search returns too.
pub proof fn lemma_case_insensitive_superset(
    lines: Seq<Seq<char>>,
    query: Seq<char>,
    l: Seq<char>,
)
    requires
        matching_lines(lines, query, true).contains(l),
    ensures
        matching_lines(lines, query, false).contains(l),
{
    lemma_matching_lines_iff(lines, query, true, l);
    lemma_matching_lines_iff(lines, query, false, l);
    lemma_contains_folded(l, query);
}

} // verus!
