//! Case folding used for case-insensitive comparison.
//!
//! Folding lowercases one character at a time: each character is replaced
//! by the first character of its Unicode lowercase mapping, so a folded
//! text has exactly the length of the original and match offsets found on
//! folded text are valid on the original text. Folding is used only for
//! comparison, never for output.

use vstd::prelude::*;

verus! {

/// The folded form of a single character: the first character of its
/// Unicode lowercase mapping. The mapping itself is computed by the
/// standard library; this name stands for its result.
pub uninterp spec fn fold_char(c: char) -> char;

/// The folded form of a sequence of characters; same length as the input.
pub open spec fn fold(s: Seq<char>) -> Seq<char> {
    s.map_values(|c: char| fold_char(c))
}

/// The sequence as it is compared: folded when the comparison is
/// case-insensitive, unchanged when it is case-sensitive.
pub open spec fn fold_if(s: Seq<char>, case_sensitive: bool) -> Seq<char> {
    if case_sensitive {
        s
    } else {
        fold(s)
    }
}

/// Relies on char::to_lowercase: the Unicode lowercase mapping of a
/// character, which depends on that character alone. Its first character
/// is what `fold_char` names; the mapping is never empty, so the fallback
/// arm is not taken.
#[verifier::external_body]
pub(crate) fn fold_char_exec(c: char) -> (r: char)
    ensures
        r == fold_char(c),
{
    match c.to_lowercase().next() {
        Some(l) => l,
        None => c,
    }
}

/// Two characters compare as equal: identical when case-sensitive, equal
/// after folding otherwise.
pub fn chars_compare_equal(a: char, b: char, case_sensitive: bool) -> (r: bool)
    ensures
        case_sensitive ==> r == (a == b),
        !case_sensitive ==> r == (fold_char(a) == fold_char(b)),
{
    if case_sensitive {
        a == b
    } else {
        fold_char_exec(a) == fold_char_exec(b)
    }
}

/// Folding distributes over subranges: the fold of a slice is the slice of
/// the fold.
pub proof fn lemma_fold_subrange(s: Seq<char>, i: int, j: int)
    requires
        0 <= i <= j <= s.len(),
    ensures
        fold(s.subrange(i, j)) =~= fold(s).subrange(i, j),
{
}

/// `fold_if` distributes over subranges in the same way.
pub proof fn lemma_fold_if_subrange(s: Seq<char>, i: int, j: int, case_sensitive: bool)
    requires
        0 <= i <= j <= s.len(),
    ensures
        fold_if(s.subrange(i, j), case_sensitive) =~= fold_if(s, case_sensitive).subrange(i, j),
{
    if !case_sensitive {
        lemma_fold_subrange(s, i, j);
    }
}

} // verus!
