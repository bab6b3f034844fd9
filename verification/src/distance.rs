//! Levenshtein edit distance: the specification, and the outside function
//! that computes it.

use vstd::prelude::*;

verus! {

/// The least of three naturals.
pub open spec fn min3(a: nat, b: nat, c: nat) -> nat {
    if a <= b && a <= c {
        a
    } else if b <= c {
        b
    } else {
        c
    }
}

/// The Levenshtein edit distance between two character sequences: the least
/// number of single-character insertions, deletions and substitutions that
/// turns one into the other.
pub open spec fn lev(a: Seq<char>, b: Seq<char>) -> nat
    decreases a.len() + b.len(),
{
    if a.len() == 0 {
        b.len()
    } else if b.len() == 0 {
        a.len()
    } else if a[0] == b[0] {
        lev(a.drop_first(), b.drop_first())
    } else {
        1 + min3(
            lev(a.drop_first(), b),
            lev(a, b.drop_first()),
            lev(a.drop_first(), b.drop_first()),
        )
    }
}

/// Relies on edit_distance::edit_distance: the Levenshtein distance between
/// the two strings, computed over their characters.
#[verifier::external_body]
pub(crate) fn edit_distance(a: &str, b: &str) -> (d: usize)
    ensures
        d == lev(a@, b@),
{
    edit_distance::edit_distance(a, b)
}

} // verus!
