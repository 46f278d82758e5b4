//! The longest common subsequence, as a measuring stick for edit scripts.
//!
//! A script that turns one sequence into another keeps some elements unedited;
//! those kept elements always form a common subsequence, so no script can keep
//! more than [`lcs_len`] elements — equivalently, every script holds at least
//! `|before| + |after| - 2 * lcs_len` actions. A minimal diff attains that
//! bound. The lemmas here establish the facts about `lcs_len` that the bound
//! in [`crate::script`] rests on.

use vstd::prelude::*;

verus! {

/// Length of the longest common subsequence of `a` and `b`.
pub open spec fn lcs_len(a: Seq<Seq<char>>, b: Seq<Seq<char>>) -> int
    decreases a.len(), b.len(),
{
    if a.len() == 0 || b.len() == 0 {
        0
    } else if a[0] == b[0] {
        1 + lcs_len(a.drop_first(), b.drop_first())
    } else {
        let skip_a = lcs_len(a.drop_first(), b);
        let skip_b = lcs_len(a, b.drop_first());
        if skip_a >= skip_b {
            skip_a
        } else {
            skip_b
        }
    }
}

/// The LCS is never longer than either sequence.
pub proof fn lemma_lcs_len_bound(a: Seq<Seq<char>>, b: Seq<Seq<char>>)
    ensures
        0 <= lcs_len(a, b),
        lcs_len(a, b) <= a.len(),
        lcs_len(a, b) <= b.len(),
    decreases a.len(), b.len(),
{
    if a.len() == 0 || b.len() == 0 {
    } else if a[0] == b[0] {
        lemma_lcs_len_bound(a.drop_first(), b.drop_first());
    } else {
        lemma_lcs_len_bound(a.drop_first(), b);
        lemma_lcs_len_bound(a, b.drop_first());
    }
}

/// A sequence is its own longest common subsequence.
pub proof fn lemma_lcs_refl(a: Seq<Seq<char>>)
    ensures
        lcs_len(a, a) == a.len(),
    decreases a.len(),
{
    if a.len() > 0 {
        lemma_lcs_refl(a.drop_first());
    }
}

/// Dropping the first element of the first sequence cannot lengthen the LCS.
pub proof fn lemma_lcs_drop_first(a: Seq<Seq<char>>, b: Seq<Seq<char>>)
    requires
        a.len() > 0,
    ensures
        lcs_len(a.drop_first(), b) <= lcs_len(a, b),
    decreases a.len() + b.len(),
{
    let at = a.drop_first();
    if b.len() == 0 || at.len() == 0 {
        lemma_lcs_len_bound(a, b);
    } else if a[0] == b[0] {
        // lcs(a, b) == 1 + lcs(at, b.drop_first())
        if at[0] == b[0] {
            lemma_lcs_drop_first(at, b.drop_first());
        } else {
            lemma_lcs_grow_second(at.drop_first(), b);
            lemma_lcs_drop_first(at, b.drop_first());
        }
    } else {
        // lcs(a, b) is the larger of lcs(at, b) and lcs(a, b.drop_first())
    }
}

/// Restoring the first element of the second sequence lengthens the LCS by at
/// most one.
pub proof fn lemma_lcs_grow_second(a: Seq<Seq<char>>, b: Seq<Seq<char>>)
    requires
        b.len() > 0,
    ensures
        lcs_len(a, b) <= 1 + lcs_len(a, b.drop_first()),
    decreases a.len() + b.len(),
{
    if a.len() == 0 {
    } else if a[0] == b[0] {
        lemma_lcs_drop_first(a, b.drop_first());
    } else {
        lemma_lcs_grow_second(a.drop_first(), b);
        lemma_lcs_drop_first(a, b.drop_first());
    }
}

/// The LCS does not depend on the order of its arguments.
pub proof fn lemma_lcs_symmetric(a: Seq<Seq<char>>, b: Seq<Seq<char>>)
    ensures
        lcs_len(a, b) == lcs_len(b, a),
    decreases a.len(), b.len(),
{
    if a.len() == 0 || b.len() == 0 {
    } else if a[0] == b[0] {
        lemma_lcs_symmetric(a.drop_first(), b.drop_first());
    } else {
        lemma_lcs_symmetric(a.drop_first(), b);
        lemma_lcs_symmetric(a, b.drop_first());
    }
}

/// Dropping the first element of the second sequence cannot lengthen the LCS.
pub proof fn lemma_lcs_drop_second(a: Seq<Seq<char>>, b: Seq<Seq<char>>)
    requires
        b.len() > 0,
    ensures
        lcs_len(a, b.drop_first()) <= lcs_len(a, b),
{
    lemma_lcs_symmetric(a, b);
    lemma_lcs_symmetric(a, b.drop_first());
    lemma_lcs_drop_first(b, a);
}

} // verus!
