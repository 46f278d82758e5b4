//! Semantics of edit scripts.
//!
//! An edit script is an ordered list of [`EditAction`]s whose anchors are
//! expressed in output-cursor units: the running count of matched (unedited)
//! elements a consumer has scanned past. [`apply_spec`] is the mathematical
//! meaning of applying such a script, and [`apply_edit_actions`] is the
//! executable renderer, verified against it.

use vstd::prelude::*;
use vstd::slice::{slice_index_get, slice_subrange};
use crate::edit_action::EditAction;
use crate::lcs::{
    lcs_len, lemma_lcs_drop_first, lemma_lcs_drop_second, lemma_lcs_refl,
};

verus! {

broadcast use vstd::string::group_string_axioms, vstd::slice::group_slice_axioms;

/// The character sequences of the elements of a sequence of string slices.
pub open spec fn lines_view(s: Seq<&str>) -> Seq<Seq<char>> {
    Seq::new(s.len(), |i: int| s[i]@)
}

/// The character sequences of the elements of a sequence of owned strings.
pub open spec fn owned_lines_view(s: Seq<String>) -> Seq<Seq<char>> {
    Seq::new(s.len(), |i: int| s[i]@)
}

/// The result of applying the script `acts` to `before`, scanning with the
/// output cursor starting at `base`: `Some((final_cursor, output))` when the
/// script applies cleanly, `None` otherwise.
///
/// An action anchored at the current cursor is consumed (an `Add` emits its
/// content, a `Delete` skips the next element of `before`); while the next
/// anchor lies ahead of the cursor, elements of `before` are emitted as
/// matched, each advancing the cursor by one. Once the script is exhausted,
/// the rest of `before` is matched. The final cursor is `base` plus the total
/// number of matched elements.
pub open spec fn apply_spec(before: Seq<Seq<char>>, base: int, acts: Seq<EditAction>) -> Option<
    (int, Seq<Seq<char>>),
>
    decreases acts.len(), before.len(),
{
    if acts.len() == 0 {
        Some((base + before.len(), before))
    } else {
        let a0 = acts[0];
        if a0.anchor() == base {
            match a0 {
                EditAction::Add(_, s) => match apply_spec(before, base, acts.drop_first()) {
                    Some(r) => Some((r.0, seq![s@] + r.1)),
                    None => None,
                },
                EditAction::Delete(_) => if before.len() > 0 {
                    apply_spec(before.drop_first(), base, acts.drop_first())
                } else {
                    None
                },
            }
        } else if a0.anchor() > base && before.len() > 0 {
            match apply_spec(before.drop_first(), base + 1, acts) {
                Some(r) => Some((r.0, seq![before[0]] + r.1)),
                None => None,
            }
        } else {
            None
        }
    }
}

/// The number of `Add` actions in a script.
pub open spec fn num_adds(acts: Seq<EditAction>) -> int
    decreases acts.len(),
{
    if acts.len() == 0 {
        0
    } else {
        (if acts[0] is Add {
            1int
        } else {
            0int
        }) + num_adds(acts.drop_first())
    }
}

/// The number of `Delete` actions in a script.
pub open spec fn num_deletes(acts: Seq<EditAction>) -> int
    decreases acts.len(),
{
    if acts.len() == 0 {
        0
    } else {
        (if acts[0] is Delete {
            1int
        } else {
            0int
        }) + num_deletes(acts.drop_first())
    }
}

/// Every action of a script that applies cleanly is anchored at or after the
/// starting cursor.
pub proof fn lemma_apply_anchors(before: Seq<Seq<char>>, base: int, acts: Seq<EditAction>)
    requires
        apply_spec(before, base, acts) is Some,
    ensures
        forall|i: int| 0 <= i < acts.len() ==> (#[trigger] acts[i]).anchor() >= base,
    decreases acts.len(), before.len(),
{
    if acts.len() == 0 {
    } else {
        let a0 = acts[0];
        if a0.anchor() == base {
            match a0 {
                EditAction::Add(_, _) => {
                    lemma_apply_anchors(before, base, acts.drop_first());
                },
                EditAction::Delete(_) => {
                    lemma_apply_anchors(before.drop_first(), base, acts.drop_first());
                },
            }
            assert forall|i: int| 0 <= i < acts.len() implies (#[trigger] acts[i]).anchor()
                >= base by {
                if i >= 1 {
                    assert(acts[i] == acts.drop_first()[i - 1]);
                }
            }
        } else {
            lemma_apply_anchors(before.drop_first(), base + 1, acts);
        }
    }
}

/// How the final cursor and the output length of a clean application relate
/// to the input length and the action counts: the cursor advances by exactly
/// the number of matched elements, `|before| - count(Delete)`, and the output
/// holds those matched elements plus one per `Add`.
pub proof fn lemma_apply_shape(before: Seq<Seq<char>>, base: int, acts: Seq<EditAction>)
    requires
        apply_spec(before, base, acts) is Some,
    ensures
        ({
            let r = apply_spec(before, base, acts)->Some_0;
            &&& 0 <= num_deletes(acts) <= before.len()
            &&& 0 <= num_adds(acts) <= acts.len()
            &&& r.0 == base + before.len() - num_deletes(acts)
            &&& r.1.len() == before.len() - num_deletes(acts) + num_adds(acts)
        }),
    decreases acts.len(), before.len(),
{
    if acts.len() == 0 {
    } else {
        let a0 = acts[0];
        if a0.anchor() == base {
            match a0 {
                EditAction::Add(_, _) => {
                    lemma_apply_shape(before, base, acts.drop_first());
                },
                EditAction::Delete(_) => {
                    lemma_apply_shape(before.drop_first(), base, acts.drop_first());
                },
            }
        } else {
            lemma_apply_shape(before.drop_first(), base + 1, acts);
        }
    }
}

/// The edit-count identity: a script that applies cleanly holds exactly
/// `|before| + |after| - 2 * matched` actions, where `matched` is the number
/// of unedited elements it keeps (the distance the cursor travels). A diff is
/// minimal exactly when `matched` equals the longest-common-subsequence
/// length of the two sequences.
pub proof fn lemma_edit_count(before: Seq<Seq<char>>, base: int, acts: Seq<EditAction>)
    requires
        apply_spec(before, base, acts) is Some,
    ensures
        ({
            let r = apply_spec(before, base, acts)->Some_0;
            num_adds(acts) + num_deletes(acts) == before.len() + r.1.len() - 2 * (r.0 - base)
        }),
{
    lemma_apply_shape(before, base, acts);
}

/// The kept (matched) elements of a clean-applying script form a common
/// subsequence of `before` and the output, so the cursor advance — the count
/// of matched elements — never exceeds the longest-common-subsequence length.
pub proof fn lemma_matched_at_most_lcs(before: Seq<Seq<char>>, base: int, acts: Seq<EditAction>)
    requires
        apply_spec(before, base, acts) is Some,
    ensures
        ({
            let r = apply_spec(before, base, acts)->Some_0;
            r.0 - base <= lcs_len(before, r.1)
        }),
    decreases acts.len(), before.len(),
{
    let r = apply_spec(before, base, acts)->Some_0;
    if acts.len() == 0 {
        lemma_lcs_refl(before);
    } else {
        let a0 = acts[0];
        if a0.anchor() == base {
            match a0 {
                EditAction::Add(_, _) => {
                    lemma_matched_at_most_lcs(before, base, acts.drop_first());
                    let rp = apply_spec(before, base, acts.drop_first())->Some_0;
                    assert(r.1.drop_first() =~= rp.1);
                    lemma_lcs_drop_second(before, r.1);
                },
                EditAction::Delete(_) => {
                    lemma_matched_at_most_lcs(before.drop_first(), base, acts.drop_first());
                    lemma_lcs_drop_first(before, r.1);
                },
            }
        } else {
            lemma_matched_at_most_lcs(before.drop_first(), base + 1, acts);
            let rp = apply_spec(before.drop_first(), base + 1, acts)->Some_0;
            assert(r.1[0] == before[0]);
            assert(r.1.drop_first() =~= rp.1);
            // with equal first elements the LCS unfolds to one plus the LCS of
            // the tails
            assert(lcs_len(before, r.1) == 1 + lcs_len(before.drop_first(), rp.1));
        }
    }
}

/// Lower bound on the size of any script: applying `acts` cleanly to `before`
/// takes at least `|before| + |output| - 2 * lcs_len(before, output)` actions.
/// A minimal diff attains this bound, keeping one matched element per element
/// of a longest common subsequence.
pub proof fn lemma_edit_count_at_least_lcs(
    before: Seq<Seq<char>>,
    base: int,
    acts: Seq<EditAction>,
)
    requires
        apply_spec(before, base, acts) is Some,
    ensures
        ({
            let r = apply_spec(before, base, acts)->Some_0;
            num_adds(acts) + num_deletes(acts) >= before.len() + r.1.len() - 2 * lcs_len(
                before,
                r.1,
            )
        }),
{
    lemma_apply_shape(before, base, acts);
    lemma_matched_at_most_lcs(before, base, acts);
}

/// Matched elements placed ahead of a script: if `acts` applies to `b2` with
/// the cursor starting past all of `b1`, then `acts` applies to `b1 + b2`
/// from `b1.len()` earlier, matching all of `b1` first.
proof fn lemma_apply_match_prefix(
    b1: Seq<Seq<char>>,
    b2: Seq<Seq<char>>,
    base: int,
    acts: Seq<EditAction>,
)
    requires
        apply_spec(b2, base + b1.len(), acts) is Some,
    ensures
        ({
            let r2 = apply_spec(b2, base + b1.len(), acts)->Some_0;
            apply_spec(b1 + b2, base, acts) == Some((r2.0, b1 + r2.1))
        }),
    decreases b1.len(),
{
    let r2 = apply_spec(b2, base + b1.len(), acts)->Some_0;
    if b1.len() == 0 {
        assert(b1 + b2 =~= b2);
        assert(b1 + r2.1 =~= r2.1);
    } else if acts.len() == 0 {
        assert(b1 + b2 =~= b1 + r2.1);
    } else {
        lemma_apply_anchors(b2, base + b1.len(), acts);
        assert(acts[0].anchor() >= base + b1.len() > base);
        lemma_apply_match_prefix(b1.drop_first(), b2, base + 1, acts);
        assert((b1 + b2).drop_first() =~= b1.drop_first() + b2);
        assert((b1 + b2).len() > 0);
        assert((b1 + b2)[0] == b1[0]);
        assert(seq![b1[0]] + (b1.drop_first() + r2.1) =~= b1 + r2.1);
    }
}

/// Concatenation of scripts: if `front` turns `b1` into some `a1` ending at
/// cursor `mid`, and `back` turns `b2` into some `a2` starting at `mid`, then
/// `front + back` turns `b1 + b2` into `a1 + a2`.
pub proof fn lemma_apply_concat(
    b1: Seq<Seq<char>>,
    b2: Seq<Seq<char>>,
    base: int,
    front: Seq<EditAction>,
    back: Seq<EditAction>,
)
    requires
        apply_spec(b1, base, front) is Some,
        apply_spec(b2, apply_spec(b1, base, front)->Some_0.0, back) is Some,
    ensures
        ({
            let r1 = apply_spec(b1, base, front)->Some_0;
            let r2 = apply_spec(b2, r1.0, back)->Some_0;
            apply_spec(b1 + b2, base, front + back) == Some((r2.0, r1.1 + r2.1))
        }),
    decreases front.len(), b1.len(),
{
    let r1 = apply_spec(b1, base, front)->Some_0;
    let r2 = apply_spec(b2, r1.0, back)->Some_0;
    if front.len() == 0 {
        assert(r1 == (base + b1.len(), b1));
        lemma_apply_match_prefix(b1, b2, base, back);
        assert(front + back =~= back);
    } else {
        let a0 = front[0];
        assert((front + back)[0] == a0);
        assert((front + back).drop_first() =~= front.drop_first() + back);
        if a0.anchor() == base {
            match a0 {
                EditAction::Add(_, s) => {
                    lemma_apply_concat(b1, b2, base, front.drop_first(), back);
                    let rp = apply_spec(b1, base, front.drop_first())->Some_0;
                    assert(seq![s@] + (rp.1 + r2.1) =~= (seq![s@] + rp.1) + r2.1);
                },
                EditAction::Delete(_) => {
                    lemma_apply_concat(b1.drop_first(), b2, base, front.drop_first(), back);
                    assert((b1 + b2).drop_first() =~= b1.drop_first() + b2);
                },
            }
        } else {
            assert(a0.anchor() > base && b1.len() > 0);
            lemma_apply_concat(b1.drop_first(), b2, base + 1, front, back);
            let rp = apply_spec(b1.drop_first(), base + 1, front)->Some_0;
            assert((b1 + b2).drop_first() =~= b1.drop_first() + b2);
            assert((b1 + b2)[0] == b1[0]);
            assert(seq![b1[0]] + (rp.1 + r2.1) =~= (seq![b1[0]] + rp.1) + r2.1);
        }
    }
}

/// Apply an edit script to `before`, reconstructing the sequence it encodes:
/// the renderer walks `before` with a cursor equal to the running count of
/// matched elements, splicing in each action whose anchor equals the cursor.
/// Returns `None` exactly when the script does not apply cleanly — an anchor
/// behind the cursor, or a deletion or match past the end of `before`.
pub fn apply_edit_actions(before: &[&str], actions: &[EditAction]) -> (r: Option<Vec<String>>)
    ensures
        match apply_spec(lines_view(before@), 0, actions@) {
            Some(p) => r matches Some(out) && owned_lines_view(out@) == p.1,
            None => r is None,
        },
{
    let n = before.len();
    assert(n == before@.len());
    apply_from(before, 0, actions)
}

/// The renderer from an arbitrary starting cursor, mirroring `apply_spec`
/// case for case.
fn apply_from(before: &[&str], cursor: usize, actions: &[EditAction]) -> (r: Option<Vec<String>>)
    requires
        cursor + before@.len() <= usize::MAX,
    ensures
        match apply_spec(lines_view(before@), cursor as int, actions@) {
            Some(p) => r matches Some(out) && owned_lines_view(out@) == p.1,
            None => r is None,
        },
    decreases actions@.len(), before@.len(),
{
    let bn = before.len();
    if actions.len() == 0 {
        // the rest of `before` is matched unchanged
        let mut out: Vec<String> = Vec::new();
        let mut i: usize = 0;
        while i < bn
            invariant
                i <= bn,
                bn == before@.len(),
                out@.len() == i,
                forall|j: int| 0 <= j < i ==> (#[trigger] out@[j])@ == before@[j]@,
            decreases bn - i,
        {
            let line = *slice_index_get(before, i);
            out.push(line.to_string());
            i += 1;
        }
        proof {
            assert(owned_lines_view(out@) =~= lines_view(before@));
        }
        Some(out)
    } else {
        let act = slice_index_get(actions, 0);
        let idx = *act.index();
        let rest_actions = slice_subrange(actions, 1, actions.len());
        proof {
            assert(rest_actions@ =~= actions@.drop_first());
        }
        if idx == cursor {
            match act {
                EditAction::Add(_, content) => {
                    match apply_from(before, cursor, rest_actions) {
                        Some(mut rest) => {
                            let ghost rest_view = rest@;
                            let mut out: Vec<String> = Vec::new();
                            out.push(content.clone());
                            out.append(&mut rest);
                            proof {
                                assert(owned_lines_view(out@) =~= seq![content@]
                                    + owned_lines_view(rest_view));
                            }
                            Some(out)
                        },
                        None => None,
                    }
                },
                EditAction::Delete(_) => {
                    if bn > 0 {
                        let rest_before = slice_subrange(before, 1, bn);
                        proof {
                            assert(lines_view(rest_before@) =~= lines_view(
                                before@,
                            ).drop_first());
                        }
                        apply_from(rest_before, cursor, rest_actions)
                    } else {
                        None
                    }
                },
            }
        } else if idx > cursor && bn > 0 {
            // the next anchor lies ahead: the first element is matched
            let rest_before = slice_subrange(before, 1, bn);
            proof {
                assert(lines_view(rest_before@) =~= lines_view(before@).drop_first());
            }
            match apply_from(rest_before, cursor + 1, actions) {
                Some(mut rest) => {
                    let ghost rest_view = rest@;
                    let line = *slice_index_get(before, 0);
                    let mut out: Vec<String> = Vec::new();
                    out.push(line.to_string());
                    out.append(&mut rest);
                    proof {
                        assert(owned_lines_view(out@) =~= seq![lines_view(before@)[0]]
                            + owned_lines_view(rest_view));
                    }
                    Some(out)
                },
                None => None,
            }
        } else {
            None
        }
    }
}

/// A script of nothing but `Add(base, _)`, one per element of `after`, turns
/// the empty sequence into `after` without moving the cursor.
pub proof fn lemma_apply_all_adds(after: Seq<Seq<char>>, base: int, acts: Seq<EditAction>)
    requires
        acts.len() == after.len(),
        forall|i: int|
            0 <= i < acts.len() ==> (#[trigger] acts[i]) is Add && acts[i]->Add_0 == base
                && acts[i]->Add_1@ == after[i],
    ensures
        apply_spec(Seq::<Seq<char>>::empty(), base, acts) == Some((base, after)),
    decreases acts.len(),
{
    if acts.len() == 0 {
        assert(Seq::<Seq<char>>::empty() =~= after);
    } else {
        assert forall|i: int| 0 <= i < acts.drop_first().len() implies (#[trigger] acts.drop_first()[i]) is Add
            && acts.drop_first()[i]->Add_0 == base && acts.drop_first()[i]->Add_1@
            == after.drop_first()[i] by {
            assert(acts.drop_first()[i] == acts[i + 1]);
        }
        lemma_apply_all_adds(after.drop_first(), base, acts.drop_first());
        assert(acts[0].anchor() == base);
        assert(seq![acts[0]->Add_1@] + after.drop_first() =~= after);
    }
}

/// A script of nothing but `Delete(base)`, one per element of `before`, turns
/// `before` into the empty sequence without moving the cursor.
pub proof fn lemma_apply_all_deletes(before: Seq<Seq<char>>, base: int, acts: Seq<EditAction>)
    requires
        acts.len() == before.len(),
        forall|i: int|
            0 <= i < acts.len() ==> (#[trigger] acts[i]) is Delete && acts[i]->Delete_0 == base,
    ensures
        apply_spec(before, base, acts) == Some((base, Seq::<Seq<char>>::empty())),
    decreases acts.len(),
{
    if acts.len() == 0 {
        assert(apply_spec(before, base, acts) == Some((base, before)));
        assert(before =~= Seq::<Seq<char>>::empty());
    } else {
        assert forall|i: int| 0 <= i < acts.drop_first().len() implies (#[trigger] acts.drop_first()[i]) is Delete
            && acts.drop_first()[i]->Delete_0 == base by {
            assert(acts.drop_first()[i] == acts[i + 1]);
        }
        lemma_apply_all_deletes(before.drop_first(), base, acts.drop_first());
        assert(acts[0].anchor() == base);
    }
}

} // verus!
