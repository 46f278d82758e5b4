//! The diff driver: divide and conquer around the middle snake.
//!
//! [`myers_diff`] recursively splits the problem at the middle snake found by
//! [`EditGraph::find_middle_snake`], threads the output-cursor offset `base`
//! through the pieces, and concatenates the partial scripts. Its result is
//! pinned down twice over: it equals the spec-level driver [`spec_diff`]
//! exactly, and on success the script applies cleanly — under [`apply_spec`],
//! the actions turn `before` into exactly `after`, with the returned cursor
//! advanced by exactly the number of matched elements kept.

use vstd::prelude::*;
use vstd::slice::{slice_index_get, slice_subrange};
use crate::edit_action::EditAction;
use crate::edit_graph::{EditGraph, MAX_TOTAL_LEN, spec_middle_snake};
use crate::script::{
    apply_spec, lemma_apply_all_adds, lemma_apply_all_deletes, lemma_apply_concat, lines_view,
};

verus! {

broadcast use vstd::string::group_string_axioms;

/// An edit action at the level of views: the anchor position and, for an
/// insertion, the inserted character sequence.
pub enum ActionModel {
    Add(int, Seq<char>),
    Delete(int),
}

/// The view of one action.
pub open spec fn action_view(a: EditAction) -> ActionModel {
    match a {
        EditAction::Add(i, s) => ActionModel::Add(i as int, s@),
        EditAction::Delete(i) => ActionModel::Delete(i as int),
    }
}

/// The views of a whole script.
pub open spec fn actions_view(s: Seq<EditAction>) -> Seq<ActionModel> {
    Seq::new(s.len(), |i: int| action_view(s[i]))
}

/// The diff driver as a function of the two sequences: one `Add(base, _)` per
/// element when `a` is empty, one `Delete(base)` per element when `b` is
/// empty, and otherwise the split at [`spec_middle_snake`], recursing on the
/// pieces around the snake with the cursor advanced by the snake's length.
/// `None` records a failed or non-shrinking snake search — which the
/// algorithm's termination argument (not formalized here) rules out — and
/// `myers_diff` returns `Err` exactly then.
pub open spec fn spec_diff(base: int, a: Seq<Seq<char>>, b: Seq<Seq<char>>) -> Option<
    (int, Seq<ActionModel>),
>
    decreases a.len() + b.len(),
{
    if a.len() == 0 {
        Some((base, Seq::new(b.len(), |i: int| ActionModel::Add(base, b[i]))))
    } else if b.len() == 0 {
        Some((base, Seq::new(a.len(), |i: int| ActionModel::Delete(base))))
    } else {
        match spec_middle_snake(a, b) {
            None => None,
            Some(ms) => {
                let x1 = ms.x.0 as int;
                let x2 = ms.x.1 as int;
                let y1 = ms.y.0 as int;
                let y2 = ms.y.1 as int;
                if !(x1 <= x2 <= a.len() && y1 <= y2 <= b.len()) {
                    None
                } else if x1 == a.len() && y1 == b.len() {
                    None
                } else if x2 == 0 && y2 == 0 {
                    None
                } else {
                    match spec_diff(base, a.subrange(0, x1), b.subrange(0, y1)) {
                        None => None,
                        Some(front) => {
                            let mid = front.0 + (x2 - x1);
                            match spec_diff(
                                mid,
                                a.subrange(x2, a.len() as int),
                                b.subrange(y2, b.len() as int),
                            ) {
                                None => None,
                                Some(back) => Some((back.0, front.1 + back.1)),
                            }
                        },
                    }
                }
            },
        }
    }
}

/// Identical sequences produce the empty script: the driver model on `a`
/// against itself succeeds, emits no action, and advances the cursor by the
/// full matched length. Together with `myers_diff`'s contract this forces
/// `Ok`, a zero-length action list and a cursor advance of `|a|` whenever the
/// two inputs are equal.
pub proof fn lemma_diff_identical(base: int, a: Seq<Seq<char>>)
    requires
        a.len() <= MAX_TOTAL_LEN,
    ensures
        spec_diff(base, a, a) == Some((base + a.len(), Seq::<ActionModel>::empty())),
{
    if a.len() == 0 {
        assert(Seq::new(a.len(), |i: int| ActionModel::Add(base, a[i]))
            =~= Seq::<ActionModel>::empty());
    } else {
        crate::edit_graph::lemma_middle_snake_identical(a);
        let n = a.len() as int;
        let front = spec_diff(base, a.subrange(0, 0), a.subrange(0, 0));
        assert(a.subrange(0, 0).len() == 0);
        assert(front is Some && front->Some_0.0 == base && front->Some_0.1.len() == 0);
        let back = spec_diff(base + n, a.subrange(n, n), a.subrange(n, n));
        assert(a.subrange(n, n).len() == 0);
        assert(back is Some && back->Some_0.0 == base + n && back->Some_0.1.len() == 0);
        assert(front->Some_0.1 + back->Some_0.1 =~= Seq::<ActionModel>::empty());
    }
}

/// Fully disjoint single-element sequences produce exactly one insertion and
/// one deletion, both anchored at the starting cursor, in that order, with no
/// cursor advance. Together with `myers_diff`'s contract this forces
/// `Ok((base, [Add(base, b[0]), Delete(base)]))` on such inputs.
pub proof fn lemma_diff_disjoint_singles(base: int, a: Seq<Seq<char>>, b: Seq<Seq<char>>)
    requires
        a.len() == 1,
        b.len() == 1,
        a[0] != b[0],
    ensures
        spec_diff(base, a, b) == Some(
            (base, seq![ActionModel::Add(base, b[0]), ActionModel::Delete(base)]),
        ),
{
    crate::edit_graph::lemma_middle_snake_disjoint_singles(a, b);
    // the snake is empty at (0, 1): the front sub-problem inserts b[0], the
    // back sub-problem deletes a[0]
    assert(a.subrange(0, 0).len() == 0);
    assert(b.subrange(1, 1).len() == 0);
    assert(a.subrange(0, 1) =~= a);
    assert(b.subrange(0, 1) =~= b);
    let front = spec_diff(base, a.subrange(0, 0), b.subrange(0, 1));
    assert(front is Some && front->Some_0.0 == base);
    assert(front->Some_0.1 =~= seq![ActionModel::Add(base, b[0])]);
    let back = spec_diff(base, a.subrange(0, 1), b.subrange(1, 1));
    assert(back is Some && back->Some_0.0 == base);
    assert(back->Some_0.1 =~= seq![ActionModel::Delete(base)]);
    assert(front->Some_0.1 + back->Some_0.1 =~= seq![
        ActionModel::Add(base, b[0]),
        ActionModel::Delete(base),
    ]);
}

/// Stitching the driver's pieces: a script for the prefix up to the snake, the
/// matched snake itself, and a script for the suffix after it compose to a
/// script for the whole pair.
proof fn lemma_stitch(
    bv: Seq<Seq<char>>,
    av: Seq<Seq<char>>,
    base: int,
    front_base: int,
    mid_base: int,
    final_base: int,
    x1: int,
    x2: int,
    y1: int,
    y2: int,
    front_actions: Seq<EditAction>,
    back_acts: Seq<EditAction>,
    all_acts: Seq<EditAction>,
)
    requires
        0 <= x1 <= x2 <= bv.len(),
        0 <= y1 <= y2 <= av.len(),
        x2 - x1 == y2 - y1,
        forall|i: int| 0 <= i < x2 - x1 ==> #[trigger] bv[x1 + i] == av[y1 + i],
        apply_spec(bv.subrange(0, x1), base, front_actions) == Some(
            (front_base, av.subrange(0, y1)),
        ),
        apply_spec(bv.subrange(x2, bv.len() as int), mid_base, back_acts) == Some(
            (final_base, av.subrange(y2, av.len() as int)),
        ),
        mid_base == front_base + (x2 - x1),
        all_acts == front_actions + back_acts,
    ensures
        apply_spec(bv, base, all_acts) == Some((final_base, av)),
{
    let n = bv.len() as int;
    let m = av.len() as int;

    // the snake matches element for element
    assert forall|i: int| 0 <= i < x2 - x1 implies bv.subrange(x1, x2)[i] == av.subrange(
        y1,
        y2,
    )[i] by {
        assert(bv[x1 + i] == av[y1 + i]);
    }
    assert(bv.subrange(x1, x2) =~= av.subrange(y1, y2));

    // stitch: front ++ (empty script over the snake)
    assert(apply_spec(bv.subrange(x1, x2), front_base, Seq::<EditAction>::empty()) == Some(
        (mid_base, bv.subrange(x1, x2)),
    ));
    lemma_apply_concat(
        bv.subrange(0, x1),
        bv.subrange(x1, x2),
        base,
        front_actions,
        Seq::<EditAction>::empty(),
    );
    assert(bv.subrange(0, x1) + bv.subrange(x1, x2) =~= bv.subrange(0, x2));
    assert(front_actions + Seq::<EditAction>::empty() =~= front_actions);
    assert(av.subrange(0, y1) + av.subrange(y1, y2) =~= av.subrange(0, y2));

    // stitch: (front over the prefix and snake) ++ back
    lemma_apply_concat(bv.subrange(0, x2), bv.subrange(x2, n), base, front_actions, back_acts);
    assert(bv.subrange(0, x2) + bv.subrange(x2, n) =~= bv);
    assert(av.subrange(0, y2) + av.subrange(y2, m) =~= av);
}

/// The edit script from `before` to `after`, with action anchors offset by
/// `base` output-cursor units, and the cursor position after the whole
/// script: `base` plus the number of matched elements kept. The result is
/// pinned to [`spec_diff`]: anchors, contents and order are a function of the
/// inputs alone.
///
/// On success the script applies cleanly: under the semantics of
/// [`apply_spec`], scanning `before` from cursor `base` while consuming the
/// actions in order yields exactly `after`. An empty `before` yields one
/// `Add(base, _)` per element of `after`; an empty `after` yields one
/// `Delete(base)` per element of `before` (each deletion shifts the remaining
/// elements onto the same cursor position). An `Err` reports that the middle
/// snake search failed to make progress — an internal-invariant violation the
/// algorithm's correctness argument rules out, never a fault of the input.
#[verifier::rlimit(100)]
pub fn myers_diff<'a>(base: usize, before: &[&'a str], after: &[&'a str]) -> (r: Result<
    (usize, Vec<EditAction>),
    String,
>)
    requires
        before@.len() + after@.len() <= MAX_TOTAL_LEN,
        base + before@.len() <= usize::MAX,
    ensures
        match r {
            Ok(p) => {
                &&& apply_spec(lines_view(before@), base as int, p.1@) == Some(
                    (p.0 as int, lines_view(after@)),
                )
                &&& base <= p.0 <= base + before@.len()
            },
            Err(_) => true,
        },
        before@.len() == 0 || after@.len() == 0 ==> r is Ok,
        before@.len() == 0 ==> (r matches Ok(p) && p.0 == base && p.1@.len() == after@.len()
            && forall|i: int|
            0 <= i < p.1@.len() ==> (#[trigger] p.1@[i]) is Add && p.1@[i]->Add_0 == base
                && p.1@[i]->Add_1@ == after@[i]@),
        after@.len() == 0 ==> (r matches Ok(p) && p.0 == base && p.1@.len() == before@.len()
            && forall|i: int|
            0 <= i < p.1@.len() ==> (#[trigger] p.1@[i]) is Delete && p.1@[i]->Delete_0 == base),
        ({
            let model = spec_diff(base as int, lines_view(before@), lines_view(after@));
            &&& (model is Some <==> r is Ok)
            &&& (model matches Some(p) ==> r matches Ok(q) && q.0 == p.0 && actions_view(q.1@)
                == p.1)
        }),
    decreases before@.len() + after@.len(),
{
    let n = before.len();
    let m = after.len();

    if n == 0 {
        let mut actions: Vec<EditAction> = Vec::new();
        let mut j: usize = 0;
        while j < m
            invariant
                j <= m,
                m == after@.len(),
                actions@.len() == j,
                forall|i: int|
                    0 <= i < j ==> (#[trigger] actions@[i]) is Add && actions@[i]->Add_0 == base
                        && actions@[i]->Add_1@ == after@[i]@,
            decreases m - j,
        {
            let line = *slice_index_get(after, j);
            actions.push(EditAction::Add(base, line.to_string()));
            j += 1;
        }
        proof {
            lemma_apply_all_adds(lines_view(after@), base as int, actions@);
            assert(lines_view(before@) =~= Seq::<Seq<char>>::empty());
            assert(actions_view(actions@) =~= Seq::new(
                lines_view(after@).len(),
                |i: int| ActionModel::Add(base as int, lines_view(after@)[i]),
            ));
        }
        return Ok((base, actions));
    }

    if m == 0 {
        let mut actions: Vec<EditAction> = Vec::new();
        let mut j: usize = 0;
        while j < n
            invariant
                j <= n,
                n == before@.len(),
                actions@.len() == j,
                forall|i: int|
                    0 <= i < j ==> (#[trigger] actions@[i]) is Delete && actions@[i]->Delete_0
                        == base,
            decreases n - j,
        {
            actions.push(EditAction::Delete(base));
            j += 1;
        }
        proof {
            lemma_apply_all_deletes(lines_view(before@), base as int, actions@);
            assert(lines_view(after@) =~= Seq::<Seq<char>>::empty());
            assert(actions_view(actions@) =~= Seq::new(
                lines_view(before@).len(),
                |i: int| ActionModel::Delete(base as int),
            ));
        }
        return Ok((base, actions));
    }

    let ghost bv = lines_view(before@);
    let ghost av = lines_view(after@);

    let mut edit_graph = EditGraph::new(before, after);
    proof {
        let size = (2 * (if bv.len() >= av.len() {
            bv.len() as int
        } else {
            av.len() as int
        }) + 1) as nat;
        assert(edit_graph.forward_view() =~= Seq::new(size, |i: int| 0usize));
        assert(edit_graph.backward_view() =~= Seq::new(size, |i: int| bv.len() as usize));
    }
    let snake_result = edit_graph.find_middle_snake();
    proof {
        assert(snake_result == spec_middle_snake(bv, av));
    }
    let middle_snake = match snake_result {
        Some(ms) => ms,
        None => {
            return Err("middle snake search failed".to_string());
        },
    };
    let (x1, x2) = middle_snake.x;
    let (y1, y2) = middle_snake.y;

    // a snake that leaves a sub-problem as large as the whole problem would
    // not shrink the recursion; the termination argument rules this out
    if x1 == n && y1 == m {
        return Err("middle snake search failed".to_string());
    }
    if x2 == 0 && y2 == 0 {
        return Err("middle snake search failed".to_string());
    }

    let before_front = slice_subrange(before, 0, x1);
    let after_front = slice_subrange(after, 0, y1);
    proof {
        assert(lines_view(before_front@) =~= bv.subrange(0, x1 as int));
        assert(lines_view(after_front@) =~= av.subrange(0, y1 as int));
    }
    let (front_base, mut actions) = match myers_diff(base, before_front, after_front) {
        Ok(p) => p,
        Err(e) => {
            return Err(e);
        },
    };
    let ghost front_actions = actions@;

    // the snake itself produces no action, only cursor movement
    let mid_base = front_base + (x2 - x1);

    let before_back = slice_subrange(before, x2, n);
    let after_back = slice_subrange(after, y2, m);
    proof {
        assert(lines_view(before_back@) =~= bv.subrange(x2 as int, n as int));
        assert(lines_view(after_back@) =~= av.subrange(y2 as int, m as int));
    }
    let (final_base, mut back_actions) = match myers_diff(mid_base, before_back, after_back) {
        Ok(p) => p,
        Err(e) => {
            return Err(e);
        },
    };
    let ghost back_acts = back_actions@;
    actions.append(&mut back_actions);

    proof {
        lemma_stitch(
            bv,
            av,
            base as int,
            front_base as int,
            mid_base as int,
            final_base as int,
            x1 as int,
            x2 as int,
            y1 as int,
            y2 as int,
            front_actions,
            back_acts,
            actions@,
        );

        // the concatenated script is the model's script
        assert(actions_view(actions@) =~= actions_view(front_actions) + actions_view(back_acts));
        let fm = spec_diff(base as int, bv.subrange(0, x1 as int), av.subrange(0, y1 as int));
        let bm = spec_diff(
            mid_base as int,
            bv.subrange(x2 as int, n as int),
            av.subrange(y2 as int, m as int),
        );
        assert(spec_diff(base as int, bv, av) == Some(
            (final_base as int, fm->Some_0.1 + bm->Some_0.1),
        ));
    }

    Ok((final_base, actions))
}

} // verus!
