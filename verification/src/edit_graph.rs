//! The middle-snake search over the implicit edit graph of two sequences.
//!
//! [`EditGraph::find_middle_snake`] expands a forward frontier from the
//! top-left corner and a backward frontier from the bottom-right corner of
//! the edit graph, one edit-distance round at a time, until the two overlap.
//! It returns a [`MiddleSnake`]: a run of matching elements that the Myers
//! algorithm guarantees to lie on some shortest edit path. What is verified
//! here: the search returns exactly what the spec-level model [`spec_search`]
//! computes — each greedy step equals [`spec_update_forward`] or
//! [`spec_update_backward`] — every returned snake is a genuine snake (in
//! bounds, of equal length on both sides, matching element for element), and
//! the search never reads out of range and never overflows. That the snake
//! lies on a shortest edit path, and that the search cannot return `None`,
//! are the algorithm's optimality and termination theorems, which this module
//! states operationally through the model but does not formalize.

use vstd::prelude::*;
use crate::script::lines_view;

verus! {

/// Bound on the combined length of the two sequences, so that diagonal-index
/// arithmetic stays inside `usize` and `isize`.
pub const MAX_TOTAL_LEN: usize = usize::MAX / 8;

/// A run of matching elements along one diagonal of the edit graph: the
/// half-open x-range `[x.0, x.1)` of the first sequence matches the half-open
/// y-range `[y.0, y.1)` of the second, with `x.1 - x.0 == y.1 - y.0` and
/// `y = x - k` for the snake's diagonal `k`.
#[derive(PartialEq, Clone, Copy, Debug)]
pub struct MiddleSnake {
    pub x: (usize, usize),
    pub y: (usize, usize),
}

/// `ms` is a genuine snake of the sequences `a` and `b`: both ranges are in
/// bounds, equally long, and match element for element.
pub open spec fn valid_snake(a: Seq<Seq<char>>, b: Seq<Seq<char>>, ms: MiddleSnake) -> bool {
    &&& ms.x.0 <= ms.x.1 <= a.len()
    &&& ms.y.0 <= ms.y.1 <= b.len()
    &&& ms.x.1 - ms.x.0 == ms.y.1 - ms.y.0
    &&& forall|i: int|
        0 <= i < ms.x.1 - ms.x.0 ==> #[trigger] a[ms.x.0 + i] == b[ms.y.0 + i]
}

/// The largest edit-distance guess the search tries: `ceil((|a| + |b|) / 2)`.
pub open spec fn graph_max_d(a: Seq<Seq<char>>, b: Seq<Seq<char>>) -> int {
    ((a.len() + b.len() + 1) / 2) as int
}

/// The length difference `|a| - |b|`: the diagonal on which the backward
/// search is centered.
pub open spec fn graph_delta(a: Seq<Seq<char>>, b: Seq<Seq<char>>) -> int {
    a.len() - b.len()
}

/// Array index of diagonal `k` of the forward search.
pub open spec fn fwd_idx(a: Seq<Seq<char>>, b: Seq<Seq<char>>, k: int) -> int {
    if graph_delta(a, b) < 0 {
        graph_max_d(a, b) - graph_delta(a, b) + k
    } else {
        graph_max_d(a, b) + k
    }
}

/// Array index of diagonal `k` of the backward search.
pub open spec fn bwd_idx(a: Seq<Seq<char>>, b: Seq<Seq<char>>, k: int) -> int {
    if graph_delta(a, b) < 0 {
        graph_max_d(a, b) + k
    } else {
        graph_max_d(a, b) + graph_delta(a, b) + k
    }
}

/// Where the greedy forward snake starting at `(x, x - k)` on diagonal `k`
/// ends: the first x at which the elements stop matching or a sequence runs
/// out.
pub open spec fn snake_end_fwd(a: Seq<Seq<char>>, b: Seq<Seq<char>>, x: int, k: int) -> int
    decreases a.len() - x,
{
    if 0 <= x && x < a.len() && 0 <= x - k && x - k < b.len() && a[x] == b[x - k] {
        snake_end_fwd(a, b, x + 1, k)
    } else {
        x
    }
}

/// Where the greedy backward snake ending at `(x, x - diag)` on diagonal
/// `diag` starts: the last x at which the elements before it stop matching or
/// a coordinate reaches zero.
pub open spec fn snake_start_bwd(a: Seq<Seq<char>>, b: Seq<Seq<char>>, x: int, diag: int) -> int
    decreases x,
{
    if 0 < x && x <= a.len() && 0 < x - diag && x - diag <= b.len() && a[x - 1] == b[x - 1 - diag] {
        snake_start_bwd(a, b, x - 1, diag)
    } else {
        x
    }
}

/// One forward step of the search, as a function of the forward-reach array:
/// the new array and the new candidate snake. Mirrors
/// `EditGraph::update_forward_diagonal` exactly, guard for guard.
pub open spec fn spec_update_forward(
    a: Seq<Seq<char>>,
    b: Seq<Seq<char>>,
    fwd: Seq<usize>,
    k: int,
    d: int,
    ms: MiddleSnake,
) -> (Seq<usize>, MiddleSnake) {
    let n = a.len() as int;
    let m = b.len() as int;
    let idx = fwd_idx(a, b, k);
    let len = fwd.len() as int;
    let lx_opt: Option<int> = if k == -d {
        if idx + 1 >= len {
            None
        } else {
            Some(fwd[idx + 1] as int)
        }
    } else if k != d {
        if idx < 1 || idx + 1 >= len {
            None
        } else {
            let left = fwd[idx - 1] as int;
            let right = fwd[idx + 1] as int;
            Some(
                if right > left {
                    right
                } else {
                    left + 1
                },
            )
        }
    } else {
        if idx < 1 || idx >= len {
            None
        } else {
            Some(fwd[idx - 1] as int + 1)
        }
    };
    match lx_opt {
        None => (fwd, ms),
        Some(lx) => {
            if lx > n || lx < k || lx - k > m {
                (fwd, ms)
            } else {
                let rx = snake_end_fwd(a, b, lx, k);
                let nf = fwd.update(idx, rx as usize);
                let r = if rx - lx >= ms.x.1 - ms.x.0 {
                    MiddleSnake {
                        x: (lx as usize, rx as usize),
                        y: ((lx - k) as usize, (rx - k) as usize),
                    }
                } else {
                    ms
                };
                (nf, r)
            }
        },
    }
}

/// One backward step of the search, as a function of the backward-reach
/// array. Mirrors `EditGraph::update_backward_diagonal` exactly.
pub open spec fn spec_update_backward(
    a: Seq<Seq<char>>,
    b: Seq<Seq<char>>,
    bwd: Seq<usize>,
    k: int,
    d: int,
    ms: MiddleSnake,
) -> (Seq<usize>, MiddleSnake) {
    let m = b.len() as int;
    let delta = graph_delta(a, b);
    let idx = bwd_idx(a, b, k);
    let len = bwd.len() as int;
    let rx_opt: Option<int> = if k == d {
        if idx < 1 || idx >= len {
            None
        } else {
            Some(bwd[idx - 1] as int)
        }
    } else if k != -d {
        if idx < 1 || idx + 1 >= len {
            None
        } else {
            let left = bwd[idx - 1] as int;
            let right = bwd[idx + 1] as int;
            Some(
                if left < right {
                    left
                } else {
                    right - 1
                },
            )
        }
    } else {
        if idx + 1 >= len {
            None
        } else {
            Some(bwd[idx + 1] as int - 1)
        }
    };
    match rx_opt {
        None => (bwd, ms),
        Some(rx) => {
            let diag = k + delta;
            if rx < 0 || rx - diag < 0 || rx - diag > m {
                (bwd, ms)
            } else {
                let lx = snake_start_bwd(a, b, rx, diag);
                let nb = bwd.update(idx, lx as usize);
                let r = if rx - lx >= ms.x.1 - ms.x.0 {
                    MiddleSnake {
                        x: (lx as usize, rx as usize),
                        y: ((lx - diag) as usize, (rx - diag) as usize),
                    }
                } else {
                    ms
                };
                (nb, r)
            }
        },
    }
}

/// The forward phase of one round: forward steps on diagonals `k, k+2, ..`,
/// up to `d`, with the odd-length-difference termination check after each.
/// Returns the arrays and candidate as left behind, and `Some(snake)` when
/// the check fired.
pub open spec fn spec_forward_phase(
    a: Seq<Seq<char>>,
    b: Seq<Seq<char>>,
    fwd: Seq<usize>,
    bwd: Seq<usize>,
    ms: MiddleSnake,
    d: int,
    k: int,
) -> (Seq<usize>, MiddleSnake, Option<MiddleSnake>)
    decreases d + 2 - k,
{
    if k > d {
        (fwd, ms, None)
    } else {
        let step = spec_update_forward(a, b, fwd, k, d, ms);
        let idx = fwd_idx(a, b, k);
        let delta = graph_delta(a, b);
        let ad = if delta < 0 {
            -delta
        } else {
            delta
        };
        if 0 <= idx && idx < step.0.len() && ad % 2 == 1 && delta - (d - 1) <= k && k <= delta + (d
            - 1) && bwd[idx] <= step.0[idx] {
            (step.0, step.1, Some(step.1))
        } else {
            spec_forward_phase(a, b, step.0, bwd, step.1, d, k + 2)
        }
    }
}

/// The backward phase of one round, with the even-length-difference
/// termination check after each step.
pub open spec fn spec_backward_phase(
    a: Seq<Seq<char>>,
    b: Seq<Seq<char>>,
    fwd: Seq<usize>,
    bwd: Seq<usize>,
    ms: MiddleSnake,
    d: int,
    k: int,
) -> (Seq<usize>, MiddleSnake, Option<MiddleSnake>)
    decreases d + 2 - k,
{
    if k > d {
        (bwd, ms, None)
    } else {
        let step = spec_update_backward(a, b, bwd, k, d, ms);
        let idx = bwd_idx(a, b, k);
        let delta = graph_delta(a, b);
        let ad = if delta < 0 {
            -delta
        } else {
            delta
        };
        if 0 <= idx && idx < fwd.len() && ad % 2 == 0 && -d <= delta + k && delta + k <= d
            && step.0[idx] <= fwd[idx] {
            (step.0, step.1, Some(step.1))
        } else {
            spec_backward_phase(a, b, fwd, step.0, step.1, d, k + 2)
        }
    }
}

/// The whole middle-snake search from round `d` on, as a function of the two
/// sequences and the reach arrays: `Some(snake)` when a termination check
/// fires within `max_d` rounds, `None` otherwise. `EditGraph::find_middle_snake`
/// returns exactly this.
pub open spec fn spec_search(
    a: Seq<Seq<char>>,
    b: Seq<Seq<char>>,
    fwd: Seq<usize>,
    bwd: Seq<usize>,
    ms: MiddleSnake,
    d: int,
) -> Option<MiddleSnake>
    decreases graph_max_d(a, b) + 1 - d,
{
    if d > graph_max_d(a, b) {
        None
    } else {
        let ph1 = spec_forward_phase(a, b, fwd, bwd, ms, d, -d);
        if ph1.2 is Some {
            ph1.2
        } else {
            let ph2 = spec_backward_phase(a, b, ph1.0, bwd, ph1.1, d, -d);
            if ph2.2 is Some {
                ph2.2
            } else {
                spec_search(a, b, ph1.0, ph2.0, ph2.1, d + 1)
            }
        }
    }
}

/// The middle snake of `a` and `b`: the search run from fresh reach arrays
/// (forward reaches 0, backward reaches `|a|`), rounds 0 through `max_d`.
pub open spec fn spec_middle_snake(a: Seq<Seq<char>>, b: Seq<Seq<char>>) -> Option<MiddleSnake> {
    let size = (2 * (if a.len() >= b.len() {
        a.len() as int
    } else {
        b.len() as int
    }) + 1) as nat;
    spec_search(
        a,
        b,
        Seq::new(size, |i: int| 0usize),
        Seq::new(size, |i: int| a.len() as usize),
        MiddleSnake { x: (0, 0), y: (0, 0) },
        0,
    )
}

impl MiddleSnake {
    /// The snake on diagonal `diagonal` covering the x-range `[x1, x2)`; the
    /// y-range follows from `y = x - diagonal`.
    pub fn from_edit_graph(diagonal: isize, x1: usize, x2: usize) -> (r: MiddleSnake)
        requires
            x1 <= x2,
            diagonal <= x1 as int,
            x2 as int <= MAX_TOTAL_LEN,
            x2 as int - diagonal as int <= MAX_TOTAL_LEN,
        ensures
            r.x.0 == x1,
            r.x.1 == x2,
            r.y.0 == x1 as int - diagonal as int,
            r.y.1 == x2 as int - diagonal as int,
    {
        let y1 = x1 as isize - diagonal;
        let y2 = x2 as isize - diagonal;
        MiddleSnake { x: (x1, x2), y: (y1 as usize, y2 as usize) }
    }
}

impl Default for MiddleSnake {
    /// The empty snake at the origin.
    fn default() -> (r: MiddleSnake)
        ensures
            r == (MiddleSnake { x: (0, 0), y: (0, 0) }),
    {
        MiddleSnake { x: (0, 0), y: (0, 0) }
    }
}

/// Relies on `str`'s `PartialEq`: two string slices are equal exactly when
/// their byte — hence character — sequences are equal.
#[verifier::external_body]
fn str_eq(a: &str, b: &str) -> (r: bool)
    ensures
        r == (a@ == b@),
{
    a == b
}

/// A `Vec` of `len` copies of `value`.
fn filled_vec(len: usize, value: usize) -> (r: Vec<usize>)
    ensures
        r@.len() == len,
        forall|i: int| 0 <= i < len ==> r@[i] == value,
{
    let mut v: Vec<usize> = Vec::new();
    let mut i: usize = 0;
    while i < len
        invariant
            i <= len,
            v@.len() == i,
            forall|j: int| 0 <= j < i ==> v@[j] == value,
        decreases len - i,
    {
        v.push(value);
        i += 1;
    }
    v
}

/// On equal sequences the greedy forward snake from any x on diagonal 0 runs
/// to the end.
pub proof fn lemma_snake_end_refl(a: Seq<Seq<char>>, x: int)
    requires
        0 <= x <= a.len(),
    ensures
        snake_end_fwd(a, a, x, 0) == a.len(),
    decreases a.len() - x,
{
    if x < a.len() {
        lemma_snake_end_refl(a, x + 1);
    }
}

/// On equal sequences the greedy backward snake from any x on diagonal 0 runs
/// back to the start.
pub proof fn lemma_snake_start_refl(a: Seq<Seq<char>>, x: int)
    requires
        0 <= x <= a.len(),
    ensures
        snake_start_bwd(a, a, x, 0) == 0,
    decreases x,
{
    if x > 0 {
        lemma_snake_start_refl(a, x - 1);
    }
}

/// On a pair of equal nonempty sequences the search succeeds in round 0 and
/// returns the full-length snake.
pub proof fn lemma_middle_snake_identical(a: Seq<Seq<char>>)
    requires
        1 <= a.len() <= MAX_TOTAL_LEN,
    ensures
        spec_middle_snake(a, a) == Some(
            (MiddleSnake {
                x: (0, a.len() as usize),
                y: (0, a.len() as usize),
            }),
        ),
{
    let n = a.len() as int;
    let size = (2 * n + 1) as nat;
    let fwd0 = Seq::new(size, |i: int| 0usize);
    let bwd0 = Seq::new(size, |i: int| a.len() as usize);
    let ms0 = MiddleSnake { x: (0, 0), y: (0, 0) };
    let full = MiddleSnake { x: (0, a.len() as usize), y: (0, a.len() as usize) };

    lemma_snake_end_refl(a, 0);
    lemma_snake_start_refl(a, n);

    // round 0, forward: diagonal 0 starts at 0 and runs to n; no odd check
    let step1 = spec_update_forward(a, a, fwd0, 0, 0, ms0);
    assert(graph_delta(a, a) == 0);
    assert(graph_max_d(a, a) == n);
    assert(fwd_idx(a, a, 0) == n);
    assert(step1.0 == fwd0.update(n, a.len() as usize) && step1.1 == full);
    assert(spec_forward_phase(a, a, fwd0, bwd0, ms0, 0, 0) == (step1.0, full, None::<MiddleSnake>))
        by {
        assert(spec_forward_phase(a, a, step1.0, bwd0, full, 0, 2) == (
            step1.0,
            full,
            None::<MiddleSnake>,
        ));
    }

    // round 0, backward: diagonal 0 retreats from n to 0, and the even check
    // fires: the backward reach 0 has met the forward reach n
    let step2 = spec_update_backward(a, a, bwd0, 0, 0, full);
    assert(bwd_idx(a, a, 0) == n);
    assert(step2.0 == bwd0.update(n, 0usize) && step2.1 == full);
    assert(step2.0[n] as int <= step1.0[n] as int);
    assert(spec_backward_phase(a, a, step1.0, bwd0, full, 0, 0) == (step2.0, full, Some(full)));

    assert(spec_search(a, a, fwd0, bwd0, ms0, 0) == Some(full));
    assert(spec_middle_snake(a, a) == Some(full));
}

/// On two single-element sequences whose elements differ, the search runs two
/// rounds and returns the empty snake at the far corner of the first element:
/// x-range `[0, 0)`, y-range `[1, 1)` on diagonal -1.
pub proof fn lemma_middle_snake_disjoint_singles(a: Seq<Seq<char>>, b: Seq<Seq<char>>)
    requires
        a.len() == 1,
        b.len() == 1,
        a[0] != b[0],
    ensures
        spec_middle_snake(a, b) == Some((MiddleSnake { x: (0, 0), y: (1, 1) })),
{
    let size = 3nat;
    let fwd0 = Seq::new(size, |i: int| 0usize);
    let bwd0 = Seq::new(size, |i: int| a.len() as usize);
    let ms0 = MiddleSnake { x: (0, 0), y: (0, 0) };

    assert(graph_max_d(a, b) == 1);
    assert(graph_delta(a, b) == 0);
    assert(fwd_idx(a, b, 0) == 1 && fwd_idx(a, b, -1) == 0 && fwd_idx(a, b, 1) == 2);
    assert(bwd_idx(a, b, 0) == 1 && bwd_idx(a, b, -1) == 0 && bwd_idx(a, b, 1) == 2);

    // round 0, forward, k = 0: the snake from (0, 0) stops at once
    assert(snake_end_fwd(a, b, 0, 0) == 0);
    let f1 = fwd0.update(1, 0usize);
    assert(spec_update_forward(a, b, fwd0, 0, 0, ms0) == (f1, ms0));
    assert(spec_forward_phase(a, b, fwd0, bwd0, ms0, 0, 0) == (f1, ms0, None::<MiddleSnake>))
        by {
        assert(spec_update_forward(a, b, fwd0, 0, 0, ms0) == (f1, ms0));
        assert(spec_forward_phase(a, b, f1, bwd0, ms0, 0, 2) == (f1, ms0, None::<MiddleSnake>));
    }

    // round 0, backward, k = 0: the snake back from (1, 1) stops at once, and
    // the frontiers have not met (backward reach 1, forward reach 0)
    assert(snake_start_bwd(a, b, 1, 0) == 1);
    let b1 = bwd0.update(1, 1usize);
    let msb = MiddleSnake { x: (1, 1), y: (1, 1) };
    assert(spec_update_backward(a, b, bwd0, 0, 0, ms0) == (b1, msb));
    assert(spec_backward_phase(a, b, f1, bwd0, ms0, 0, 0) == (b1, msb, None::<MiddleSnake>))
        by {
        assert(spec_update_backward(a, b, bwd0, 0, 0, ms0) == (b1, msb));
        assert(!(b1[1] <= f1[1]));
        assert(spec_backward_phase(a, b, f1, b1, msb, 0, 2) == (b1, msb, None::<MiddleSnake>));
    }

    // round 1, forward, k = -1 then k = 1: reaches (0, 1) and (1, 0)
    assert(snake_end_fwd(a, b, 0, -1) == 0);
    let f2 = f1.update(0, 0usize);
    let ms_c = MiddleSnake { x: (0, 0), y: (1, 1) };
    assert(spec_update_forward(a, b, f1, -1, 1, msb) == (f2, ms_c));
    assert(snake_end_fwd(a, b, 1, 1) == 1);
    let f3 = f2.update(2, 1usize);
    let ms_d = MiddleSnake { x: (1, 1), y: (0, 0) };
    assert(spec_update_forward(a, b, f2, 1, 1, ms_c) == (f3, ms_d));
    assert(spec_forward_phase(a, b, f1, b1, msb, 1, -1) == (f3, ms_d, None::<MiddleSnake>)) by {
        assert(spec_update_forward(a, b, f1, -1, 1, msb) == (f2, ms_c));
        assert(spec_update_forward(a, b, f2, 1, 1, ms_c) == (f3, ms_d));
        assert(spec_forward_phase(a, b, f3, b1, ms_d, 1, 3) == (f3, ms_d, None::<MiddleSnake>));
        assert(spec_forward_phase(a, b, f2, b1, ms_c, 1, 1) == (f3, ms_d, None::<MiddleSnake>));
    }

    // round 1, backward, k = -1: the backward reach 0 meets the forward reach
    // 0 on the same array slot, and the search returns the candidate
    assert(snake_start_bwd(a, b, 0, -1) == 0);
    let b2 = b1.update(0, 0usize);
    let ms_e = MiddleSnake { x: (0, 0), y: (1, 1) };
    assert(spec_update_backward(a, b, b1, -1, 1, ms_d) == (b2, ms_e));
    assert(spec_backward_phase(a, b, f3, b1, ms_d, 1, -1) == (b2, ms_e, Some(ms_e))) by {
        assert(spec_update_backward(a, b, b1, -1, 1, ms_d) == (b2, ms_e));
        assert(b2[0] <= f3[0]);
    }

    assert(spec_search(a, b, f1, b1, msb, 1) == Some(ms_e));
    assert(spec_search(a, b, fwd0, bwd0, ms0, 0) == Some(ms_e));
    assert(spec_middle_snake(a, b) == Some(ms_e));
}

/// State of one middle-snake search: the two sequences compared and the
/// forward- and backward-reach arrays, indexed by a remapped diagonal
/// coordinate. For diagonal `k = x - y`, the forward entry holds the furthest
/// x reached by a greedy forward path on that diagonal so far; the backward
/// entry holds the furthest-back x reached by a greedy backward path.
#[derive(Debug)]
pub struct EditGraph<'a> {
    a: &'a [&'a str],
    b: &'a [&'a str],
    forward_diagonals: Vec<usize>,
    backward_diagonals: Vec<usize>,
}

impl<'a> EditGraph<'a> {
    /// The character sequences of the first input.
    pub closed spec fn a_view(self) -> Seq<Seq<char>> {
        lines_view(self.a@)
    }

    /// The character sequences of the second input.
    pub closed spec fn b_view(self) -> Seq<Seq<char>> {
        lines_view(self.b@)
    }

    spec fn dmax(self) -> int {
        if self.a@.len() >= self.b@.len() {
            self.a@.len() as int
        } else {
            self.b@.len() as int
        }
    }

    spec fn max_d_spec(self) -> int {
        graph_max_d(self.a_view(), self.b_view())
    }

    spec fn delta_spec(self) -> int {
        graph_delta(self.a_view(), self.b_view())
    }

    spec fn forward_idx_spec(self, k: int) -> int {
        fwd_idx(self.a_view(), self.b_view(), k)
    }

    spec fn backward_idx_spec(self, k: int) -> int {
        bwd_idx(self.a_view(), self.b_view(), k)
    }

    /// The forward-reach array.
    pub closed spec fn forward_view(self) -> Seq<usize> {
        self.forward_diagonals@
    }

    /// The backward-reach array.
    pub closed spec fn backward_view(self) -> Seq<usize> {
        self.backward_diagonals@
    }

    /// Well-formed search state: both sequences nonempty and of bounded
    /// combined length, both reach arrays sized `2 * max(|a|, |b|) + 1`, and
    /// every reach entry within `[0, |a|]`.
    pub closed spec fn wf(self) -> bool {
        &&& 1 <= self.a@.len()
        &&& 1 <= self.b@.len()
        &&& self.a@.len() + self.b@.len() <= MAX_TOTAL_LEN
        &&& self.forward_diagonals@.len() == 2 * self.dmax() + 1
        &&& self.backward_diagonals@.len() == 2 * self.dmax() + 1
        &&& forall|i: int|
            0 <= i < self.forward_diagonals@.len() ==> #[trigger] self.forward_diagonals@[i]
                <= self.a@.len()
        &&& forall|i: int|
            0 <= i < self.backward_diagonals@.len() ==> #[trigger] self.backward_diagonals@[i]
                <= self.a@.len()
    }

    /// Fresh search state for the nonempty sequences `a` and `b`: the forward
    /// reaches start at 0 (nothing reached from the top-left), the backward
    /// reaches at `|a|` (nothing reached from the bottom-right).
    pub fn new(a: &'a [&'a str], b: &'a [&'a str]) -> (r: Self)
        requires
            1 <= a@.len(),
            1 <= b@.len(),
            a@.len() + b@.len() <= MAX_TOTAL_LEN,
        ensures
            r.wf(),
            r.a_view() == lines_view(a@),
            r.b_view() == lines_view(b@),
            r.forward_view().len() == 2 * (if a@.len() >= b@.len() {
                a@.len() as int
            } else {
                b@.len() as int
            }) + 1,
            r.backward_view().len() == r.forward_view().len(),
            forall|i: int| 0 <= i < r.forward_view().len() ==> #[trigger] r.forward_view()[i] == 0,
            forall|i: int|
                0 <= i < r.backward_view().len() ==> #[trigger] r.backward_view()[i] == a@.len(),
    {
        let max = if a.len() >= b.len() {
            a.len()
        } else {
            b.len()
        };
        EditGraph {
            a,
            b,
            forward_diagonals: filled_vec(2 * max + 1, 0),
            backward_diagonals: filled_vec(2 * max + 1, a.len()),
        }
    }

    /// The largest edit-distance guess the search will try:
    /// `ceil((|a| + |b|) / 2)`.
    fn max_d(&self) -> (r: usize)
        requires
            self.wf(),
        ensures
            r == self.max_d_spec(),
    {
        (self.a.len() + self.b.len() + 1) / 2
    }

    /// The length difference `|a| - |b|`: the diagonal on which the backward
    /// search is centered.
    fn delta(&self) -> (r: isize)
        requires
            self.wf(),
        ensures
            r == self.delta_spec(),
    {
        self.a.len() as isize - self.b.len() as isize
    }

    /// Array index of diagonal `k` of the forward search. The offset depends
    /// on the sign of the length difference, so that forward and backward
    /// entries at the same underlying array index describe the same graph
    /// diagonal.
    fn get_forward_idx(&self, k: isize) -> (r: usize)
        requires
            self.wf(),
            -self.max_d_spec() <= k <= self.max_d_spec(),
        ensures
            r == self.forward_idx_spec(k as int),
    {
        let max_d = self.max_d();
        let delta = self.delta();
        let idx: isize = if delta < 0 {
            max_d as isize - delta + k
        } else {
            max_d as isize + k
        };
        idx as usize
    }

    /// Array index of diagonal `k` of the backward search; the mirrored
    /// offset pair of `get_forward_idx`.
    fn get_backward_idx(&self, k: isize) -> (r: usize)
        requires
            self.wf(),
            -self.max_d_spec() <= k <= self.max_d_spec(),
        ensures
            r == self.backward_idx_spec(k as int),
    {
        let max_d = self.max_d();
        let delta = self.delta();
        let idx: isize = if delta < 0 {
            max_d as isize + k
        } else {
            max_d as isize + delta + k
        };
        idx as usize
    }

    /// One greedy forward step on diagonal `k` in round `d`: pick the start
    /// from the neighbouring reaches (at the lower extreme always from the
    /// right neighbour, otherwise preferring the larger reach), extend the
    /// snake while elements match, and record the new reach. Returns the
    /// candidate middle snake: the run just observed if it is at least as
    /// long as the current candidate (on a tie the newer run replaces the
    /// older), the current candidate otherwise. A
    /// frontier that steps outside the `[0, |a|] x [0, |b|]` square — or
    /// outside the reach arrays — leaves the candidate unchanged.
    fn update_forward_diagonal(&mut self, k: isize, d: isize, middle_snake: MiddleSnake) -> (r:
        MiddleSnake)
        requires
            old(self).wf(),
            0 <= d <= old(self).max_d_spec(),
            -d <= k <= d,
            valid_snake(old(self).a_view(), old(self).b_view(), middle_snake),
        ensures
            final(self).wf(),
            final(self).a == old(self).a,
            final(self).b == old(self).b,
            final(self).backward_diagonals@ == old(self).backward_diagonals@,
            ({
                let step = spec_update_forward(
                    old(self).a_view(),
                    old(self).b_view(),
                    old(self).forward_diagonals@,
                    k as int,
                    d as int,
                    middle_snake,
                );
                final(self).forward_diagonals@ == step.0 && r == step.1
            }),
            valid_snake(final(self).a_view(), final(self).b_view(), r),
    {
        let n = self.a.len();
        let m = self.b.len();
        let idx = self.get_forward_idx(k);
        let len = self.forward_diagonals.len();

        // choose the starting x for diagonal k
        let lx: usize;
        if k == -d {
            if idx + 1 >= len {
                return middle_snake;
            }
            lx = self.forward_diagonals[idx + 1];
        } else if k != d {
            if idx < 1 || idx + 1 >= len {
                return middle_snake;
            }
            let left = self.forward_diagonals[idx - 1];
            let right = self.forward_diagonals[idx + 1];
            lx = if right > left {
                right
            } else {
                left + 1
            };
        } else {
            if idx < 1 || idx >= len {
                return middle_snake;
            }
            lx = self.forward_diagonals[idx - 1] + 1;
        }

        // a start outside the square leaves the prior candidate unchanged
        if lx > n {
            return middle_snake;
        }
        if (lx as isize) < k {
            return middle_snake;
        }
        let mut y = (lx as isize - k) as usize;
        if y > m {
            return middle_snake;
        }

        // the snake: greedily advance both coordinates while elements match
        let mut rx = lx;
        loop
            invariant
                self.wf(),
                lx <= rx <= n,
                y <= m,
                n == self.a@.len(),
                m == self.b@.len(),
                rx as int - k == y as int,
                snake_end_fwd(self.a_view(), self.b_view(), lx as int, k as int) == snake_end_fwd(
                    self.a_view(),
                    self.b_view(),
                    rx as int,
                    k as int,
                ),
                forall|j: int|
                    lx <= j < rx ==> self.a_view()[j] == self.b_view()[j - k],
            ensures
                rx == snake_end_fwd(self.a_view(), self.b_view(), lx as int, k as int),
            decreases n - rx,
        {
            if rx >= n || y >= m {
                proof {
                    assert(snake_end_fwd(self.a_view(), self.b_view(), rx as int, k as int)
                        == rx);
                }
                break;
            }
            let ea = *vstd::slice::slice_index_get(self.a, rx);
            let eb = *vstd::slice::slice_index_get(self.b, y);
            if !str_eq(ea, eb) {
                proof {
                    assert(self.a_view()[rx as int] == ea@);
                    assert(self.b_view()[rx as int - k] == eb@);
                    assert(snake_end_fwd(self.a_view(), self.b_view(), rx as int, k as int)
                        == rx);
                }
                break;
            }
            proof {
                assert(self.a_view()[rx as int] == ea@);
                assert(self.b_view()[rx as int - k] == eb@);
                assert(snake_end_fwd(self.a_view(), self.b_view(), rx as int, k as int)
                    == snake_end_fwd(self.a_view(), self.b_view(), rx as int + 1, k as int));
            }
            rx += 1;
            y += 1;
        }

        self.forward_diagonals[idx] = rx;

        if rx - lx >= middle_snake.x.1 - middle_snake.x.0 {
            let snake = MiddleSnake::from_edit_graph(k, lx, rx);
            proof {
                assert forall|i: int| 0 <= i < snake.x.1 - snake.x.0 implies #[trigger] self.a_view()[snake.x.0 + i] == self.b_view()[snake.y.0 + i] by {
                    assert(self.a_view()[lx + i] == self.b_view()[lx + i - k]);
                }
            }
            snake
        } else {
            middle_snake
        }
    }

    /// One greedy backward step on diagonal `k` in round `d`: the mirror of
    /// `update_forward_diagonal`, shrinking the backward frontier by
    /// extending the snake leftward and upward while elements match, with the
    /// same boundary safety: coordinates about to go negative — or reach
    /// array accesses out of range — leave the candidate unchanged.
    #[verifier::rlimit(60)]
    fn update_backward_diagonal(&mut self, k: isize, d: isize, middle_snake: MiddleSnake) -> (r:
        MiddleSnake)
        requires
            old(self).wf(),
            0 <= d <= old(self).max_d_spec(),
            -d <= k <= d,
            valid_snake(old(self).a_view(), old(self).b_view(), middle_snake),
        ensures
            final(self).wf(),
            final(self).a == old(self).a,
            final(self).b == old(self).b,
            final(self).forward_diagonals@ == old(self).forward_diagonals@,
            ({
                let step = spec_update_backward(
                    old(self).a_view(),
                    old(self).b_view(),
                    old(self).backward_diagonals@,
                    k as int,
                    d as int,
                    middle_snake,
                );
                final(self).backward_diagonals@ == step.0 && r == step.1
            }),
            valid_snake(final(self).a_view(), final(self).b_view(), r),
    {
        let n = self.a.len();
        let m = self.b.len();
        let idx = self.get_backward_idx(k);
        let len = self.backward_diagonals.len();

        // choose the ending x for diagonal k; the backward reach may be 0, so
        // the subtraction happens on signed values
        let rxi: isize;
        if k == d {
            if idx < 1 || idx >= len {
                return middle_snake;
            }
            rxi = self.backward_diagonals[idx - 1] as isize;
        } else if k != -d {
            if idx < 1 || idx + 1 >= len {
                return middle_snake;
            }
            let left = self.backward_diagonals[idx - 1];
            let right = self.backward_diagonals[idx + 1];
            rxi = if left < right {
                left as isize
            } else {
                right as isize - 1
            };
        } else {
            if idx + 1 >= len {
                return middle_snake;
            }
            rxi = self.backward_diagonals[idx + 1] as isize - 1;
        }

        let delta = self.delta();
        let yi = rxi - k - delta;
        if rxi < 0 || yi < 0 {
            return middle_snake;
        }
        let rx = rxi as usize;
        let mut y = yi as usize;
        if y > m {
            return middle_snake;
        }
        let ghost y_end = y as int;

        // the snake: greedily retreat both coordinates while elements match
        let mut lx = rx;
        loop
            invariant
                self.wf(),
                lx <= rx <= n,
                y <= y_end <= m,
                n == self.a@.len(),
                m == self.b@.len(),
                lx as int - y as int == k + delta,
                snake_start_bwd(self.a_view(), self.b_view(), rx as int, k + delta)
                    == snake_start_bwd(self.a_view(), self.b_view(), lx as int, k + delta),
                forall|j: int|
                    lx <= j < rx ==> self.a_view()[j] == self.b_view()[j - (k + delta)],
            ensures
                lx == snake_start_bwd(self.a_view(), self.b_view(), rx as int, k + delta),
            decreases lx,
        {
            if lx == 0 || y == 0 {
                proof {
                    assert(snake_start_bwd(self.a_view(), self.b_view(), lx as int, k + delta)
                        == lx);
                }
                break;
            }
            let ea = *vstd::slice::slice_index_get(self.a, lx - 1);
            let eb = *vstd::slice::slice_index_get(self.b, y - 1);
            if !str_eq(ea, eb) {
                proof {
                    assert(self.a_view()[lx as int - 1] == ea@);
                    assert(self.b_view()[lx as int - 1 - (k + delta)] == eb@);
                    assert(snake_start_bwd(self.a_view(), self.b_view(), lx as int, k + delta)
                        == lx);
                }
                break;
            }
            proof {
                assert(self.a_view()[lx as int - 1] == ea@);
                assert(self.b_view()[lx as int - 1 - (k + delta)] == eb@);
                assert(snake_start_bwd(self.a_view(), self.b_view(), lx as int, k + delta)
                    == snake_start_bwd(self.a_view(), self.b_view(), lx as int - 1, k + delta));
            }
            lx -= 1;
            y -= 1;
        }

        self.backward_diagonals[idx] = lx;

        if rx - lx >= middle_snake.x.1 - middle_snake.x.0 {
            let snake = MiddleSnake::from_edit_graph(k + delta, lx, rx);
            proof {
                assert forall|i: int| 0 <= i < snake.x.1 - snake.x.0 implies #[trigger] self.a_view()[snake.x.0 + i] == self.b_view()[snake.y.0 + i] by {
                    assert(self.a_view()[lx + i] == self.b_view()[lx + i - (k + delta)]);
                }
            }
            snake
        } else {
            middle_snake
        }
    }

    /// The middle-snake search: for each edit-distance guess `d` from 0 to
    /// `max_d`, expand every forward diagonal and then shrink every backward
    /// diagonal, returning the candidate snake as soon as the two frontiers
    /// overlap on some diagonal (checked in the forward phase when the length
    /// difference is odd, in the backward phase when it is even). The result
    /// is exactly [`spec_search`] run from the current reach arrays — on a
    /// fresh state, [`spec_middle_snake`] — and any returned snake is a
    /// genuine matching run of the two sequences. `None` would mean the
    /// frontiers never met within `max_d` rounds; the algorithm's termination
    /// argument (not formalized here) rules that out for well-formed inputs.
    pub fn find_middle_snake(&mut self) -> (r: Option<MiddleSnake>)
        requires
            old(self).wf(),
        ensures
            final(self).wf(),
            final(self).a_view() == old(self).a_view(),
            final(self).b_view() == old(self).b_view(),
            r == spec_search(
                old(self).a_view(),
                old(self).b_view(),
                old(self).forward_view(),
                old(self).backward_view(),
                (MiddleSnake { x: (0, 0), y: (0, 0) }),
                0,
            ),
            match r {
                Some(ms) => valid_snake(final(self).a_view(), final(self).b_view(), ms),
                None => true,
            },
    {
        let ghost av = old(self).a_view();
        let ghost bv = old(self).b_view();
        let ghost target = spec_search(
            av,
            bv,
            old(self).forward_diagonals@,
            old(self).backward_diagonals@,
            MiddleSnake { x: (0, 0), y: (0, 0) },
            0,
        );

        let mut middle_snake = MiddleSnake::default();
        let max_d = self.max_d();
        let max_d_i = max_d as isize;

        let mut d: isize = 0;
        while d <= max_d_i
            invariant
                self.wf(),
                self.a == old(self).a,
                self.b == old(self).b,
                av == self.a_view(),
                bv == self.b_view(),
                max_d_i == self.max_d_spec(),
                0 <= d <= max_d_i + 1,
                valid_snake(self.a_view(), self.b_view(), middle_snake),
                spec_search(
                    av,
                    bv,
                    self.forward_diagonals@,
                    self.backward_diagonals@,
                    middle_snake,
                    d as int,
                ) == target,
                target == spec_search(
                    av,
                    bv,
                    old(self).forward_diagonals@,
                    old(self).backward_diagonals@,
                    (MiddleSnake { x: (0, 0), y: (0, 0) }),
                    0,
                ),
            decreases max_d_i - d + 1,
        {
            let ghost fwd_p = self.forward_diagonals@;
            let ghost bwd_p = self.backward_diagonals@;
            let ghost ms_p = middle_snake;

            // forward phase
            let mut k: isize = -d;
            while k <= d
                invariant
                    self.wf(),
                    self.a == old(self).a,
                    self.b == old(self).b,
                    av == self.a_view(),
                    bv == self.b_view(),
                    max_d_i == self.max_d_spec(),
                    0 <= d <= max_d_i,
                    -d <= k <= d + 2,
                    valid_snake(self.a_view(), self.b_view(), middle_snake),
                    self.backward_diagonals@ == bwd_p,
                    spec_forward_phase(
                        av,
                        bv,
                        self.forward_diagonals@,
                        bwd_p,
                        middle_snake,
                        d as int,
                        k as int,
                    ) == spec_forward_phase(av, bv, fwd_p, bwd_p, ms_p, d as int, -(d as int)),
                    spec_search(av, bv, fwd_p, bwd_p, ms_p, d as int) == target,
                    target == spec_search(
                    av,
                    bv,
                    old(self).forward_diagonals@,
                    old(self).backward_diagonals@,
                    (MiddleSnake { x: (0, 0), y: (0, 0) }),
                    0,
                ),
                decreases d - k + 2,
            {
                let ghost fwd_cur = self.forward_diagonals@;
                let ghost ms_cur = middle_snake;
                middle_snake = self.update_forward_diagonal(k, d, middle_snake);
                let idx = self.get_forward_idx(k);

                let mut fire = false;
                if idx < self.forward_diagonals.len() {
                    let forward_x = self.forward_diagonals[idx];
                    let backward_x = self.backward_diagonals[idx];
                    let dl = self.delta();
                    let ad = if dl < 0 {
                        -dl
                    } else {
                        dl
                    };
                    if ad % 2 == 1 && dl - (d - 1) <= k && k <= dl + (d - 1) && backward_x
                        <= forward_x {
                        fire = true;
                    }
                }
                if fire {
                    proof {
                        assert(spec_forward_phase(av, bv, fwd_cur, bwd_p, ms_cur, d as int, k as int)
                            == (self.forward_diagonals@, middle_snake, Some(middle_snake)));
                        assert(spec_search(av, bv, fwd_p, bwd_p, ms_p, d as int) == Some(
                            middle_snake,
                        ));
                        assert(target == Some(middle_snake));
                    }
                    return Some(middle_snake);
                }
                proof {
                    assert(spec_forward_phase(av, bv, fwd_cur, bwd_p, ms_cur, d as int, k as int)
                        == spec_forward_phase(
                        av,
                        bv,
                        self.forward_diagonals@,
                        bwd_p,
                        middle_snake,
                        d as int,
                        k as int + 2,
                    ));
                }
                k += 2;
            }

            proof {
                assert(spec_forward_phase(
                    av,
                    bv,
                    self.forward_diagonals@,
                    bwd_p,
                    middle_snake,
                    d as int,
                    k as int,
                ) == (self.forward_diagonals@, middle_snake, None::<MiddleSnake>));
            }
            let ghost fwd_q = self.forward_diagonals@;
            let ghost ms_q = middle_snake;

            // backward phase
            let mut k: isize = -d;
            while k <= d
                invariant
                    self.wf(),
                    self.a == old(self).a,
                    self.b == old(self).b,
                    av == self.a_view(),
                    bv == self.b_view(),
                    max_d_i == self.max_d_spec(),
                    0 <= d <= max_d_i,
                    -d <= k <= d + 2,
                    valid_snake(self.a_view(), self.b_view(), middle_snake),
                    self.forward_diagonals@ == fwd_q,
                    spec_backward_phase(
                        av,
                        bv,
                        fwd_q,
                        self.backward_diagonals@,
                        middle_snake,
                        d as int,
                        k as int,
                    ) == spec_backward_phase(av, bv, fwd_q, bwd_p, ms_q, d as int, -(d as int)),
                    spec_forward_phase(av, bv, fwd_p, bwd_p, ms_p, d as int, -(d as int)) == (
                        fwd_q,
                        ms_q,
                        None::<MiddleSnake>,
                    ),
                    spec_search(av, bv, fwd_p, bwd_p, ms_p, d as int) == target,
                    target == spec_search(
                    av,
                    bv,
                    old(self).forward_diagonals@,
                    old(self).backward_diagonals@,
                    (MiddleSnake { x: (0, 0), y: (0, 0) }),
                    0,
                ),
                decreases d - k + 2,
            {
                let ghost bwd_cur = self.backward_diagonals@;
                let ghost ms_cur = middle_snake;
                middle_snake = self.update_backward_diagonal(k, d, middle_snake);
                let idx = self.get_backward_idx(k);

                let mut fire = false;
                if idx < self.forward_diagonals.len() {
                    let forward_x = self.forward_diagonals[idx];
                    let backward_x = self.backward_diagonals[idx];
                    let dl = self.delta();
                    let ad = if dl < 0 {
                        -dl
                    } else {
                        dl
                    };
                    if ad % 2 == 0 && -d <= dl + k && dl + k <= d && backward_x <= forward_x {
                        fire = true;
                    }
                }
                if fire {
                    proof {
                        assert(spec_backward_phase(av, bv, fwd_q, bwd_cur, ms_cur, d as int, k as int)
                            == (self.backward_diagonals@, middle_snake, Some(middle_snake)));
                        assert(spec_search(av, bv, fwd_p, bwd_p, ms_p, d as int) == Some(
                            middle_snake,
                        ));
                        assert(target == Some(middle_snake));
                    }
                    return Some(middle_snake);
                }
                proof {
                    assert(spec_backward_phase(av, bv, fwd_q, bwd_cur, ms_cur, d as int, k as int)
                        == spec_backward_phase(
                        av,
                        bv,
                        fwd_q,
                        self.backward_diagonals@,
                        middle_snake,
                        d as int,
                        k as int + 2,
                    ));
                }
                k += 2;
            }

            proof {
                assert(spec_backward_phase(
                    av,
                    bv,
                    fwd_q,
                    self.backward_diagonals@,
                    middle_snake,
                    d as int,
                    k as int,
                ) == (self.backward_diagonals@, middle_snake, None::<MiddleSnake>));
                assert(spec_search(av, bv, fwd_p, bwd_p, ms_p, d as int) == spec_search(
                    av,
                    bv,
                    self.forward_diagonals@,
                    self.backward_diagonals@,
                    middle_snake,
                    d as int + 1,
                ));
            }
            d += 1;
        }

        proof {
            assert(spec_search(
                av,
                bv,
                self.forward_diagonals@,
                self.backward_diagonals@,
                middle_snake,
                d as int,
            ) == None::<MiddleSnake>);
        }
        None
    }
}

} // verus!
