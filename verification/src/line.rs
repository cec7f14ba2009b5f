//! The cells that Bresenham's line algorithm visits, and why the loop in
//! `Canvas::draw_line` stays within the segment and stops.

use vstd::prelude::*;

verus! {

pub open spec fn abs(a: int) -> int {
    if a < 0 { -a } else { a }
}

/// The unit step from `a` towards `b` (`-1` when they are equal).
pub open spec fn toward(a: int, b: int) -> int {
    if a < b { 1 } else { -1 }
}

/// One step of the algorithm from the state `(x, y, err)`.
pub open spec fn bres_step(x0: int, y0: int, x1: int, y1: int, s: (int, int, int)) -> (int, int, int) {
    let dx = abs(x1 - x0);
    let dy = -abs(y1 - y0);
    let e2 = 2 * s.2;
    let (cx, err) = if e2 >= dy { (s.0 + toward(x0, x1), s.2 + dy) } else { (s.0, s.2) };
    let (cy, err) = if e2 <= dx { (s.1 + toward(y0, y1), err + dx) } else { (s.1, err) };
    (cx, cy, err)
}

/// The cells visited from state `s` with at most `fuel` further steps; the
/// walk ends at `(x1, y1)`.
pub open spec fn bres_trace(x0: int, y0: int, x1: int, y1: int, s: (int, int, int), fuel: nat) -> Seq<(int, int)>
    decreases fuel,
{
    if (s.0 == x1 && s.1 == y1) || fuel == 0 {
        seq![(s.0, s.1)]
    } else {
        seq![(s.0, s.1)] + bres_trace(x0, y0, x1, y1, bres_step(x0, y0, x1, y1, s), (fuel - 1) as nat)
    }
}

/// The cells of the line from `(x0, y0)` to `(x1, y1)`, in drawing order.
/// The step budget is the Manhattan distance, which the walk never needs to
/// exceed (see `lemma_bres_step`).
pub open spec fn line_points(x0: int, y0: int, x1: int, y1: int) -> Seq<(int, int)> {
    bres_trace(x0, y0, x1, y1, (x0, y0, abs(x1 - x0) - abs(y1 - y0)), (abs(x1 - x0) + abs(y1 - y0)) as nat)
}

/// How far the state `s` has come along each axis.
pub open spec fn progress_x(x0: int, x1: int, cx: int) -> int {
    if x0 < x1 { cx - x0 } else { x0 - cx }
}

/// The Manhattan distance that remains to the end point.
pub open spec fn remaining(x1: int, y1: int, s: (int, int, int)) -> int {
    abs(x1 - s.0) + abs(y1 - s.1)
}

/// The state stays within the segment's box, and its error term is determined
/// by how far it has come.
pub open spec fn bres_inv(x0: int, y0: int, x1: int, y1: int, s: (int, int, int)) -> bool {
    let dx = abs(x1 - x0);
    let d = abs(y1 - y0);
    let i = progress_x(x0, x1, s.0);
    let j = progress_x(y0, y1, s.1);
    &&& 0 <= i <= dx
    &&& 0 <= j <= d
    &&& s.2 == dx * (1 + j) - d * (1 + i)
    &&& -3 * d <= 2 * s.2 <= 3 * dx
}

proof fn lemma_no_x_overshoot(dx: int, d: int, j: int)
    by (nonlinear_arith)
    requires
        0 <= j < d,
        0 <= dx,
    ensures
        2 * (dx * (1 + j) - d * (1 + dx)) < -d,
{
}

proof fn lemma_no_y_overshoot(dx: int, d: int, i: int)
    by (nonlinear_arith)
    requires
        0 <= i < dx,
        0 <= d,
    ensures
        2 * (dx * (1 + d) - d * (1 + i)) > dx,
{
}

proof fn lemma_mul_succ(a: int, b: int)
    by (nonlinear_arith)
    ensures
        a * (1 + (b + 1)) == a * (1 + b) + a,
{
}

pub proof fn lemma_bres_start(x0: int, y0: int, x1: int, y1: int)
    ensures
        bres_inv(x0, y0, x1, y1, (x0, y0, abs(x1 - x0) - abs(y1 - y0))),
{
    let dx = abs(x1 - x0);
    let d = abs(y1 - y0);
    assert(dx * (1 + 0) == dx) by (nonlinear_arith);
    assert(d * (1 + 0) == d) by (nonlinear_arith);
}

/// A step from a state short of the end point keeps the invariant and brings
/// the walk strictly closer to the end point.
pub proof fn lemma_bres_step(x0: int, y0: int, x1: int, y1: int, s: (int, int, int))
    requires
        bres_inv(x0, y0, x1, y1, s),
        !(s.0 == x1 && s.1 == y1),
    ensures
        bres_inv(x0, y0, x1, y1, bres_step(x0, y0, x1, y1, s)),
        remaining(x1, y1, bres_step(x0, y0, x1, y1, s)) < remaining(x1, y1, s),
{
    let dx = abs(x1 - x0);
    let d = abs(y1 - y0);
    let i = progress_x(x0, x1, s.0);
    let j = progress_x(y0, y1, s.1);
    let e2 = 2 * s.2;
    assert(i == dx <==> s.0 == x1);
    assert(j == d <==> s.1 == y1);
    if i == dx {
        lemma_no_x_overshoot(dx, d, j);
    }
    if j == d {
        lemma_no_y_overshoot(dx, d, i);
    }
    lemma_mul_succ(d, i);
    lemma_mul_succ(dx, j);
}

/// At the end point the walk stops.
pub proof fn lemma_bres_trace_end(x0: int, y0: int, x1: int, y1: int, s: (int, int, int), fuel: nat)
    requires
        s.0 == x1 && s.1 == y1,
    ensures
        bres_trace(x0, y0, x1, y1, s, fuel) == seq![(s.0, s.1)],
{
}

/// Short of the end point, a budget of at least the remaining distance is
/// enough: the walk goes on with one step less.
pub proof fn lemma_bres_trace_step(x0: int, y0: int, x1: int, y1: int, s: (int, int, int), fuel: nat)
    requires
        bres_inv(x0, y0, x1, y1, s),
        !(s.0 == x1 && s.1 == y1),
        fuel >= remaining(x1, y1, s),
    ensures
        fuel >= 1,
        bres_trace(x0, y0, x1, y1, s, fuel)
            == seq![(s.0, s.1)] + bres_trace(x0, y0, x1, y1, bres_step(x0, y0, x1, y1, s), (fuel - 1) as nat),
        (fuel - 1) as nat >= remaining(x1, y1, bres_step(x0, y0, x1, y1, s)),
{
    lemma_bres_step(x0, y0, x1, y1, s);
}

/// The Manhattan distance from a cell to the end point.
pub open spec fn distance_to(x1: int, y1: int, p: (int, int)) -> int {
    abs(x1 - p.0) + abs(y1 - p.1)
}

/// Along the walk the distance to the end point strictly falls, so no cell is
/// visited twice.
pub proof fn lemma_bres_trace_distinct(x0: int, y0: int, x1: int, y1: int, s: (int, int, int), fuel: nat)
    requires
        bres_inv(x0, y0, x1, y1, s),
        fuel >= remaining(x1, y1, s),
    ensures
        bres_trace(x0, y0, x1, y1, s, fuel)[0] == (s.0, s.1),
        forall|k: int| 0 <= k < bres_trace(x0, y0, x1, y1, s, fuel).len()
            ==> distance_to(x1, y1, #[trigger] bres_trace(x0, y0, x1, y1, s, fuel)[k]) <= remaining(x1, y1, s),
        forall|i: int, j: int| 0 <= i < j < bres_trace(x0, y0, x1, y1, s, fuel).len()
            ==> distance_to(x1, y1, #[trigger] bres_trace(x0, y0, x1, y1, s, fuel)[j])
                < distance_to(x1, y1, #[trigger] bres_trace(x0, y0, x1, y1, s, fuel)[i]),
        bres_trace(x0, y0, x1, y1, s, fuel).no_duplicates(),
    decreases fuel,
{
    let t = bres_trace(x0, y0, x1, y1, s, fuel);
    if (s.0 == x1 && s.1 == y1) || fuel == 0 {
        assert(t == seq![(s.0, s.1)]);
    } else {
        lemma_bres_trace_step(x0, y0, x1, y1, s, fuel);
        lemma_bres_step(x0, y0, x1, y1, s);
        let s2 = bres_step(x0, y0, x1, y1, s);
        let f2 = (fuel - 1) as nat;
        lemma_bres_trace_distinct(x0, y0, x1, y1, s2, f2);
        let t2 = bres_trace(x0, y0, x1, y1, s2, f2);
        assert(t == seq![(s.0, s.1)] + t2);
        assert forall|k: int| 0 <= k < t.len() implies distance_to(x1, y1, #[trigger] t[k]) <= remaining(x1, y1, s) by {
            if k > 0 {
                assert(t[k] == t2[k - 1]);
            }
        }
        assert forall|i: int, j: int| 0 <= i < j < t.len()
            implies distance_to(x1, y1, #[trigger] t[j]) < distance_to(x1, y1, #[trigger] t[i]) by {
            assert(t[j] == t2[j - 1]);
            if i > 0 {
                assert(t[i] == t2[i - 1]);
            }
        }
    }
    assert forall|i: int, j: int| 0 <= i < t.len() && 0 <= j < t.len() && i != j implies t[i] != t[j] by {
        if i < j {
            assert(distance_to(x1, y1, t[j]) < distance_to(x1, y1, t[i]));
        } else {
            assert(distance_to(x1, y1, t[i]) < distance_to(x1, y1, t[j]));
        }
    }
}

/// No cell of a line is visited twice.
pub proof fn lemma_line_points_distinct(x0: int, y0: int, x1: int, y1: int)
    ensures
        line_points(x0, y0, x1, y1).no_duplicates(),
{
    lemma_bres_start(x0, y0, x1, y1);
    lemma_bres_trace_distinct(x0, y0, x1, y1, (x0, y0, abs(x1 - x0) - abs(y1 - y0)), (abs(x1 - x0) + abs(y1 - y0)) as nat);
}

/// Cells `i` and `i + 1` of `t` differ by at most one along each axis.
pub open spec fn unit_step(t: Seq<(int, int)>, i: int) -> bool {
    abs(t[i + 1].0 - t[i].0) <= 1 && abs(t[i + 1].1 - t[i].1) <= 1
}

/// The walk from a state ends at the end point, and each step moves by at
/// most one cell along each axis.
pub proof fn lemma_bres_trace_shape(x0: int, y0: int, x1: int, y1: int, s: (int, int, int), fuel: nat)
    requires
        bres_inv(x0, y0, x1, y1, s),
        fuel >= remaining(x1, y1, s),
    ensures
        bres_trace(x0, y0, x1, y1, s, fuel).last() == (x1, y1),
        forall|i: int| 0 <= i < bres_trace(x0, y0, x1, y1, s, fuel).len() - 1
            ==> #[trigger] unit_step(bres_trace(x0, y0, x1, y1, s, fuel), i),
    decreases fuel,
{
    let t = bres_trace(x0, y0, x1, y1, s, fuel);
    if !((s.0 == x1 && s.1 == y1) || fuel == 0) {
        lemma_bres_trace_step(x0, y0, x1, y1, s, fuel);
        lemma_bres_step(x0, y0, x1, y1, s);
        let s2 = bres_step(x0, y0, x1, y1, s);
        let f2 = (fuel - 1) as nat;
        lemma_bres_trace_shape(x0, y0, x1, y1, s2, f2);
        lemma_bres_trace_distinct(x0, y0, x1, y1, s2, f2);
        let t2 = bres_trace(x0, y0, x1, y1, s2, f2);
        assert(t == seq![(s.0, s.1)] + t2);
        assert(t.last() == t2.last());
        assert forall|i: int| 0 <= i < t.len() - 1 implies #[trigger] unit_step(t, i) by {
            assert(t[i + 1] == t2[i]);
            if i > 0 {
                assert(t[i] == t2[i - 1]);
                assert(unit_step(t2, i - 1));
            } else {
                assert(t2[0] == (s2.0, s2.1));
            }
        }
    } else if fuel == 0 {
        assert(s.0 == x1 && s.1 == y1);
    }
}

pub open spec fn max_int(a: int, b: int) -> int {
    if a >= b { a } else { b }
}

/// The length of the line's longer axis, in cells.
pub open spec fn major_len(x0: int, y0: int, x1: int, y1: int) -> int {
    max_int(abs(x1 - x0), abs(y1 - y0))
}

/// How far the cell `p` has come from the start along the line's longer axis
/// (the x axis when the two are equal).
pub open spec fn major_progress(x0: int, y0: int, x1: int, y1: int, p: (int, int)) -> int {
    if abs(x1 - x0) >= abs(y1 - y0) { progress_x(x0, x1, p.0) } else { progress_x(y0, y1, p.1) }
}

/// How far the cell `p` lies off the ideal line, scaled by the line's
/// extents: with `i`, `j` the distances from the start along x and y, it is
/// `dx * j - dy * i`, which is zero exactly on the ideal line. Divided by the
/// longer extent it is the distance along the shorter axis in cells.
pub open spec fn deviation(x0: int, y0: int, x1: int, y1: int, p: (int, int)) -> int {
    abs(x1 - x0) * progress_x(y0, y1, p.1) - abs(y1 - y0) * progress_x(x0, x1, p.0)
}

proof fn lemma_mul_add_one(a: int, b: int)
    by (nonlinear_arith)
    ensures
        a * (b + 1) == a * b + a,
        a * (1 + b) == a + a * b,
{
}

/// From a state within half a cell of the ideal line, a step moves one cell
/// along the longer axis and stays within half a cell.
pub proof fn lemma_bres_step_close(x0: int, y0: int, x1: int, y1: int, s: (int, int, int))
    requires
        bres_inv(x0, y0, x1, y1, s),
        !(s.0 == x1 && s.1 == y1),
        2 * abs(deviation(x0, y0, x1, y1, (s.0, s.1))) <= major_len(x0, y0, x1, y1),
    ensures
        2 * abs(deviation(x0, y0, x1, y1, (bres_step(x0, y0, x1, y1, s).0, bres_step(x0, y0, x1, y1, s).1)))
            <= major_len(x0, y0, x1, y1),
        major_progress(x0, y0, x1, y1, (bres_step(x0, y0, x1, y1, s).0, bres_step(x0, y0, x1, y1, s).1))
            == major_progress(x0, y0, x1, y1, (s.0, s.1)) + 1,
{
    let dx = abs(x1 - x0);
    let d = abs(y1 - y0);
    let i = progress_x(x0, x1, s.0);
    let j = progress_x(y0, y1, s.1);
    lemma_mul_add_one(dx, j);
    lemma_mul_add_one(d, i);
    lemma_bres_step(x0, y0, x1, y1, s);
}

/// Along the walk each cell is one further along the longer axis than the
/// one before, and every cell lies within the segment's box and within half
/// a cell of the ideal line.
pub proof fn lemma_bres_trace_close(x0: int, y0: int, x1: int, y1: int, s: (int, int, int), fuel: nat)
    requires
        bres_inv(x0, y0, x1, y1, s),
        fuel >= remaining(x1, y1, s),
        2 * abs(deviation(x0, y0, x1, y1, (s.0, s.1))) <= major_len(x0, y0, x1, y1),
    ensures
        forall|k: int| 0 <= k < bres_trace(x0, y0, x1, y1, s, fuel).len() ==> {
            &&& major_progress(x0, y0, x1, y1, #[trigger] bres_trace(x0, y0, x1, y1, s, fuel)[k])
                == major_progress(x0, y0, x1, y1, (s.0, s.1)) + k
            &&& 2 * abs(deviation(x0, y0, x1, y1, bres_trace(x0, y0, x1, y1, s, fuel)[k])) <= major_len(x0, y0, x1, y1)
            &&& 0 <= progress_x(x0, x1, bres_trace(x0, y0, x1, y1, s, fuel)[k].0) <= abs(x1 - x0)
            &&& 0 <= progress_x(y0, y1, bres_trace(x0, y0, x1, y1, s, fuel)[k].1) <= abs(y1 - y0)
        },
    decreases fuel,
{
    let t = bres_trace(x0, y0, x1, y1, s, fuel);
    if (s.0 == x1 && s.1 == y1) || fuel == 0 {
        assert(t == seq![(s.0, s.1)]);
    } else {
        lemma_bres_trace_step(x0, y0, x1, y1, s, fuel);
        lemma_bres_step(x0, y0, x1, y1, s);
        lemma_bres_step_close(x0, y0, x1, y1, s);
        let s2 = bres_step(x0, y0, x1, y1, s);
        let f2 = (fuel - 1) as nat;
        lemma_bres_trace_close(x0, y0, x1, y1, s2, f2);
        let t2 = bres_trace(x0, y0, x1, y1, s2, f2);
        assert(t == seq![(s.0, s.1)] + t2);
        assert forall|k: int| 0 <= k < t.len() implies {
            &&& major_progress(x0, y0, x1, y1, #[trigger] t[k]) == major_progress(x0, y0, x1, y1, (s.0, s.1)) + k
            &&& 2 * abs(deviation(x0, y0, x1, y1, t[k])) <= major_len(x0, y0, x1, y1)
            &&& 0 <= progress_x(x0, x1, t[k].0) <= abs(x1 - x0)
            &&& 0 <= progress_x(y0, y1, t[k].1) <= abs(y1 - y0)
        } by {
            if k > 0 {
                assert(t[k] == t2[k - 1]);
            }
        }
    }
}

} // verus!
