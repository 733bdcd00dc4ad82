//! Path integration through a vector noise field: single-sample tails and
//! iterative multi-step walks.

use vstd::prelude::*;
use crate::fixed::{FX_ONE, FX_POS_MAX, div_trunc};
use crate::geom::{Vec2, lemma_div_trunc_bound};
use crate::noise::{NoiseSource, VectorNoiseField, FX_OUT_MAX};

verus! {

/// Largest step size (and tail length) an integrator accepts.
pub const FX_STEP_MAX: i64 = 0x4000_0000;

/// Largest canvas extent, in fixed-point pixels.
pub const FX_CANVAS_MAX: i64 = 0x4000_0000;

/// Largest move one `advance` can make on one axis:
/// `FX_OUT_MAX * FX_STEP_MAX / FX_ONE`.
pub const FX_DELTA_MAX: i64 = 0x4_4000_0000;

/// Largest number of walk segments an integrator accepts.
pub const WALK_STEPS_MAX: u32 = 0x100_0000;

/// A position is on the canvas when both coordinates are at least zero and
/// strictly below the canvas extent.
pub open spec fn spec_in_bounds(p: (int, int), w: int, h: int) -> bool {
    0 <= p.0 < w && 0 <= p.1 < h
}

/// One integration step on one axis: move by `d * step / FX_ONE`.
pub open spec fn spec_advance(c: int, d: int, step: int) -> int {
    c + div_trunc(d * step, FX_ONE as int)
}

/// Advance a position along a direction, scaled by a step size.
pub fn advance(cur: Vec2, d: Vec2, step: i64) -> (r: Vec2)
    requires
        -0x40_0000_0000 <= cur.x <= 0x40_0000_0000,
        -0x40_0000_0000 <= cur.y <= 0x40_0000_0000,
        -FX_OUT_MAX <= d.x <= FX_OUT_MAX,
        -FX_OUT_MAX <= d.y <= FX_OUT_MAX,
        0 <= step <= FX_STEP_MAX,
    ensures
        r.x == spec_advance(cur.x as int, d.x as int, step as int),
        r.y == spec_advance(cur.y as int, d.y as int, step as int),
        cur.x - FX_DELTA_MAX <= r.x <= cur.x + FX_DELTA_MAX,
        cur.y - FX_DELTA_MAX <= r.y <= cur.y + FX_DELTA_MAX,
{
    proof {
        assert(-(FX_OUT_MAX * FX_STEP_MAX) <= d.x * step <= FX_OUT_MAX * FX_STEP_MAX)
            by (nonlinear_arith)
            requires
                -FX_OUT_MAX <= d.x <= FX_OUT_MAX,
                0 <= step <= FX_STEP_MAX,
            {}
        assert(-(FX_OUT_MAX * FX_STEP_MAX) <= d.y * step <= FX_OUT_MAX * FX_STEP_MAX)
            by (nonlinear_arith)
            requires
                -FX_OUT_MAX <= d.y <= FX_OUT_MAX,
                0 <= step <= FX_STEP_MAX,
            {}
        lemma_div_trunc_bound(d.x * step, FX_ONE as int, FX_DELTA_MAX as int);
        lemma_div_trunc_bound(d.y * step, FX_ONE as int, FX_DELTA_MAX as int);
    }
    let dx = crate::fixed::fx_div(d.x * step, FX_ONE);
    let dy = crate::fixed::fx_div(d.y * step, FX_ONE);
    Vec2 { x: cur.x + dx, y: cur.y + dy }
}

/// The two-point path of a tail: the start, and the start moved along the
/// field's direction at the start, scaled by the tail length.  A zero
/// direction collapses the tail to a point, which stays representable as a
/// zero-length segment.
pub fn tail<N: NoiseSource>(field: &VectorNoiseField<N>, start: Vec2, tail_length: i64) -> (path:
    Vec<Vec2>)
    requires
        field.wf(),
        -FX_CANVAS_MAX <= start.x <= FX_CANVAS_MAX,
        -FX_CANVAS_MAX <= start.y <= FX_CANVAS_MAX,
        0 <= tail_length <= FX_STEP_MAX,
    ensures
        path@.len() == 2,
        path@[0] == start,
        spec_step_bounded(start, path@[1], tail_length as int),
        field.modeled() ==> path@[1].x == spec_advance(start.x as int, field.spec_sample(
            start.x as int, start.y as int).0, tail_length as int) && path@[1].y == spec_advance(
            start.y as int, field.spec_sample(start.x as int, start.y as int).1,
            tail_length as int),
{
    let d = field.sample(start);
    let end = advance(start, d, tail_length);
    proof {
        lemma_delta_within(d.x as int, tail_length as int);
        lemma_delta_within(d.y as int, tail_length as int);
    }
    let mut path: Vec<Vec2> = Vec::new();
    path.push(start);
    path.push(end);
    path
}

/// The points a walk emits: starting at `cur`, while segments remain and the
/// cursor is on the canvas, sample and advance three times, record the
/// cursor and the two intermediate positions (the control points of one
/// smooth segment), and continue from the third.  The final cursor is
/// recorded once at the end; leaving the canvas just ends the walk early.
pub open spec fn spec_walk_points<N: NoiseSource>(f: VectorNoiseField<N>, cur: (int, int), n: nat,
    step: int, w: int, h: int) -> Seq<(int, int)>
    decreases n,
{
    if n == 0 || !spec_in_bounds(cur, w, h) {
        seq![cur]
    } else {
        let d1 = f.spec_sample(cur.0, cur.1);
        let c1 = (spec_advance(cur.0, d1.0, step), spec_advance(cur.1, d1.1, step));
        let d2 = f.spec_sample(c1.0, c1.1);
        let c2 = (spec_advance(c1.0, d2.0, step), spec_advance(c1.1, d2.1, step));
        let d3 = f.spec_sample(c2.0, c2.1);
        let c3 = (spec_advance(c2.0, d3.0, step), spec_advance(c2.1, d3.1, step));
        seq![cur, c1, c2] + spec_walk_points(f, c3, (n - 1) as nat, step, w, h)
    }
}

/// With a zero step size a walk never advances: every emitted point equals
/// the start, and — the start being on the canvas — the walk still
/// terminates after exactly `n` segments of three identical points each.
pub proof fn lemma_walk_zero_step<N: NoiseSource>(f: VectorNoiseField<N>, cur: (int, int), n: nat,
    w: int, h: int)
    ensures
        forall|j: int|
            0 <= j < spec_walk_points(f, cur, n, 0, w, h).len() ==> spec_walk_points(f, cur, n,
                0, w, h)[j] == cur,
        spec_in_bounds(cur, w, h) ==> spec_walk_points(f, cur, n, 0, w, h).len() == 3 * n + 1,
        !spec_in_bounds(cur, w, h) ==> spec_walk_points(f, cur, n, 0, w, h).len() == 1,
    decreases n,
{
    if n != 0 && spec_in_bounds(cur, w, h) {
        let d1 = f.spec_sample(cur.0, cur.1);
        vstd::arithmetic::div_mod::lemma_div_of0(FX_ONE as int);
        assert(spec_advance(cur.0, d1.0, 0) == cur.0);
        assert(spec_advance(cur.1, d1.1, 0) == cur.1);
        lemma_walk_zero_step(f, cur, (n - 1) as nat, w, h);
        assert(spec_walk_points(f, cur, n, 0, w, h) =~= seq![cur, cur, cur]
            + spec_walk_points(f, cur, (n - 1) as nat, 0, w, h));
    }
}

/// The view of a path: its points as pairs of mathematical integers.
pub open spec fn path_view(path: Seq<Vec2>) -> Seq<(int, int)> {
    path.map_values(|p: Vec2| (p.x as int, p.y as int))
}

/// The farthest one integration step can move a coordinate.
pub open spec fn spec_max_delta(step: int) -> int {
    div_trunc(FX_OUT_MAX * step, FX_ONE as int)
}

/// Two consecutive path points differ by at most the largest step on each
/// axis.
pub open spec fn spec_step_bounded(a: Vec2, b: Vec2, step: int) -> bool {
    &&& b.x - a.x <= spec_max_delta(step)
    &&& a.x - b.x <= spec_max_delta(step)
    &&& b.y - a.y <= spec_max_delta(step)
    &&& a.y - b.y <= spec_max_delta(step)
}

/// One integration move stays within the largest step.
proof fn lemma_delta_within(d: int, step: int)
    requires
        -FX_OUT_MAX <= d <= FX_OUT_MAX,
        0 <= step,
    ensures
        0 <= spec_max_delta(step),
        -spec_max_delta(step) <= div_trunc(d * step, FX_ONE as int) <= spec_max_delta(step),
{
    vstd::arithmetic::div_mod::lemma_div_pos_is_pos(FX_OUT_MAX * step, FX_ONE as int);
    if d >= 0 {
        assert(0 <= d * step <= FX_OUT_MAX * step) by (nonlinear_arith)
            requires
                0 <= d <= FX_OUT_MAX,
                0 <= step,
            {}
        vstd::arithmetic::div_mod::lemma_div_is_ordered(d * step, FX_OUT_MAX * step,
            FX_ONE as int);
        vstd::arithmetic::div_mod::lemma_div_pos_is_pos(d * step, FX_ONE as int);
    } else {
        assert(0 <= -(d * step) <= FX_OUT_MAX * step) by (nonlinear_arith)
            requires
                -FX_OUT_MAX <= d < 0,
                0 <= step,
            {}
        vstd::arithmetic::div_mod::lemma_div_is_ordered(-(d * step), FX_OUT_MAX * step,
            FX_ONE as int);
        vstd::arithmetic::div_mod::lemma_div_pos_is_pos(-(d * step), FX_ONE as int);
    }
}

/// Walk the field from a start position: up to `steps` smooth segments of
/// three sampled points each, ending early if the cursor leaves the canvas.
///
/// Whatever the field, the path starts at the start, holds one point plus
/// three per emitted segment, moves by at most one step's reach between
/// consecutive points — so a zero step size leaves every point at the
/// start — and ends early only off the canvas.  Over a field with a
/// published model the path is exactly `spec_walk_points`.
#[verifier::rlimit(60)]
pub fn walk<N: NoiseSource>(field: &VectorNoiseField<N>, start: Vec2, steps: u32, step_size: i64,
    width: i64, height: i64) -> (path: Vec<Vec2>)
    requires
        field.wf(),
        -FX_POS_MAX <= start.x <= FX_POS_MAX,
        -FX_POS_MAX <= start.y <= FX_POS_MAX,
        0 <= step_size <= FX_STEP_MAX,
        1 <= width <= FX_CANVAS_MAX,
        1 <= height <= FX_CANVAS_MAX,
        steps <= WALK_STEPS_MAX,
    ensures
        field.modeled() ==> path_view(path@) == spec_walk_points(*field, (start.x as int,
            start.y as int), steps as nat, step_size as int, width as int, height as int),
        1 <= path@.len() <= 3 * steps + 1,
        path@.len() % 3 == 1,
        path@[0] == start,
        forall|m: int|
            1 <= m < path@.len() ==> spec_step_bounded(path@[m - 1], #[trigger] path@[m],
                step_size as int),
        step_size == 0 ==> forall|m: int| 0 <= m < path@.len() ==> #[trigger] path@[m] == start,
        path@.len() < 3 * steps + 1 ==> !spec_in_bounds((path@[path@.len() - 1].x as int,
            path@[path@.len() - 1].y as int), width as int, height as int),
{
    let ghost full = spec_walk_points(*field, (start.x as int, start.y as int), steps as nat,
        step_size as int, width as int, height as int);
    let mut path: Vec<Vec2> = Vec::new();
    let mut cur = start;
    let mut i: u32 = 0;
    while i < steps
        invariant
            i <= steps,
            field.wf(),
            0 <= step_size <= FX_STEP_MAX,
            1 <= width <= FX_CANVAS_MAX,
            1 <= height <= FX_CANVAS_MAX,
            steps <= WALK_STEPS_MAX,
            -FX_POS_MAX <= cur.x <= FX_POS_MAX,
            -FX_POS_MAX <= cur.y <= FX_POS_MAX,
            path@.len() == 3 * i,
            i == 0 ==> cur == start,
            path@.len() > 0 ==> path@[0] == start,
            forall|m: int|
                1 <= m < path@.len() ==> spec_step_bounded(path@[m - 1], #[trigger] path@[m],
                    step_size as int),
            path@.len() > 0 ==> spec_step_bounded(path@[path@.len() - 1], cur,
                step_size as int),
            step_size == 0 ==> cur == start && forall|m: int|
                0 <= m < path@.len() ==> #[trigger] path@[m] == start,
            full == spec_walk_points(*field, (start.x as int, start.y as int), steps as nat,
                step_size as int, width as int, height as int),
            field.modeled() ==> path_view(path@) + spec_walk_points(*field, (cur.x as int,
                cur.y as int), (steps - i) as nat, step_size as int, width as int,
                height as int) == full,
        ensures
            field.modeled() ==> path_view(path@) + seq![(cur.x as int, cur.y as int)] == full,
            path@.len() == 3 * i,
            path@.len() <= 3 * steps,
            path@.len() == 0 ==> cur == start,
            path@.len() > 0 ==> path@[0] == start,
            forall|m: int|
                1 <= m < path@.len() ==> spec_step_bounded(path@[m - 1], #[trigger] path@[m],
                    step_size as int),
            path@.len() > 0 ==> spec_step_bounded(path@[path@.len() - 1], cur,
                step_size as int),
            step_size == 0 ==> cur == start && forall|m: int|
                0 <= m < path@.len() ==> #[trigger] path@[m] == start,
            i == steps || !(0 <= cur.x && cur.x < width && 0 <= cur.y && cur.y < height),
        decreases steps - i,
    {
        let on_canvas = 0 <= cur.x && cur.x < width && 0 <= cur.y && cur.y < height;
        if !on_canvas {
            proof {
                if field.modeled() {
                    assert(spec_walk_points(*field, (cur.x as int, cur.y as int), (steps
                        - i) as nat, step_size as int, width as int, height as int)
                        =~= seq![(cur.x as int, cur.y as int)]);
                }
            }
            break;
        }
        let d1 = field.sample(cur);
        let c1 = advance(cur, d1, step_size);
        let d2 = field.sample(c1);
        let c2 = advance(c1, d2, step_size);
        let d3 = field.sample(c2);
        let c3 = advance(c2, d3, step_size);
        let ghost rem = (steps - i) as nat;
        let ghost path_before = path@;
        path.push(cur);
        path.push(c1);
        path.push(c2);
        proof {
            lemma_delta_within(d1.x as int, step_size as int);
            lemma_delta_within(d1.y as int, step_size as int);
            lemma_delta_within(d2.x as int, step_size as int);
            lemma_delta_within(d2.y as int, step_size as int);
            lemma_delta_within(d3.x as int, step_size as int);
            lemma_delta_within(d3.y as int, step_size as int);
            assert(spec_step_bounded(cur, c1, step_size as int));
            assert(spec_step_bounded(c1, c2, step_size as int));
            assert(spec_step_bounded(c2, c3, step_size as int));
            if step_size == 0 {
                vstd::arithmetic::div_mod::lemma_div_of0(FX_ONE as int);
                assert(c1 == cur && c2 == cur && c3 == cur);
            }
            if field.modeled() {
                assert(spec_walk_points(*field, (cur.x as int, cur.y as int), rem,
                    step_size as int, width as int, height as int) =~= seq![(cur.x as int,
                    cur.y as int), (c1.x as int, c1.y as int), (c2.x as int, c2.y as int)]
                    + spec_walk_points(*field, (c3.x as int, c3.y as int), (rem - 1) as nat,
                    step_size as int, width as int, height as int));
                assert(path_view(path@) =~= path_view(path_before) + seq![(cur.x as int,
                    cur.y as int), (c1.x as int, c1.y as int), (c2.x as int, c2.y as int)]);
                assert(path_view(path@) + spec_walk_points(*field, (c3.x as int, c3.y as int), (
                rem - 1) as nat, step_size as int, width as int, height as int) =~= full);
            }
        }
        cur = c3;
        i = i + 1;
    }
    let ghost path_before = path@;
    path.push(cur);
    proof {
        if field.modeled() {
            assert(path_view(path@) =~= path_view(path_before) + seq![(cur.x as int,
                cur.y as int)]);
            assert(path_view(path@) == full);
        }
    }
    path
}

} // verus!
