//! Triangle tessellation of a rectangular canvas: alternating upright and
//! inverted triangles on a brick-offset grid, two per anchor, enough rows
//! and columns to cover the whole canvas with a margin for partial edge
//! cells.

use vstd::prelude::*;
use crate::fixed::{FX_ONE, div_trunc, fx_div};
use crate::geom::Vec2;
use crate::integrate::FX_CANVAS_MAX;

verus! {

/// `sin(60°)` in fixed point, rounded down: the height of an equilateral
/// triangle is its side times this.
pub const SIN_60_FX: i64 = 56755;

/// Extra rows and columns beyond the exact quotient, covering partial edge
/// triangles and the half-side brick offset.
pub const GRID_MARGIN: i64 = 3;

/// Whether a triangle cell points up (apex below its anchor row) or down.
#[derive(Clone, Copy, PartialEq, Eq, Structural, Debug)]
pub enum Orientation {
    Up,
    Down,
}

/// One triangle cell of the tessellation: its column and row, the anchor
/// position both triangles of the pair share, and its orientation.
#[derive(Clone, Copy, PartialEq, Eq, Structural, Debug)]
pub struct GridCell {
    pub i: u32,
    pub j: u32,
    pub anchor: Vec2,
    pub orientation: Orientation,
}

/// The height of one triangle row: `side * sin(60°)`.
pub open spec fn spec_tri_height(side: int) -> int {
    div_trunc(side * SIN_60_FX, FX_ONE as int)
}

/// Columns enumerated for a canvas of width `w`.
pub open spec fn spec_i_max(w: int, side: int) -> int {
    w / side + GRID_MARGIN
}

/// Rows enumerated for a canvas of height `h`.
pub open spec fn spec_j_max(h: int, side: int) -> int {
    h / spec_tri_height(side) + GRID_MARGIN
}

/// The anchor of column `i`, row `j`: columns step by one side length, with
/// every other row shifted back a half side for a brick-like tiling; rows
/// step by one triangle height.
pub open spec fn spec_anchor(i: int, j: int, side: int) -> (int, int) {
    let x = if j % 2 == 0 {
        i * side - side / 2
    } else {
        i * side
    };
    (x, j * spec_tri_height(side))
}

/// The cell at position `k` of the emitted sequence: cells are ordered by
/// column, then row, with the upright triangle of a pair first.
pub open spec fn spec_cell_at(k: int, j_max: int, side: int) -> GridCell {
    let pair = k / 2;
    let i = pair / j_max;
    let j = pair % j_max;
    GridCell {
        i: i as u32,
        j: j as u32,
        anchor: Vec2 {
            x: spec_anchor(i, j, side).0 as i64,
            y: spec_anchor(i, j, side).1 as i64,
        },
        orientation: if k % 2 == 0 {
            Orientation::Up
        } else {
            Orientation::Down
        },
    }
}

/// The triangle height is positive and no more than the side itself.
pub proof fn lemma_tri_height_bounds(side: int)
    requires
        FX_ONE <= side,
    ensures
        SIN_60_FX <= spec_tri_height(side) <= side,
{
    vstd::arithmetic::div_mod::lemma_div_is_ordered(FX_ONE * SIN_60_FX, side * SIN_60_FX,
        FX_ONE as int);
    vstd::arithmetic::div_mod::lemma_div_is_ordered(side * SIN_60_FX, side * FX_ONE,
        FX_ONE as int);
    vstd::arithmetic::div_mod::lemma_div_by_multiple(SIN_60_FX as int, FX_ONE as int);
    vstd::arithmetic::div_mod::lemma_div_by_multiple(side, FX_ONE as int);
    assert(FX_ONE * SIN_60_FX == SIN_60_FX * FX_ONE) by (nonlinear_arith) {}
    assert(side * SIN_60_FX <= side * FX_ONE) by (nonlinear_arith)
        requires
            side >= 0,
        {}
    assert(FX_ONE * SIN_60_FX <= side * SIN_60_FX) by (nonlinear_arith)
        requires
            FX_ONE <= side,
        {}
}

/// A column or row index below its maximum keeps the anchor arithmetic
/// within `extent + GRID_MARGIN` steps of the canvas edge.
proof fn lemma_grid_coord_bound(i: int, extent: int, stride: int)
    requires
        1 <= extent,
        1 <= stride,
        0 <= i < extent / stride + GRID_MARGIN,
    ensures
        0 <= i * stride <= extent + GRID_MARGIN * stride,
{
    vstd::arithmetic::div_mod::lemma_remainder_lower(extent, stride);
    assert(i * stride <= (extent / stride + GRID_MARGIN) * stride) by (nonlinear_arith)
        requires
            i <= extent / stride + GRID_MARGIN,
            stride >= 1,
        {}
    assert((extent / stride + GRID_MARGIN) * stride == (extent / stride) * stride + GRID_MARGIN
        * stride) by (nonlinear_arith) {}
    assert(i * stride >= 0) by (nonlinear_arith)
        requires
            i >= 0,
            stride >= 1,
        {}
}

/// The tessellation covers the canvas: the enumerated columns span at least
/// the canvas width, the rows at least its height, and so the emitted
/// triangles' total area — each anchor carries an upright and an inverted
/// triangle of area `side * height / 2` each, together one `side * height`
/// parallelogram — is at least the canvas area `w * h`.
pub proof fn lemma_grid_covers_canvas(w: int, h: int, side: int)
    requires
        1 <= w,
        1 <= h,
        FX_ONE <= side,
    ensures
        spec_i_max(w, side) * side >= w,
        spec_j_max(h, side) * spec_tri_height(side) >= h,
        (spec_i_max(w, side) * spec_j_max(h, side)) * (side * spec_tri_height(side)) >= w * h,
{
    lemma_tri_height_bounds(side);
    let th = spec_tri_height(side);
    vstd::arithmetic::div_mod::lemma_remainder_upper(w, side);
    assert((w / side + GRID_MARGIN) * side >= (w / side) * side + side) by (nonlinear_arith)
        requires
            side >= 1,
        {}
    vstd::arithmetic::div_mod::lemma_remainder_upper(h, th);
    assert((h / th + GRID_MARGIN) * th >= (h / th) * th + th) by (nonlinear_arith)
        requires
            th >= 1,
        {}
    assert((spec_i_max(w, side) * spec_j_max(h, side)) * (side * th) >= w * h)
        by (nonlinear_arith)
        requires
            spec_i_max(w, side) * side >= w,
            spec_j_max(h, side) * th >= h,
            w >= 1,
            h >= 1,
            side >= 1,
            th >= 1,
            spec_i_max(w, side) >= 1,
            spec_j_max(h, side) >= 1,
        {}
}

impl GridCell {
    /// The three vertices of this triangle: upright triangles run from the
    /// anchor right one side and down to the midpoint below; inverted ones
    /// share the anchor and the midpoint edge below it.
    pub fn vertices(&self, side: i64) -> (r: (Vec2, Vec2, Vec2))
        requires
            FX_ONE <= side <= FX_CANVAS_MAX,
            -0x10_0000_0000 <= self.anchor.x <= 0x10_0000_0000,
            -0x10_0000_0000 <= self.anchor.y <= 0x10_0000_0000,
        ensures
            r.0 == self.anchor,
            self.orientation == Orientation::Up ==> r.1.x == self.anchor.x + side && r.1.y
                == self.anchor.y && r.2.x == self.anchor.x + side / 2 && r.2.y == self.anchor.y
                + spec_tri_height(side as int),
            self.orientation == Orientation::Down ==> r.1.x == self.anchor.x + side / 2 && r.1.y
                == self.anchor.y + spec_tri_height(side as int) && r.2.x == self.anchor.x - side
                / 2 && r.2.y == self.anchor.y + spec_tri_height(side as int),
    {
        let half: i64 = fx_div(side, 2);
        let th: i64 = fx_div(side * SIN_60_FX, FX_ONE);
        proof {
            lemma_tri_height_bounds(side as int);
        }
        match self.orientation {
            Orientation::Up => (
                self.anchor,
                Vec2 { x: self.anchor.x + side, y: self.anchor.y },
                Vec2 { x: self.anchor.x + half, y: self.anchor.y + th },
            ),
            Orientation::Down => (
                self.anchor,
                Vec2 { x: self.anchor.x + half, y: self.anchor.y + th },
                Vec2 { x: self.anchor.x - half, y: self.anchor.y + th },
            ),
        }
    }

    /// The position whose noise sample colors this triangle: half a
    /// triangle-height below the anchor, and — for the upright triangle of
    /// the pair — half a side to the right, so the two triangles of a pair
    /// are colored from independent samples.
    pub fn sample_point(&self, side: i64) -> (r: Vec2)
        requires
            FX_ONE <= side <= FX_CANVAS_MAX,
            -0x10_0000_0000 <= self.anchor.x <= 0x10_0000_0000,
            -0x10_0000_0000 <= self.anchor.y <= 0x10_0000_0000,
        ensures
            self.orientation == Orientation::Up ==> r.x == self.anchor.x + side / 2,
            self.orientation == Orientation::Down ==> r.x == self.anchor.x,
            r.y == self.anchor.y + spec_tri_height(side as int) / 2,
    {
        let half: i64 = fx_div(side, 2);
        let th: i64 = fx_div(side * SIN_60_FX, FX_ONE);
        proof {
            lemma_tri_height_bounds(side as int);
        }
        let half_th: i64 = fx_div(th, 2);
        match self.orientation {
            Orientation::Up => Vec2 { x: self.anchor.x + half, y: self.anchor.y + half_th },
            Orientation::Down => Vec2 { x: self.anchor.x, y: self.anchor.y + half_th },
        }
    }
}

/// Enumerate every triangle cell of the tessellation for a canvas of
/// `width` by `height`, triangles of side `side`: two cells per anchor, in
/// column-major order, upright first.
pub fn grid_cells(width: i64, height: i64, side: i64) -> (cells: Vec<GridCell>)
    requires
        1 <= width <= FX_CANVAS_MAX,
        1 <= height <= FX_CANVAS_MAX,
        FX_ONE <= side <= FX_CANVAS_MAX,
    ensures
        cells@.len() == 2 * spec_i_max(width as int, side as int) * spec_j_max(height as int,
            side as int),
        forall|k: int|
            0 <= k < cells@.len() ==> cells@[k] == spec_cell_at(k, spec_j_max(height as int,
                side as int), side as int),
{
    proof {
        lemma_tri_height_bounds(side as int);
    }
    let th: i64 = fx_div(side * SIN_60_FX, FX_ONE);
    let half: i64 = fx_div(side, 2);
    let i_max: i64 = fx_div(width, side) + GRID_MARGIN;
    let j_max: i64 = fx_div(height, th) + GRID_MARGIN;
    let ghost jm = j_max as int;
    let mut cells: Vec<GridCell> = Vec::new();
    let mut i: i64 = 0;
    while i < i_max
        invariant
            0 <= i <= i_max,
            i_max == spec_i_max(width as int, side as int),
            j_max == spec_j_max(height as int, side as int),
            jm == j_max as int,
            3 <= i_max,
            3 <= j_max,
            th == spec_tri_height(side as int),
            SIN_60_FX <= th <= side,
            half == side as int / 2,
            1 <= width <= FX_CANVAS_MAX,
            1 <= height <= FX_CANVAS_MAX,
            FX_ONE <= side <= FX_CANVAS_MAX,
            cells@.len() == 2 * i * jm,
            forall|k: int| 0 <= k < cells@.len() ==> cells@[k] == spec_cell_at(k, jm,
                side as int),
        decreases i_max - i,
    {
        proof {
            lemma_grid_coord_bound(i as int, width as int, side as int);
        }
        let x_base: i64 = i * side;
        proof {
            assert(2 * i * jm == 2 * (i * jm + 0)) by (nonlinear_arith) {}
        }
        let mut j: i64 = 0;
        while j < j_max
            invariant
                0 <= j <= j_max,
                0 <= i < i_max,
                i_max == spec_i_max(width as int, side as int),
                j_max == spec_j_max(height as int, side as int),
                jm == j_max as int,
                3 <= i_max,
                3 <= j_max,
                th == spec_tri_height(side as int),
                SIN_60_FX <= th <= side,
                half == side as int / 2,
                1 <= width <= FX_CANVAS_MAX,
                1 <= height <= FX_CANVAS_MAX,
                FX_ONE <= side <= FX_CANVAS_MAX,
                x_base == i * side,
                0 <= x_base <= width + GRID_MARGIN * side,
                cells@.len() == 2 * (i * jm + j),
                forall|k: int| 0 <= k < cells@.len() ==> cells@[k] == spec_cell_at(k, jm,
                    side as int),
            decreases j_max - j,
        {
            proof {
                lemma_grid_coord_bound(j as int, height as int, th as int);
            }
            let x: i64 = if j % 2 == 0 {
                x_base - half
            } else {
                x_base
            };
            let y: i64 = j * th;
            let anchor = Vec2 { x, y };
            let ghost k0 = cells@.len() as int;
            proof {
                assert(k0 == (i * jm + j) * 2) by (nonlinear_arith)
                    requires
                        k0 == 2 * (i * jm + j),
                    {}
                vstd::arithmetic::div_mod::lemma_fundamental_div_mod_converse_div(k0, 2,
                    i * jm + j, 0);
                vstd::arithmetic::div_mod::lemma_fundamental_div_mod_converse_mod(k0, 2,
                    i * jm + j, 0);
                vstd::arithmetic::div_mod::lemma_fundamental_div_mod_converse_div(k0 + 1, 2,
                    i * jm + j, 1);
                vstd::arithmetic::div_mod::lemma_fundamental_div_mod_converse_mod(k0 + 1, 2,
                    i * jm + j, 1);
                vstd::arithmetic::div_mod::lemma_fundamental_div_mod_converse_div(
                    i * jm + j, jm, i as int, j as int);
                vstd::arithmetic::div_mod::lemma_fundamental_div_mod_converse_mod(
                    i * jm + j, jm, i as int, j as int);
            }
            cells.push(GridCell { i: i as u32, j: j as u32, anchor, orientation: Orientation::Up });
            cells.push(GridCell { i: i as u32, j: j as u32, anchor,
                orientation: Orientation::Down });
            proof {
                assert(cells@[k0] == spec_cell_at(k0, jm, side as int));
                assert(cells@[k0 + 1] == spec_cell_at(k0 + 1, jm, side as int));
            }
            j = j + 1;
        }
        proof {
            assert(2 * (i * jm + jm) == 2 * (i + 1) * jm) by (nonlinear_arith) {}
        }
        i = i + 1;
    }
    proof {
        assert(2 * i_max * jm == cells@.len());
    }
    cells
}

} // verus!
