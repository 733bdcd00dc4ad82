//! The computations the rendering drivers share: turning samples into
//! palette positions, gray levels and colors, and enumerating the start
//! positions of flow tails.

use vstd::prelude::*;
use crate::fixed::{FX_ONE, FX_POS_MAX, div_trunc, fx_div};
use crate::geom::Vec2;
use crate::noise::{NoiseSource, ScalarNoiseField};
use crate::palette::{Color, PaletteResolver};

verus! {

/// Largest canvas extent in whole pixels that the shading loops accept.
pub const PIXEL_MAX: u32 = 0x4000;

/// Map a sample in `[-FX_ONE, FX_ONE]` onto a palette position in
/// `[0, FX_ONE]`.
pub open spec fn spec_to_unit(v: int) -> int {
    (v + FX_ONE) / 2
}

/// Map a sample in `[-FX_ONE, FX_ONE]` onto `[0, FX_ONE]`.
pub fn to_unit(v: i64) -> (r: i64)
    requires
        -FX_ONE <= v <= FX_ONE,
    ensures
        r == spec_to_unit(v as int),
        0 <= r <= FX_ONE,
{
    (v + FX_ONE) / 2
}

/// The gray level of a sample: `(v + 1) / 2` of full brightness, clamped
/// to the largest channel value.
pub open spec fn spec_gray_of_sample(v: int) -> int {
    let g = div_trunc((v + FX_ONE) * 128, FX_ONE as int);
    if g > 255 {
        255
    } else {
        g
    }
}

/// The gray level of a sample.
pub fn gray_of_sample(v: i64) -> (r: u8)
    requires
        -FX_ONE <= v <= FX_ONE,
    ensures
        r == spec_gray_of_sample(v as int),
{
    let scaled: i64 = fx_div((v + FX_ONE) * 128, FX_ONE);
    proof {
        vstd::arithmetic::div_mod::lemma_div_pos_is_pos((v + FX_ONE) * 128, FX_ONE as int);
        vstd::arithmetic::div_mod::lemma_div_is_ordered((v + FX_ONE) * 128, 2 * FX_ONE * 128,
            FX_ONE as int);
        vstd::arithmetic::div_mod::lemma_div_by_multiple(256, FX_ONE as int);
        assert(2 * FX_ONE * 128 == 256 * FX_ONE) by (nonlinear_arith) {}
    }
    if scaled > 255 {
        255
    } else {
        scaled as u8
    }
}

/// The color a resolver assigns to a field sample: the sample mapped onto
/// the unit range, then resolved.
pub fn resolve_sample(resolver: &PaletteResolver, sample: i64) -> (c: Color)
    requires
        resolver.wf(),
        -FX_ONE <= sample <= FX_ONE,
    ensures
        c == resolver.spec_resolve(spec_to_unit(sample as int)),
{
    let u = to_unit(sample);
    resolver.resolve(u)
}

/// The color of one pixel of a shaded field, by pixel coordinates.
pub open spec fn spec_pixel_color<N: NoiseSource>(field: ScalarNoiseField<N>,
    resolver: PaletteResolver, x: int, y: int) -> Color {
    resolver.spec_resolve(spec_to_unit(field.spec_sample(x * FX_ONE, y * FX_ONE)))
}

/// Shade a whole canvas: one color per pixel, row-major, each pixel colored
/// by resolving the field's sample at that pixel.
pub fn shade_grid<N: NoiseSource>(field: &ScalarNoiseField<N>, resolver: &PaletteResolver,
    width: u32, height: u32) -> (pixels: Vec<Color>)
    requires
        field.wf(),
        resolver.wf(),
        1 <= width <= PIXEL_MAX,
        1 <= height <= PIXEL_MAX,
    ensures
        pixels@.len() == width * height,
        field.modeled() ==> forall|i: int|
            0 <= i < pixels@.len() ==> pixels@[i] == spec_pixel_color(*field, *resolver, i % (
            width as int), i / (width as int)),
{
    proof {
        assert((width as int) * (height as int) <= 0x1000_0000) by (nonlinear_arith)
            requires
                1 <= width <= PIXEL_MAX,
                1 <= height <= PIXEL_MAX,
            {}
    }
    let n: usize = (width as usize) * (height as usize);
    let mut pixels: Vec<Color> = Vec::new();
    let mut i: usize = 0;
    while i < n
        invariant
            0 <= i <= n,
            n == width * height,
            n <= 0x1000_0000,
            field.wf(),
            resolver.wf(),
            1 <= width <= PIXEL_MAX,
            1 <= height <= PIXEL_MAX,
            pixels@.len() == i,
            field.modeled() ==> forall|k: int|
                0 <= k < i ==> pixels@[k] == spec_pixel_color(*field, *resolver, k % (
                width as int), k / (width as int)),
        decreases n - i,
    {
        let x: u32 = (i as u32) % width;
        let y: u32 = (i as u32) / width;
        proof {
            assert(i as u32 == i);
            assert(x == (i as int) % (width as int) && y == (i as int) / (width as int));
            assert((i as int) < (width as int) * (height as int)) by (nonlinear_arith)
                requires
                    i < n,
                    n == width * height,
                {}
            vstd::arithmetic::div_mod::lemma_multiply_divide_lt(i as int, width as int,
                height as int);
            assert(x * FX_ONE <= PIXEL_MAX * FX_ONE && y * FX_ONE <= PIXEL_MAX * FX_ONE)
                by (nonlinear_arith)
                requires
                    0 <= x <= PIXEL_MAX,
                    0 <= y <= PIXEL_MAX,
                {}
        }
        let px = Vec2 { x: (x as i64) * FX_ONE, y: (y as i64) * FX_ONE };
        let sample = field.sample(px);
        let color = resolve_sample(resolver, sample);
        pixels.push(color);
        i = i + 1;
    }
    pixels
}

/// The start positions of a grid of flow tails: every `stride` pixels in
/// both directions, skipping the canvas edge row and column.
pub fn tail_grid(width: i64, height: i64, stride: i64) -> (anchors: Vec<Vec2>)
    requires
        1 <= stride <= FX_POS_MAX,
        0 <= width <= FX_POS_MAX,
        0 <= height <= FX_POS_MAX,
    ensures
        ({
            let ni = if width / stride >= 1 { width / stride - 1 } else { 0 };
            let nj = if height / stride >= 1 { height / stride - 1 } else { 0 };
            &&& anchors@.len() == ni * nj
            &&& forall|k: int|
                0 <= k < anchors@.len() ==> (#[trigger] anchors@[k]).x == (k / (nj as int) + 1) * stride
                    && anchors@[k].y == (k % (nj as int) + 1) * stride
        }),
{
    let qi: i64 = fx_div(width, stride);
    let qj: i64 = fx_div(height, stride);
    let ni: i64 = if qi >= 1 { qi - 1 } else { 0 };
    let nj: i64 = if qj >= 1 { qj - 1 } else { 0 };
    let mut anchors: Vec<Vec2> = Vec::new();
    if nj == 0 {
        proof {
            assert(ni * nj == 0) by (nonlinear_arith)
                requires
                    nj == 0,
                {}
        }
        return anchors;
    }
    proof {
        vstd::arithmetic::div_mod::lemma_remainder_lower(width as int, stride as int);
        vstd::arithmetic::div_mod::lemma_remainder_lower(height as int, stride as int);
        assert(ni * stride <= (width as int / stride as int) * stride) by (nonlinear_arith)
            requires
                0 <= ni <= width as int / stride as int,
                stride >= 1,
            {}
        assert(nj * stride <= (height as int / stride as int) * stride) by (nonlinear_arith)
            requires
                0 <= nj <= height as int / stride as int,
                stride >= 1,
            {}
    }
    let mut i: i64 = 1;
    while i <= ni
        invariant
            1 <= i <= ni + 1,
            0 < nj <= FX_POS_MAX,
            0 <= ni <= FX_POS_MAX,
            1 <= stride <= FX_POS_MAX,
            ni * stride <= FX_POS_MAX,
            nj * stride <= FX_POS_MAX,
            anchors@.len() == (i - 1) * nj,
            forall|k: int|
                0 <= k < anchors@.len() ==> (#[trigger] anchors@[k]).x == (k / (nj as int) + 1) * stride
                    && anchors@[k].y == (k % (nj as int) + 1) * stride,
        decreases ni + 1 - i,
    {
        let mut j: i64 = 1;
        while j <= nj
            invariant
                1 <= j <= nj + 1,
                1 <= i <= ni,
                0 < nj <= FX_POS_MAX,
                0 <= ni <= FX_POS_MAX,
                1 <= stride <= FX_POS_MAX,
                ni * stride <= FX_POS_MAX,
                nj * stride <= FX_POS_MAX,
                anchors@.len() == (i - 1) * nj + (j - 1),
                forall|k: int|
                    0 <= k < anchors@.len() ==> (#[trigger] anchors@[k]).x == (k / (nj as int) + 1)
                        * stride && anchors@[k].y == (k % (nj as int) + 1) * stride,
            decreases nj + 1 - j,
        {
            proof {
                assert(i * stride <= FX_POS_MAX && j * stride <= FX_POS_MAX)
                    by (nonlinear_arith)
                    requires
                        1 <= i <= ni,
                        1 <= j <= nj,
                        stride >= 1,
                        ni * stride <= FX_POS_MAX,
                        nj * stride <= FX_POS_MAX,
                    {}
                let k0 = anchors@.len() as int;
                vstd::arithmetic::div_mod::lemma_fundamental_div_mod_converse_div(k0, nj as int,
                    i - 1, j - 1);
                vstd::arithmetic::div_mod::lemma_fundamental_div_mod_converse_mod(k0, nj as int,
                    i - 1, j - 1);
            }
            anchors.push(Vec2 { x: i * stride, y: j * stride });
            j = j + 1;
        }
        proof {
            assert((i - 1) * nj + nj == i * nj) by (nonlinear_arith) {}
        }
        i = i + 1;
    }
    proof {
        assert(anchors@.len() == ni * nj);
    }
    anchors
}

/// The centered circle the viewer's placeholder image shows: its center and
/// its radius, two thirds of the way to the nearer edge.
pub fn circle_params(width: i64, height: i64) -> (r: (Vec2, i64))
    requires
        0 <= width <= FX_POS_MAX,
        0 <= height <= FX_POS_MAX,
    ensures
        r.0.x == width as int / 2,
        r.0.y == height as int / 2,
        r.1 == div_trunc(if width <= height { width as int } else { height as int } * 33, 100),
{
    let cx = fx_div(width, 2);
    let cy = fx_div(height, 2);
    let m = if width <= height { width } else { height };
    let radius = fx_div(m * 33, 100);
    (Vec2 { x: cx, y: cy }, radius)
}

} // verus!
