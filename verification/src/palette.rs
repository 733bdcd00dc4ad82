//! Colors and palette resolution: mapping a scalar sample to a color by
//! discrete index lookup or by gradient interpolation between stops.

use vstd::prelude::*;
use crate::fixed::{FX_ONE, div_trunc, fx_div};

verus! {

/// An RGBA color, one byte per channel.
#[derive(Clone, Copy, PartialEq, Eq, Structural, Debug)]
pub struct Color {
    pub r: u8,
    pub g: u8,
    pub b: u8,
    pub a: u8,
}

impl Color {
    pub fn from_rgba8(r: u8, g: u8, b: u8, a: u8) -> (c: Color)
        ensures
            c == (Color { r, g, b, a }),
    {
        Color { r, g, b, a }
    }
}

/// One gradient stop: a color and its fixed-point position in `[0, FX_ONE]`.
#[derive(Clone, Copy, PartialEq, Eq, Structural, Debug)]
pub struct GradientStop {
    pub color: Color,
    pub position: i64,
}

/// An empty palette or stop list is a configuration error, rejected when
/// the resolver is built, never at resolve time.
#[derive(Clone, Copy, PartialEq, Eq, Structural, Debug)]
pub enum PaletteConfigError {
    EmptyPalette,
    EmptyGradient,
}

/// Maps a scalar in `[0, FX_ONE]` to a color: either by indexing an ordered
/// palette, or by interpolating between the two gradient stops bracketing
/// the value.  Out-of-range values clamp to the nearest end.
pub enum PaletteResolver {
    Discrete { colors: Vec<Color> },
    Gradient { stops: Vec<GradientStop> },
}

/// Largest number of colors or stops a resolver accepts; keeps the index
/// arithmetic inside `i64`.
pub const PALETTE_LEN_MAX: usize = 0x10000;

/// The palette index for a value: `v * len / FX_ONE`, clamped into range.
pub open spec fn spec_discrete_index(v: int, len: int) -> int {
    let idx = div_trunc(v * len, FX_ONE as int);
    if idx < 0 {
        0
    } else if idx >= len {
        len - 1
    } else {
        idx
    }
}

/// One interpolated channel: `a` moved toward `b` by `num / den`.
pub open spec fn spec_lerp_channel(a: u8, b: u8, num: int, den: int) -> int {
    if b >= a {
        a + ((b - a) * num) / den
    } else {
        a - ((a - b) * num) / den
    }
}

/// All four channels interpolated.
pub open spec fn spec_lerp_color(ca: Color, cb: Color, num: int, den: int) -> Color {
    Color {
        r: spec_lerp_channel(ca.r, cb.r, num, den) as u8,
        g: spec_lerp_channel(ca.g, cb.g, num, den) as u8,
        b: spec_lerp_channel(ca.b, cb.b, num, den) as u8,
        a: spec_lerp_channel(ca.a, cb.a, num, den) as u8,
    }
}

/// Scan the stops from index `i`, knowing `v` lies strictly above stop `i`:
/// the first later stop at or above `v` closes the bracket; past the end,
/// the last stop's color holds.
pub open spec fn spec_gradient_seek(stops: Seq<GradientStop>, v: int, i: int) -> Color
    recommends
        0 <= i < stops.len(),
    decreases stops.len() - i,
{
    if i + 1 >= stops.len() {
        stops[stops.len() - 1].color
    } else if v <= stops[i + 1].position {
        spec_lerp_color(stops[i].color, stops[i + 1].color, v - stops[i].position, stops[i
            + 1].position - stops[i].position)
    } else {
        spec_gradient_seek(stops, v, i + 1)
    }
}

/// The color a gradient resolves a value to: clamped at both ends, and
/// interpolated inside the bracketing pair of stops otherwise.
pub open spec fn spec_gradient_resolve(stops: Seq<GradientStop>, v: int) -> Color
    recommends
        stops.len() >= 1,
{
    if v <= stops[0].position {
        stops[0].color
    } else if v >= stops[stops.len() - 1].position {
        stops[stops.len() - 1].color
    } else {
        spec_gradient_seek(stops, v, 0)
    }
}

impl PaletteResolver {
    /// Validity: non-empty, not over the size cap, and — for a gradient —
    /// stop positions inside `[0, FX_ONE]` and weakly increasing.
    pub open spec fn wf(self) -> bool {
        match self {
            PaletteResolver::Discrete { colors } => 1 <= colors@.len() <= PALETTE_LEN_MAX,
            PaletteResolver::Gradient { stops } => {
                &&& 1 <= stops@.len() <= PALETTE_LEN_MAX
                &&& forall|i: int|
                    0 <= i < stops@.len() ==> 0 <= (#[trigger] stops@[i]).position <= FX_ONE
                &&& forall|i: int, j: int|
                    0 <= i <= j < stops@.len() ==> (#[trigger] stops@[i]).position <= (
                    #[trigger] stops@[j]).position
            },
        }
    }

    /// The color `resolve` returns.
    pub open spec fn spec_resolve(self, v: int) -> Color
        recommends
            self.wf(),
    {
        match self {
            PaletteResolver::Discrete { colors } => colors@[spec_discrete_index(v,
                colors@.len() as int)],
            PaletteResolver::Gradient { stops } => spec_gradient_resolve(stops@, v),
        }
    }

    /// Build a discrete resolver.  An empty palette is a configuration
    /// error; anything else succeeds.
    pub fn discrete(colors: Vec<Color>) -> (r: Result<PaletteResolver, PaletteConfigError>)
        requires
            colors@.len() <= PALETTE_LEN_MAX,
        ensures
            colors@.len() == 0 ==> r == Err::<PaletteResolver, PaletteConfigError>(
                PaletteConfigError::EmptyPalette),
            colors@.len() > 0 ==> (r matches Ok(p) && p == (PaletteResolver::Discrete {
                colors }) && p.wf()),
    {
        if colors.len() == 0 {
            Err(PaletteConfigError::EmptyPalette)
        } else {
            Ok(PaletteResolver::Discrete { colors })
        }
    }

    /// Build a gradient resolver.  An empty stop list is a configuration
    /// error; a non-empty list of in-range, weakly increasing stops
    /// succeeds.
    pub fn gradient(stops: Vec<GradientStop>) -> (r: Result<PaletteResolver, PaletteConfigError>)
        requires
            stops@.len() <= PALETTE_LEN_MAX,
            forall|i: int| 0 <= i < stops@.len() ==> 0 <= (#[trigger] stops@[i]).position
                <= FX_ONE,
            forall|i: int, j: int|
                0 <= i <= j < stops@.len() ==> (#[trigger] stops@[i]).position <= (
                #[trigger] stops@[j]).position,
        ensures
            stops@.len() == 0 ==> r == Err::<PaletteResolver, PaletteConfigError>(
                PaletteConfigError::EmptyGradient),
            stops@.len() > 0 ==> (r matches Ok(p) && p == (PaletteResolver::Gradient { stops })
                && p.wf()),
    {
        if stops.len() == 0 {
            Err(PaletteConfigError::EmptyGradient)
        } else {
            Ok(PaletteResolver::Gradient { stops })
        }
    }

    /// Resolve a value to a color.
    pub fn resolve(&self, v: i64) -> (c: Color)
        requires
            self.wf(),
            -0x1_0000_0000 <= v <= 0x1_0000_0000,
        ensures
            c == self.spec_resolve(v as int),
    {
        match self {
            PaletteResolver::Discrete { colors } => {
                let len: i64 = colors.len() as i64;
                proof {
                    assert(-0x10_0000_0000_0000 <= v * len <= 0x10_0000_0000_0000)
                        by (nonlinear_arith)
                        requires
                            -0x1_0000_0000 <= v <= 0x1_0000_0000,
                            0 <= len <= 0x10000,
                        {}
                }
                let idx: i64 = fx_div(v * len, FX_ONE);
                let i: usize = if idx < 0 {
                    0
                } else if idx >= len {
                    (len - 1) as usize
                } else {
                    idx as usize
                };
                colors[i]
            },
            PaletteResolver::Gradient { stops } => {
                let len = stops.len();
                if v <= stops[0].position {
                    stops[0].color
                } else if v >= stops[len - 1].position {
                    stops[len - 1].color
                } else {
                    let mut i: usize = 0;
                    while i + 1 < len && stops[i + 1].position < v
                        invariant
                            stops@.len() == len,
                            1 <= len <= PALETTE_LEN_MAX,
                            0 <= i < len,
                            forall|a: int| 0 <= a < len ==> 0 <= (#[trigger] stops@[a]).position
                                <= FX_ONE,
                            v > stops@[i as int].position,
                            -0x1_0000_0000 <= v <= 0x1_0000_0000,
                            spec_gradient_seek(stops@, v as int, i as int)
                                == spec_gradient_seek(stops@, v as int, 0),
                        decreases len - i,
                    {
                        i = i + 1;
                    }
                    if i + 1 >= len {
                        stops[len - 1].color
                    } else {
                        let lo_stop = stops[i];
                        let hi_stop = stops[i + 1];
                        let num: i64 = v - lo_stop.position;
                        let den: i64 = hi_stop.position - lo_stop.position;
                        let r = lerp_channel(lo_stop.color.r, hi_stop.color.r, num, den);
                        let g = lerp_channel(lo_stop.color.g, hi_stop.color.g, num, den);
                        let b = lerp_channel(lo_stop.color.b, hi_stop.color.b, num, den);
                        let a = lerp_channel(lo_stop.color.a, hi_stop.color.a, num, den);
                        Color { r, g, b, a }
                    }
                }
            },
        }
    }
}

/// A discrete resolver clamps rather than overruns: zero resolves to the
/// first color, values just below one resolve to the last color, and the
/// boundary value one also clamps to the last color instead of indexing
/// out of range.
pub proof fn lemma_discrete_resolve_edges(p: PaletteResolver)
    requires
        p matches PaletteResolver::Discrete { .. },
        p.wf(),
    ensures
        ({
            let colors = p->colors;
            let len = colors@.len() as int;
            &&& p.spec_resolve(0) == colors@[0]
            &&& p.spec_resolve(FX_ONE - 1) == colors@[len - 1]
            &&& p.spec_resolve(FX_ONE as int) == colors@[len - 1]
        }),
{
    let colors = p->colors;
    let len = colors@.len() as int;
    vstd::arithmetic::div_mod::lemma_div_of0(FX_ONE as int);
    assert(0 * len == 0) by (nonlinear_arith) {}
    vstd::arithmetic::div_mod::lemma_div_by_multiple(len, FX_ONE as int);
    assert(FX_ONE * len == len * FX_ONE) by (nonlinear_arith) {}
    assert(spec_discrete_index(FX_ONE as int, len) == len - 1);
    assert((FX_ONE - 1) * len == (len - 1) * FX_ONE + (FX_ONE - len)) by (nonlinear_arith) {}
    vstd::arithmetic::div_mod::lemma_fundamental_div_mod_converse_div((FX_ONE - 1) * len,
        FX_ONE as int, len - 1, FX_ONE - len);
    assert(spec_discrete_index(FX_ONE - 1, len) == len - 1);
}

/// At the far end of a bracket the interpolation is exact.
proof fn lemma_lerp_channel_at_one(a: u8, b: u8, den: int)
    requires
        1 <= den,
    ensures
        spec_lerp_channel(a, b, den, den) == b,
{
    if b >= a {
        vstd::arithmetic::div_mod::lemma_div_by_multiple(b - a, den);
        assert((b - a) * den == den * (b - a)) by (nonlinear_arith) {}
    } else {
        vstd::arithmetic::div_mod::lemma_div_by_multiple(a - b, den);
        assert((a - b) * den == den * (a - b)) by (nonlinear_arith) {}
    }
}

/// Seeking from any index at or below the bracketing stop lands on the
/// bracket `(i, i + 1)` whenever `v` lies strictly above stop `i` and at
/// or below stop `i + 1`.
proof fn lemma_seek_bracket(stops: Seq<GradientStop>, v: int, j: int, i: int)
    requires
        0 <= j <= i,
        i + 1 < stops.len(),
        forall|a: int, b: int|
            0 <= a <= b < stops.len() ==> (#[trigger] stops[a]).position <= (
            #[trigger] stops[b]).position,
        v > stops[i].position,
        v <= stops[i + 1].position,
    ensures
        spec_gradient_seek(stops, v, j) == spec_lerp_color(stops[i].color, stops[i + 1].color, v
            - stops[i].position, stops[i + 1].position - stops[i].position),
    decreases i - j,
{
    if j < i {
        assert(stops[j + 1].position <= stops[i].position);
        lemma_seek_bracket(stops, v, j + 1, i);
    }
}

/// A gradient resolves every stop's own position to exactly that stop's
/// color, provided the stop positions strictly increase.
pub proof fn lemma_gradient_resolve_at_stops(p: PaletteResolver, t: int)
    requires
        p matches PaletteResolver::Gradient { .. },
        p.wf(),
        forall|a: int, b: int|
            0 <= a < b < p->stops@.len() ==> (#[trigger] p->stops@[a]).position < (
            #[trigger] p->stops@[b]).position,
        0 <= t < p->stops@.len(),
    ensures
        p.spec_resolve(p->stops@[t].position as int) == p->stops@[t].color,
{
    let stops = p->stops@;
    let len = stops.len() as int;
    let v = stops[t].position as int;
    if t == 0 {
    } else if t == len - 1 {
        assert(v >= stops[len - 1].position);
    } else {
        assert(v > stops[0].position);
        assert(v < stops[len - 1].position);
        lemma_seek_bracket(stops, v, 0, t - 1);
        let den = stops[t].position - stops[t - 1].position;
        lemma_lerp_channel_at_one(stops[t - 1].color.r, stops[t].color.r, den);
        lemma_lerp_channel_at_one(stops[t - 1].color.g, stops[t].color.g, den);
        lemma_lerp_channel_at_one(stops[t - 1].color.b, stops[t].color.b, den);
        lemma_lerp_channel_at_one(stops[t - 1].color.a, stops[t].color.a, den);
    }
}

/// Inside one bracket the resolved color is the interpolation between the
/// bracket's stops.
pub proof fn lemma_gradient_resolve_in_bracket(p: PaletteResolver, i: int, v: int)
    requires
        p matches PaletteResolver::Gradient { .. },
        p.wf(),
        0 <= i,
        i + 1 < p->stops@.len(),
        p->stops@[i].position < v,
        v <= p->stops@[i + 1].position,
        v < p->stops@[p->stops@.len() - 1].position,
    ensures
        p.spec_resolve(v) == spec_lerp_color(p->stops@[i].color, p->stops@[i + 1].color, v
            - p->stops@[i].position, p->stops@[i + 1].position - p->stops@[i].position),
{
    let stops = p->stops@;
    assert(stops[0].position <= stops[i].position);
    lemma_seek_bracket(stops, v, 0, i);
}

/// Channel interpolation is monotone in the value.
proof fn lemma_lerp_channel_monotone(a: u8, b: u8, n1: int, n2: int, den: int)
    requires
        1 <= den,
        0 <= n1 <= n2 <= den,
    ensures
        a <= b ==> spec_lerp_channel(a, b, n1, den) <= spec_lerp_channel(a, b, n2, den),
        b < a ==> spec_lerp_channel(a, b, n1, den) >= spec_lerp_channel(a, b, n2, den),
{
    if a <= b {
        assert((b - a) * n1 <= (b - a) * n2) by (nonlinear_arith)
            requires
                n1 <= n2,
                b >= a,
            {}
        vstd::arithmetic::div_mod::lemma_div_is_ordered((b - a) * n1, (b - a) * n2, den);
    } else {
        assert((a - b) * n1 <= (a - b) * n2) by (nonlinear_arith)
            requires
                n1 <= n2,
                a >= b,
            {}
        vstd::arithmetic::div_mod::lemma_div_is_ordered((a - b) * n1, (a - b) * n2, den);
    }
}

/// Between two consecutive stops, every channel of the resolved color moves
/// monotonically from the lower stop's channel toward the upper stop's.
pub proof fn lemma_gradient_monotone_in_bracket(p: PaletteResolver, i: int, v1: int, v2: int)
    requires
        p matches PaletteResolver::Gradient { .. },
        p.wf(),
        0 <= i,
        i + 1 < p->stops@.len(),
        p->stops@[i].position < v1 <= v2,
        v2 <= p->stops@[i + 1].position,
        v2 < p->stops@[p->stops@.len() - 1].position,
    ensures
        ({
            let lo = p->stops@[i].color;
            let hi = p->stops@[i + 1].color;
            let c1 = p.spec_resolve(v1);
            let c2 = p.spec_resolve(v2);
            &&& lo.r <= hi.r ==> c1.r <= c2.r
            &&& lo.r > hi.r ==> c1.r >= c2.r
            &&& lo.g <= hi.g ==> c1.g <= c2.g
            &&& lo.g > hi.g ==> c1.g >= c2.g
            &&& lo.b <= hi.b ==> c1.b <= c2.b
            &&& lo.b > hi.b ==> c1.b >= c2.b
        }),
{
    let stops = p->stops@;
    let lo = stops[i].color;
    let hi = stops[i + 1].color;
    let den = stops[i + 1].position - stops[i].position;
    lemma_gradient_resolve_in_bracket(p, i, v1);
    lemma_gradient_resolve_in_bracket(p, i, v2);
    let n1 = v1 - stops[i].position;
    let n2 = v2 - stops[i].position;
    lemma_lerp_channel_monotone(lo.r, hi.r, n1, n2, den);
    lemma_lerp_channel_monotone(lo.g, hi.g, n1, n2, den);
    lemma_lerp_channel_monotone(lo.b, hi.b, n1, n2, den);
    lemma_lerp_channel_bounds(lo.r, hi.r, n1, den);
    lemma_lerp_channel_bounds(lo.g, hi.g, n1, den);
    lemma_lerp_channel_bounds(lo.b, hi.b, n1, den);
    lemma_lerp_channel_bounds(lo.r, hi.r, n2, den);
    lemma_lerp_channel_bounds(lo.g, hi.g, n2, den);
    lemma_lerp_channel_bounds(lo.b, hi.b, n2, den);
}

/// One interpolated channel, executably.
fn lerp_channel(a: u8, b: u8, num: i64, den: i64) -> (r: u8)
    requires
        1 <= den <= 2 * FX_ONE,
        1 <= num <= den,
    ensures
        r == spec_lerp_channel(a, b, num as int, den as int),
        a <= b ==> a <= r <= b,
        b < a ==> b <= r <= a,
{
    proof {
        lemma_lerp_channel_bounds(a, b, num as int, den as int);
    }
    if b >= a {
        let d: i64 = (b - a) as i64;
        proof {
            assert(0 <= d * num <= 255 * (2 * FX_ONE)) by (nonlinear_arith)
                requires
                    0 <= d <= 255,
                    0 <= num <= 2 * FX_ONE,
                {}
        }
        let q: i64 = (d * num) / den;
        proof {
            lemma_nonneg_div_matches(d * num, den as int);
        }
        a + (q as u8)
    } else {
        let d: i64 = (a - b) as i64;
        proof {
            assert(0 <= d * num <= 255 * (2 * FX_ONE)) by (nonlinear_arith)
                requires
                    0 <= d <= 255,
                    0 <= num <= 2 * FX_ONE,
                {}
        }
        let q: i64 = (d * num) / den;
        proof {
            lemma_nonneg_div_matches(d * num, den as int);
        }
        a - (q as u8)
    }
}

/// Rust's `/` on non-negative operands agrees with Euclidean division.
proof fn lemma_nonneg_div_matches(a: int, b: int)
    requires
        a >= 0,
        b >= 1,
    ensures
        a / b >= 0,
        a / b <= a,
{
    vstd::arithmetic::div_mod::lemma_div_pos_is_pos(a, b);
    vstd::arithmetic::div_mod::lemma_div_nonincreasing(a, b);
}

/// The interpolated channel stays between its endpoints.
proof fn lemma_lerp_channel_bounds(a: u8, b: u8, num: int, den: int)
    requires
        1 <= den,
        0 <= num <= den,
    ensures
        a <= b ==> a <= spec_lerp_channel(a, b, num, den) <= b,
        b < a ==> b <= spec_lerp_channel(a, b, num, den) <= a,
{
    if a <= b {
        let d = b - a;
        assert(0 <= d * num <= d * den) by (nonlinear_arith)
            requires
                0 <= num <= den,
                d >= 0,
            {}
        vstd::arithmetic::div_mod::lemma_div_pos_is_pos(d * num, den);
        vstd::arithmetic::div_mod::lemma_div_is_ordered(d * num, d * den, den);
        vstd::arithmetic::div_mod::lemma_div_by_multiple(d, den);
        assert(d * den == den * d) by (nonlinear_arith) {}
    } else {
        let d = a - b;
        assert(0 <= d * num <= d * den) by (nonlinear_arith)
            requires
                0 <= num <= den,
                d >= 0,
            {}
        vstd::arithmetic::div_mod::lemma_div_pos_is_pos(d * num, den);
        vstd::arithmetic::div_mod::lemma_div_is_ordered(d * num, d * den, den);
        vstd::arithmetic::div_mod::lemma_div_by_multiple(d, den);
        assert(d * den == den * d) by (nonlinear_arith) {}
    }
}

} // verus!
