//! Noise fields: a generator capability, scalar and vector fields over it,
//! and the selector for the generator kinds a driver can ask for.

use vstd::prelude::*;
use crate::fixed::{FX_ONE, FX_POS_MAX, div_trunc, fx_div};
use crate::geom::{Vec2, mag_sq, spec_normalize, normalize, norm_mag_sq, lemma_normalize_unit_magnitude};

verus! {

/// Largest magnitude the bias of a vector field may have.
pub const FX_BIAS_MAX: i64 = 0x10_0000;

/// Largest magnitude a vector-field sample component may have:
/// one unit from the (possibly normalized) channels plus the bias.
pub const FX_OUT_MAX: i64 = 0x11_0000;

/// A noise generator: the capability the fields consume.  Every
/// implementation keeps its samples inside `[-FX_ONE, FX_ONE]`.
///
/// An implementation may additionally publish its mathematical model: it
/// overrides `spec_sample` with the function it computes and `obeys_model`
/// with true, and is then held to sampling exactly that function — which
/// also makes it deterministic.  Implementations written outside the
/// verifier's view (adapters over supplied generators) keep the defaults
/// and promise only the sample range.
pub trait NoiseSource {
    /// Whether `spec_sample` below is this implementation's true model.
    open spec fn obeys_model(&self) -> bool {
        false
    }

    /// The mathematical function this generator computes, where published.
    open spec fn spec_sample(&self, x: int, y: int) -> int {
        0
    }

    /// Sample the generator at a fixed-point position.
    fn sample(&self, x: i64, y: i64) -> (r: i64)
        ensures
            -FX_ONE <= r <= FX_ONE,
            self.obeys_model() ==> r == self.spec_sample(x as int, y as int),
    ;
}

/// A generator that returns the same value everywhere (clamped into range).
/// Useful as a degenerate field in tests and as the zero field.
#[derive(Clone, Copy, Debug)]
pub struct ConstantSource {
    pub value: i64,
}

impl NoiseSource for ConstantSource {
    open spec fn obeys_model(&self) -> bool {
        true
    }

    open spec fn spec_sample(&self, x: int, y: int) -> int {
        if self.value > FX_ONE {
            FX_ONE as int
        } else if self.value < -FX_ONE {
            -FX_ONE as int
        } else {
            self.value as int
        }
    }

    fn sample(&self, x: i64, y: i64) -> (r: i64) {
        if self.value > FX_ONE {
            FX_ONE
        } else if self.value < -FX_ONE {
            -FX_ONE
        } else {
            self.value
        }
    }
}

/// A scalar noise field: a generator plus a positive position scale.
/// Raw pixel coordinates are divided by `pos_scale` before sampling, so a
/// larger scale stretches the noise over more of the canvas.
pub struct ScalarNoiseField<N: NoiseSource> {
    pub source: N,
    pub pos_scale: i64,
}

impl<N: NoiseSource> ScalarNoiseField<N> {
    /// The scale must be positive; division by it is what `sample` does.
    pub open spec fn wf(self) -> bool {
        self.pos_scale >= 1
    }

    /// Whether the underlying generator publishes its model, making
    /// `spec_sample` the exact value of every sample.
    pub open spec fn modeled(self) -> bool {
        self.source.obeys_model()
    }

    /// The value `sample` returns: the generator read at `p / pos_scale`.
    pub open spec fn spec_sample(self, px: int, py: int) -> int {
        self.source.spec_sample(
            div_trunc(px * FX_ONE, self.pos_scale as int),
            div_trunc(py * FX_ONE, self.pos_scale as int),
        )
    }

    pub fn new(source: N, pos_scale: i64) -> (r: ScalarNoiseField<N>)
        requires
            pos_scale >= 1,
        ensures
            r.wf(),
            r.source == source,
            r.pos_scale == pos_scale,
    {
        ScalarNoiseField { source, pos_scale }
    }

    /// Sample the field.  The result always lies in `[-FX_ONE, FX_ONE]`;
    /// over a generator with a published model it is exactly
    /// `spec_sample` — a pure function of the field and the position, so
    /// equal calls give equal values.
    pub fn sample(&self, p: Vec2) -> (r: i64)
        requires
            self.wf(),
            -FX_POS_MAX <= p.x <= FX_POS_MAX,
            -FX_POS_MAX <= p.y <= FX_POS_MAX,
        ensures
            -FX_ONE <= r <= FX_ONE,
            self.modeled() ==> r == self.spec_sample(p.x as int, p.y as int),
    {
        let sx = fx_div(p.x * FX_ONE, self.pos_scale);
        let sy = fx_div(p.y * FX_ONE, self.pos_scale);
        self.source.sample(sx, sy)
    }
}

/// A vector noise field: two independent scalar channels, a bias added to
/// every sample, and an optional normalization of the pre-bias vector.
pub struct VectorNoiseField<N: NoiseSource> {
    pub x_channel: ScalarNoiseField<N>,
    pub y_channel: ScalarNoiseField<N>,
    pub bias: Vec2,
    pub normalize: bool,
}

impl<N: NoiseSource> VectorNoiseField<N> {
    pub open spec fn wf(self) -> bool {
        &&& self.x_channel.wf()
        &&& self.y_channel.wf()
        &&& -FX_BIAS_MAX <= self.bias.x <= FX_BIAS_MAX
        &&& -FX_BIAS_MAX <= self.bias.y <= FX_BIAS_MAX
    }

    /// Whether both channels' generators publish their models, making
    /// `spec_sample` the exact value of every sampled flow vector.
    pub open spec fn modeled(self) -> bool {
        self.x_channel.modeled() && self.y_channel.modeled()
    }

    /// The raw, pre-normalization, pre-bias vector read from the channels.
    pub open spec fn spec_raw(self, px: int, py: int) -> (int, int) {
        (self.x_channel.spec_sample(px, py), self.y_channel.spec_sample(px, py))
    }

    /// The value `sample` returns.  The raw vector is normalized first (the
    /// zero vector stays zero) and the bias is added strictly afterwards, so
    /// the bias acts as a constant drift that is never itself normalized.
    pub open spec fn spec_sample(self, px: int, py: int) -> (int, int) {
        let (rx, ry) = self.spec_raw(px, py);
        let raw = Vec2 { x: rx as i64, y: ry as i64 };
        let (nx, ny) = if self.normalize {
            spec_normalize(raw)
        } else {
            (rx, ry)
        };
        (nx + self.bias.x, ny + self.bias.y)
    }

    pub fn new(x_channel: ScalarNoiseField<N>, y_channel: ScalarNoiseField<N>, bias: Vec2,
        normalize: bool) -> (r: VectorNoiseField<N>)
        requires
            x_channel.wf(),
            y_channel.wf(),
            -FX_BIAS_MAX <= bias.x <= FX_BIAS_MAX,
            -FX_BIAS_MAX <= bias.y <= FX_BIAS_MAX,
        ensures
            r.wf(),
            r.x_channel == x_channel,
            r.y_channel == y_channel,
            r.bias == bias,
            r.normalize == normalize,
    {
        VectorNoiseField { x_channel, y_channel, bias, normalize }
    }

    /// Sample the flow vector at a position.
    pub fn sample(&self, p: Vec2) -> (r: Vec2)
        requires
            self.wf(),
            -FX_POS_MAX <= p.x <= FX_POS_MAX,
            -FX_POS_MAX <= p.y <= FX_POS_MAX,
        ensures
            -FX_OUT_MAX <= r.x <= FX_OUT_MAX,
            -FX_OUT_MAX <= r.y <= FX_OUT_MAX,
            self.modeled() ==> r.x == self.spec_sample(p.x as int, p.y as int).0 && r.y
                == self.spec_sample(p.x as int, p.y as int).1,
    {
        let rx = self.x_channel.sample(p);
        let ry = self.y_channel.sample(p);
        let raw = Vec2 { x: rx, y: ry };
        let pre = if self.normalize {
            normalize(raw)
        } else {
            raw
        };
        Vec2 { x: pre.x + self.bias.x, y: pre.y + self.bias.y }
    }
}

/// The bias is applied strictly after normalization: wherever the raw field
/// vanishes, the sampled flow vector is exactly the bias.
pub proof fn lemma_bias_after_normalization<N: NoiseSource>(f: VectorNoiseField<N>, px: int,
    py: int)
    requires
        f.spec_raw(px, py) == (0int, 0int),
    ensures
        f.spec_sample(px, py) == (f.bias.x as int, f.bias.y as int),
{
    let raw = Vec2 { x: 0i64, y: 0i64 };
    assert(mag_sq(raw) == 0);
}

/// With normalization on and no bias, a sampled flow vector has magnitude
/// zero or — up to fixed-point rounding — one, never anything in between:
/// it is exactly zero where the raw field vanishes, and otherwise its
/// squared magnitude is within rounding of `FX_ONE * FX_ONE`.
pub proof fn lemma_normalized_sample_magnitude<N: NoiseSource>(f: VectorNoiseField<N>, px: int,
    py: int)
    requires
        f.normalize,
        f.bias.x == 0,
        f.bias.y == 0,
        -FX_ONE <= f.spec_raw(px, py).0 <= FX_ONE,
        -FX_ONE <= f.spec_raw(px, py).1 <= FX_ONE,
    ensures
        ({
            let (sx, sy) = f.spec_sample(px, py);
            let raw = Vec2 { x: f.spec_raw(px, py).0 as i64, y: f.spec_raw(px, py).1 as i64 };
            &&& mag_sq(raw) == 0 ==> (sx, sy) == (0int, 0int)
            &&& mag_sq(raw) != 0 ==> sx * sx + sy * sy >= FX_ONE * FX_ONE - 4 * FX_ONE
            &&& mag_sq(raw) >= 0x100_0000 ==> sx * sx + sy * sy <= FX_ONE * FX_ONE + 0x30_0000
        }),
{
    let raw = Vec2 { x: f.spec_raw(px, py).0 as i64, y: f.spec_raw(px, py).1 as i64 };
    if mag_sq(raw) == 0 {
        assert(raw.x == 0 && raw.y == 0) by (nonlinear_arith)
            requires
                raw.x * raw.x + raw.y * raw.y == 0,
            {}
    } else {
        lemma_normalize_unit_magnitude(raw);
        assert(norm_mag_sq(raw) == ({
            let (sx, sy) = f.spec_sample(px, py);
            sx * sx + sy * sy
        }));
    }
}

/// How many generator kinds `NoiseSelector` can name.
pub const NOISE_SELECTORS_LEN: isize = 3;

/// A flat enum for selecting a noise generator kind as a configuration value.
#[derive(Debug, Clone, Copy, PartialEq, Eq, Structural)]
pub enum NoiseSelector {
    Simplex,
    Perlin,
    FbmPerlin,
}

impl NoiseSelector {
    /// The position of this kind in the selector cycle.
    pub open spec fn spec_index(self) -> int {
        match self {
            NoiseSelector::Simplex => 0,
            NoiseSelector::Perlin => 1,
            NoiseSelector::FbmPerlin => 2,
        }
    }

    /// The next kind in the cycle, wrapping at the end.
    pub fn get_next(&self) -> (r: Self)
        ensures
            r.spec_index() == (self.spec_index() + 1) % (NOISE_SELECTORS_LEN as int),
    {
        match self {
            NoiseSelector::Simplex => NoiseSelector::Perlin,
            NoiseSelector::Perlin => NoiseSelector::FbmPerlin,
            NoiseSelector::FbmPerlin => NoiseSelector::Simplex,
        }
    }

    /// The previous kind in the cycle, wrapping at the start.
    pub fn get_prev(&self) -> (r: Self)
        ensures
            r.spec_index() == (self.spec_index() + NOISE_SELECTORS_LEN - 1) % (
            NOISE_SELECTORS_LEN as int),
    {
        match self {
            NoiseSelector::Simplex => NoiseSelector::FbmPerlin,
            NoiseSelector::Perlin => NoiseSelector::Simplex,
            NoiseSelector::FbmPerlin => NoiseSelector::Perlin,
        }
    }
}

impl From<isize> for NoiseSelector {
    /// Kinds are numbered from zero; any other number maps to the default.
    fn from(idx: isize) -> (r: Self) {
        match idx {
            0 => NoiseSelector::Simplex,
            1 => NoiseSelector::Perlin,
            2 => NoiseSelector::FbmPerlin,
            _ => NoiseSelector::Perlin,
        }
    }
}

impl vstd::std_specs::convert::FromSpecImpl<isize> for NoiseSelector {
    open spec fn obeys_from_spec() -> bool {
        true
    }

    open spec fn from_spec(idx: isize) -> NoiseSelector {
        if idx == 0 {
            NoiseSelector::Simplex
        } else if idx == 1 {
            NoiseSelector::Perlin
        } else if idx == 2 {
            NoiseSelector::FbmPerlin
        } else {
            NoiseSelector::Perlin
        }
    }
}

impl Default for NoiseSelector {
    fn default() -> (r: Self)
        ensures
            r == NoiseSelector::Perlin,
    {
        NoiseSelector::Perlin
    }
}

} // verus!
