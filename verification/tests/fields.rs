use noise::{NoiseFn, Simplex};
use proc_art::fixed::FX_ONE;
use proc_art::geom::Vec2;
use proc_art::noise::{ConstantSource, NoiseSource, ScalarNoiseField, VectorNoiseField};

/// A noise-crate generator adapted to fixed point: coordinates are divided
/// back to floats, the sample is clamped into [-1, 1] and floored to fixed.
struct SimplexSource {
    generator: Simplex,
}

impl NoiseSource for SimplexSource {
    fn sample(&self, x: i64, y: i64) -> i64 {
        let fx = x as f64 / FX_ONE as f64;
        let fy = y as f64 / FX_ONE as f64;
        let v = self.generator.get([fx, fy]).clamp(-1.0, 1.0);
        (v * FX_ONE as f64).floor() as i64
    }
}

fn mag_sq(v: Vec2) -> i64 {
    v.x * v.x + v.y * v.y
}

// The scalar field is bounded: samples stay in [-FX_ONE, FX_ONE] and equal
// calls return equal values.
#[test]
fn test_scalar_field_bounded_and_deterministic() {
    let field = ScalarNoiseField::new(
        SimplexSource { generator: Simplex::new(7) },
        3 * FX_ONE,
    );
    for px in [0i64, 13, 100, 4097, -250] {
        for py in [0i64, 1, 99, -4098] {
            let p = Vec2::new(px * FX_ONE, py * FX_ONE);
            let a = field.sample(p);
            let b = field.sample(p);
            assert!(-FX_ONE <= a && a <= FX_ONE);
            assert_eq!(a, b);
        }
    }
}

// A constant source is clamped into range like any other.
#[test]
fn test_constant_source_clamps() {
    let too_big = ConstantSource { value: 3 * FX_ONE };
    assert_eq!(too_big.sample(5, 9), FX_ONE);
    let too_small = ConstantSource { value: -3 * FX_ONE };
    assert_eq!(too_small.sample(5, 9), -FX_ONE);
    let plain = ConstantSource { value: 1234 };
    assert_eq!(plain.sample(-1, 44), 1234);
}

// With normalization on and no bias, a sample's magnitude is zero exactly
// when the raw field vanishes, and within rounding of one unit otherwise.
#[test]
fn test_normalized_magnitude_zero_or_one() {
    // raw field (0.457..., 0.610...): a 3-4-5 triangle scaled down
    let field = VectorNoiseField::new(
        ScalarNoiseField::new(ConstantSource { value: 30000 }, FX_ONE),
        ScalarNoiseField::new(ConstantSource { value: 40000 }, FX_ONE),
        Vec2::zero(),
        true,
    );
    let s = field.sample(Vec2::new(10 * FX_ONE, 20 * FX_ONE));
    let m = mag_sq(s);
    let one_sq = FX_ONE * FX_ONE;
    assert!(m >= one_sq - 4 * FX_ONE);
    assert!(m <= one_sq + 0x30_0000);

    // a vanishing raw field stays exactly zero
    let zero_field = VectorNoiseField::new(
        ScalarNoiseField::new(ConstantSource { value: 0 }, FX_ONE),
        ScalarNoiseField::new(ConstantSource { value: 0 }, FX_ONE),
        Vec2::zero(),
        true,
    );
    let z = zero_field.sample(Vec2::new(10 * FX_ONE, 20 * FX_ONE));
    assert_eq!(mag_sq(z), 0);
}

// The bias is added strictly after normalization: on a vanishing raw field
// the sample is exactly the bias, not a renormalized unit vector.
#[test]
fn test_bias_applied_after_normalization() {
    let bias = Vec2::new(26214, 26214); // 0.4 of a unit on each axis
    let field = VectorNoiseField::new(
        ScalarNoiseField::new(ConstantSource { value: 0 }, FX_ONE),
        ScalarNoiseField::new(ConstantSource { value: 0 }, FX_ONE),
        bias,
        true,
    );
    let s = field.sample(Vec2::new(123 * FX_ONE, 456 * FX_ONE));
    assert_eq!(s, bias);
}

// Without normalization the bias still adds onto the raw channels.
#[test]
fn test_unnormalized_sample_is_raw_plus_bias() {
    let field = VectorNoiseField::new(
        ScalarNoiseField::new(ConstantSource { value: 1000 }, FX_ONE),
        ScalarNoiseField::new(ConstantSource { value: -2000 }, FX_ONE),
        Vec2::new(5, 7),
        false,
    );
    let s = field.sample(Vec2::new(0, 0));
    assert_eq!(s, Vec2::new(1005, -1993));
}
