use noise::{NoiseFn, Simplex};
use proc_art::fixed::FX_ONE;
use proc_art::geom::Vec2;
use proc_art::integrate::{tail, walk};
use proc_art::noise::{ConstantSource, NoiseSource, ScalarNoiseField, VectorNoiseField};

struct SimplexSource {
    generator: Simplex,
}

impl NoiseSource for SimplexSource {
    fn sample(&self, x: i64, y: i64) -> i64 {
        let fx = x as f64 / FX_ONE as f64;
        let fy = y as f64 / FX_ONE as f64;
        let v = self.generator.get([fx, fy]).clamp(-1.0, 1.0);
        (v * FX_ONE as f64).floor() as i64
    }
}

fn isqrt(n: u64) -> u64 {
    let mut r = (n as f64).sqrt() as u64;
    while r * r > n {
        r -= 1;
    }
    while (r + 1) * (r + 1) <= n {
        r += 1;
    }
    r
}

fn constant_field(vx: i64, vy: i64, normalize: bool) -> VectorNoiseField<ConstantSource> {
    VectorNoiseField::new(
        ScalarNoiseField::new(ConstantSource { value: vx }, FX_ONE),
        ScalarNoiseField::new(ConstantSource { value: vy }, FX_ONE),
        Vec2::zero(),
        normalize,
    )
}

// A walk with a zero step size never advances, does not hang, and still
// emits all of its segments: 3 * n + 1 coinciding points.
#[test]
fn test_walk_zero_step_size() {
    let field = constant_field(30000, -20000, false);
    let start = Vec2::new(50 * FX_ONE, 60 * FX_ONE);
    let n: u32 = 17;
    let path = walk(&field, start, n, 0, 1000 * FX_ONE, 1000 * FX_ONE);
    assert_eq!(path.len(), (3 * n + 1) as usize);
    for p in &path {
        assert_eq!(*p, start);
    }
}

// A walk that starts off the canvas ends immediately with only its start.
#[test]
fn test_walk_exits_immediately_off_canvas() {
    let field = constant_field(FX_ONE, 0, false);
    let start = Vec2::new(-5 * FX_ONE, 10 * FX_ONE);
    let path = walk(&field, start, 100, FX_ONE, 100 * FX_ONE, 100 * FX_ONE);
    assert_eq!(path.len(), 1);
    assert_eq!(path[0], start);
}

// A walk through a constant unbiased field moves in a straight line, three
// recorded points per segment, and stops once the cursor leaves the canvas.
#[test]
fn test_walk_constant_field_steps() {
    let field = constant_field(FX_ONE, 0, false);
    let start = Vec2::new(0, 0);
    // step d * step_size / FX_ONE = 4 pixels along x per recorded point
    let path = walk(&field, start, 3, 4 * FX_ONE, 100 * FX_ONE, 100 * FX_ONE);
    assert_eq!(path.len(), 10);
    for (idx, p) in path.iter().enumerate() {
        assert_eq!(*p, Vec2::new(idx as i64 * 4 * FX_ONE, 0));
    }
}

// The single-sample tail: two points, the second displaced by the field's
// direction scaled by the tail length.
#[test]
fn test_tail_of_constant_field() {
    let field = constant_field(-FX_ONE / 2, FX_ONE / 4, false);
    let start = Vec2::new(10 * FX_ONE, 20 * FX_ONE);
    let path = tail(&field, start, 8 * FX_ONE);
    assert_eq!(path.len(), 2);
    assert_eq!(path[0], start);
    assert_eq!(path[1], Vec2::new(10 * FX_ONE - 4 * FX_ONE, 20 * FX_ONE + 2 * FX_ONE));
}

// A vanishing direction collapses the tail to a zero-length segment.
#[test]
fn test_tail_degenerate_zero_direction() {
    let field = constant_field(0, 0, false);
    let start = Vec2::new(3 * FX_ONE, 4 * FX_ONE);
    let path = tail(&field, start, 16 * FX_ONE);
    assert_eq!(path.len(), 2);
    assert_eq!(path[0], start);
    assert_eq!(path[1], start);
}

// The recorded scenario: generator seed 42, normalization on, no bias, one
// tail from (100, 100) with tail length 16.  The two-point path must be
// reproducible bit for bit from the generator's own outputs.
#[test]
fn test_tail_seed_42_reproducible() {
    let field = VectorNoiseField::new(
        ScalarNoiseField::new(SimplexSource { generator: Simplex::new(42) }, FX_ONE),
        ScalarNoiseField::new(SimplexSource { generator: Simplex::new(42) }, FX_ONE),
        Vec2::zero(),
        true,
    );
    let start = Vec2::new(100 * FX_ONE, 100 * FX_ONE);
    let path = tail(&field, start, 16 * FX_ONE);

    // the expected direction, recomputed from the generator directly
    let raw = {
        let v = Simplex::new(42).get([100.0, 100.0]).clamp(-1.0, 1.0);
        (v * FX_ONE as f64).floor() as i64
    };
    let (dx, dy) = if raw == 0 {
        (0, 0)
    } else {
        let s = (raw * raw + raw * raw) as u64;
        let m = isqrt(s) as i64;
        ((raw * FX_ONE) / m, (raw * FX_ONE) / m)
    };
    assert_eq!(path.len(), 2);
    assert_eq!(path[0], start);
    assert_eq!(path[1], Vec2::new(start.x + dx * 16, start.y + dy * 16));
}
