use proc_art::fixed::FX_ONE;
use proc_art::geom::Vec2;
use proc_art::noise::{ConstantSource, ScalarNoiseField};
use proc_art::palette::{Color, PaletteResolver};
use proc_art::render::{circle_params, gray_of_sample, resolve_sample, shade_grid, tail_grid,
    to_unit};

fn rgb(r: u8, g: u8, b: u8) -> Color {
    Color::from_rgba8(r, g, b, 255)
}

// The gray level of a sample: lowest at -1, mid at 0, clamped at +1.
#[test]
fn test_gray_of_sample_formula() {
    assert_eq!(gray_of_sample(-FX_ONE), 0);
    assert_eq!(gray_of_sample(0), 128);
    assert_eq!(gray_of_sample(FX_ONE), 255);
    // one half maps to three quarters of full brightness
    assert_eq!(gray_of_sample(FX_ONE / 2), 192);
}

#[test]
fn test_to_unit_maps_range() {
    assert_eq!(to_unit(-FX_ONE), 0);
    assert_eq!(to_unit(0), FX_ONE / 2);
    assert_eq!(to_unit(FX_ONE), FX_ONE);
}

// Resolving a sample maps it onto [0, 1] first: a constant zero field
// lands in the middle of the palette.
#[test]
fn test_resolve_sample_uses_unit_range() {
    let palette = vec![rgb(1, 1, 1), rgb(2, 2, 2), rgb(3, 3, 3), rgb(4, 4, 4)];
    let resolver = PaletteResolver::discrete(palette).unwrap();
    assert_eq!(resolve_sample(&resolver, 0), rgb(3, 3, 3));
    assert_eq!(resolve_sample(&resolver, -FX_ONE), rgb(1, 1, 1));
    assert_eq!(resolve_sample(&resolver, FX_ONE), rgb(4, 4, 4));
}

// Shading a canvas with a constant field gives one color everywhere, one
// entry per pixel.
#[test]
fn test_shade_grid_constant_field() {
    let field = ScalarNoiseField::new(ConstantSource { value: 0 }, FX_ONE);
    let palette = vec![rgb(9, 9, 9), rgb(7, 7, 7)];
    let resolver = PaletteResolver::discrete(palette).unwrap();
    let pixels = shade_grid(&field, &resolver, 8, 5);
    assert_eq!(pixels.len(), 40);
    for p in &pixels {
        assert_eq!(*p, rgb(7, 7, 7));
    }
}

// The tail grid: anchors every stride pixels, skipping the edges.
#[test]
fn test_tail_grid_positions() {
    let stride = 32 * FX_ONE;
    let anchors = tail_grid(800 * FX_ONE, 600 * FX_ONE, stride);
    // 800/32 = 25 columns and 600/32 = 18 rows, minus the edge each
    assert_eq!(anchors.len(), 24 * 17);
    assert_eq!(anchors[0], Vec2::new(stride, stride));
    assert_eq!(anchors[1], Vec2::new(stride, 2 * stride));
    assert_eq!(anchors[17], Vec2::new(2 * stride, stride));
    // a canvas narrower than one stride has no tails
    assert_eq!(tail_grid(20 * FX_ONE, 600 * FX_ONE, stride).len(), 0);
}

// The viewer's placeholder circle: centered, radius two thirds of the way
// to the nearer edge.
#[test]
fn test_circle_params() {
    let (center, radius) = circle_params(800 * FX_ONE, 600 * FX_ONE);
    assert_eq!(center, Vec2::new(400 * FX_ONE, 300 * FX_ONE));
    assert_eq!(radius, 600 * FX_ONE * 33 / 100);
}
