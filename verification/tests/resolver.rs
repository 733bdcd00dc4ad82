use proc_art::fixed::FX_ONE;
use proc_art::palette::{Color, GradientStop, PaletteConfigError, PaletteResolver};

fn rgb(r: u8, g: u8, b: u8) -> Color {
    Color::from_rgba8(r, g, b, 255)
}

fn five_colors() -> Vec<Color> {
    vec![
        rgb(0, 0, 0),
        rgb(255, 0, 0),
        rgb(0, 255, 0),
        rgb(0, 0, 255),
        rgb(255, 255, 255),
    ]
}

// Discrete resolution clamps: zero hits the first color, values just below
// one hit the last, and the boundary value one clamps to the last index
// instead of running off the palette.
#[test]
fn test_discrete_resolve_edges() {
    let p = PaletteResolver::discrete(five_colors()).unwrap();
    assert_eq!(p.resolve(0), rgb(0, 0, 0));
    assert_eq!(p.resolve(FX_ONE - 1), rgb(255, 255, 255));
    assert_eq!(p.resolve(FX_ONE), rgb(255, 255, 255));
    // negative values clamp to the first color
    assert_eq!(p.resolve(-5), rgb(0, 0, 0));
    // interior values index proportionally: 0.5 of 5 colors is index 2
    assert_eq!(p.resolve(FX_ONE / 2), rgb(0, 255, 0));
}

#[test]
fn test_discrete_empty_is_config_error() {
    let r = PaletteResolver::discrete(vec![]);
    assert_eq!(r.err(), Some(PaletteConfigError::EmptyPalette));
}

#[test]
fn test_gradient_empty_is_config_error() {
    let r = PaletteResolver::gradient(vec![]);
    assert_eq!(r.err(), Some(PaletteConfigError::EmptyGradient));
}

fn three_stop_gradient() -> PaletteResolver {
    PaletteResolver::gradient(vec![
        GradientStop { color: rgb(0, 10, 200), position: 0 },
        GradientStop { color: rgb(100, 10, 100), position: FX_ONE / 2 },
        GradientStop { color: rgb(200, 210, 0), position: FX_ONE },
    ])
    .unwrap()
}

// Every stop's own position resolves to exactly that stop's color.
#[test]
fn test_gradient_hits_stops_exactly() {
    let g = three_stop_gradient();
    assert_eq!(g.resolve(0), rgb(0, 10, 200));
    assert_eq!(g.resolve(FX_ONE / 2), rgb(100, 10, 100));
    assert_eq!(g.resolve(FX_ONE), rgb(200, 210, 0));
}

// Outside the stop range the gradient clamps to the end colors.
#[test]
fn test_gradient_clamps_outside() {
    let g = three_stop_gradient();
    assert_eq!(g.resolve(-FX_ONE), rgb(0, 10, 200));
    assert_eq!(g.resolve(2 * FX_ONE), rgb(200, 210, 0));
}

// Between two stops every channel moves monotonically from the one stop's
// value toward the other's.
#[test]
fn test_gradient_monotone_between_stops() {
    let g = three_stop_gradient();
    let mut prev = g.resolve(1);
    let mut v = 1 + FX_ONE / 64;
    while v <= FX_ONE / 2 {
        let c = g.resolve(v);
        assert!(c.r >= prev.r); // 0 -> 100: rising
        assert!(c.g == 10); // 10 -> 10: constant
        assert!(c.b <= prev.b); // 200 -> 100: falling
        prev = c;
        v += FX_ONE / 64;
    }
    // the midpoint of the first bracket interpolates halfway
    let mid = g.resolve(FX_ONE / 4);
    assert_eq!(mid, rgb(50, 10, 150));
}
