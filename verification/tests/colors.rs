use proc_art::hex::{parse_hex_color, parse_hex_palette, get_default_palette, ParseHexColorError};
use proc_art::palette::Color;

#[test]
fn skia_colors_test_parse_hex_palette() {
    let palette_str = "000000\nff0000\n00ff00\n0000ff\nffffff";

    let expected_colors = vec![
        Color::from_rgba8(0, 0, 0, 255),
        Color::from_rgba8(255, 0, 0, 255),
        Color::from_rgba8(0, 255, 0, 255),
        Color::from_rgba8(0, 0, 255, 255),
        Color::from_rgba8(255, 255, 255, 255),
    ];

    assert_eq!(parse_hex_palette(palette_str), Ok(expected_colors));
}

#[test]
fn skia_colors_test_parse_hex_color() {
    assert_eq!(
        parse_hex_color("000000"),
        Ok(Color::from_rgba8(0, 0, 0, 255))
    );
    assert_eq!(
        parse_hex_color("FF0000"),
        Ok(Color::from_rgba8(255, 0, 0, 255))
    );
}

#[test]
fn noise_tris_test_parse_hex_palette() {
    let palette_str = "000000\nff0000\n00ff00\n0000ff\nffffff";

    let expected_colors = vec![
        Color::from_rgba8(0, 0, 0, 255),
        Color::from_rgba8(255, 0, 0, 255),
        Color::from_rgba8(0, 255, 0, 255),
        Color::from_rgba8(0, 0, 255, 255),
        Color::from_rgba8(255, 255, 255, 255),
    ];

    assert_eq!(parse_hex_palette(palette_str), Ok(expected_colors));
}

#[test]
fn noise_tris_test_parse_hex_color() {
    assert_eq!(
        parse_hex_color("000000"),
        Ok(Color::from_rgba8(0, 0, 0, 255))
    );
    assert_eq!(
        parse_hex_color("FF0000"),
        Ok(Color::from_rgba8(255, 0, 0, 255))
    );
}

#[test]
fn test_get_default_palette() {
    let palette = get_default_palette();
    assert!(palette.len() > 0);
}

#[test]
fn test_parse_hex_color_mixed_case_and_values() {
    assert_eq!(
        parse_hex_color("8940a3"),
        Ok(Color::from_rgba8(0x89, 0x40, 0xa3, 255))
    );
    assert_eq!(
        parse_hex_color("AbCdEf"),
        Ok(Color::from_rgba8(0xab, 0xcd, 0xef, 255))
    );
}

#[test]
fn test_parse_hex_color_wrong_length() {
    let r = parse_hex_color("abcd");
    assert_eq!(
        r,
        Err(ParseHexColorError::WrongColorStringLength {
            input_str: String::from("abcd"),
            actual_length: 4,
            expected_length: 6,
        })
    );
}

#[test]
fn test_parse_hex_color_invalid_digit() {
    let r = parse_hex_color("00gg00");
    assert_eq!(
        r,
        Err(ParseHexColorError::InvalidHexDigit {
            input_str: String::from("00gg00"),
            offset: 2,
        })
    );
}

#[test]
fn test_parse_hex_palette_reports_first_bad_line() {
    let r = parse_hex_palette("000000\nshort\nffffff");
    assert_eq!(
        r,
        Err(ParseHexColorError::WrongColorStringLength {
            input_str: String::from("short"),
            actual_length: 5,
            expected_length: 6,
        })
    );
}

#[test]
fn test_parse_hex_palette_empty_and_line_endings() {
    // no lines at all
    assert_eq!(parse_hex_palette(""), Ok(vec![]));
    // a trailing newline adds no empty line; \r\n endings are accepted
    let expected = vec![
        Color::from_rgba8(0, 0, 0, 255),
        Color::from_rgba8(255, 255, 255, 255),
    ];
    assert_eq!(parse_hex_palette("000000\r\nffffff\n"), Ok(expected));
}
