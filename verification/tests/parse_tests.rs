use game_asset::parse::{checked_canvas_dims, parse_box, parse_grid, parse_hex_color, parse_size, validate_sample_rate, MAX_SAMPLE_RATE};

#[test]
fn parses_size() {
    assert_eq!(parse_size("1280x720").unwrap(), (1280, 720));
    assert!(parse_size("1280,720").is_err());
    assert!(parse_size("0x720").is_err());
}

#[test]
fn parses_box() {
    assert_eq!(parse_box("1,2,3,4").unwrap(), (1, 2, 3, 4));
    assert!(parse_box("1,2,3").is_err());
    assert!(parse_box("1,2,0,4").is_err());
}

#[test]
fn parses_grid() {
    assert_eq!(parse_grid("8x2").unwrap(), (8, 2));
    assert!(parse_grid("0x2").is_err());
}

#[test]
fn checked_canvas_dims_rejects_overflow() {
    assert!(checked_canvas_dims(70_000, 70_000, 70_000, 70_000).is_err());
    assert!(checked_canvas_dims(1, 1, u32::MAX, 1).is_err());
    assert_eq!(checked_canvas_dims(6, 3, 160, 160).unwrap(), (960, 480));
}

#[test]
fn validate_sample_rate_bounds() {
    assert!(validate_sample_rate(0).is_err());
    assert!(validate_sample_rate(u32::MAX).is_err());
    assert!(validate_sample_rate(44_100).is_ok());
    assert!(validate_sample_rate(MAX_SAMPLE_RATE).is_ok());
}

#[test]
fn hex_color_forms() {
    assert_eq!(parse_hex_color("#00ff00").unwrap(), [0, 255, 0]);
    assert_eq!(parse_hex_color("  ##A0b1C2 \n").unwrap(), [0xa0, 0xb1, 0xc2]);
    assert_eq!(parse_hex_color("#00ff0").unwrap_err().message, "color must be #RRGGBB");
    assert_eq!(parse_hex_color("#00gg00").unwrap_err().message, "invalid hex color");
}
