use kumo::config::{config_path, Color, ColorParseError, Colors, MillisDuration, Search};

#[test]
fn color_channel_widths() {
    let color = Color::new(0xff, 0x00, 0x80);
    assert_eq!(color.as_u8(), [255, 0, 128, 255]);
    assert_eq!(color.as_u16(), [65535, 0, 128 * 257]);
    assert_eq!(color.as_u32(), [u32::MAX, 0, 128 * 16843009]);
}

#[test]
fn color_parse_and_print() {
    assert_eq!(Color::parse("#ff00ff"), Ok(Color::new(255, 0, 255)));
    assert_eq!(Color::parse("#00FF00"), Ok(Color::new(0, 255, 0)));
    assert_eq!(Color::parse("#1a2b3c").unwrap().to_hex_string(), "#1a2b3c");
    assert_eq!(Color::new(0, 255, 0).to_hex_string(), "#00ff00");
}

#[test]
fn color_parse_errors() {
    assert_eq!(Color::parse("ff00ff"), Err(ColorParseError::MissingHash));
    assert_eq!(Color::parse(""), Err(ColorParseError::MissingHash));
    assert_eq!(Color::parse("#fff"), Err(ColorParseError::DigitCount(3)));
    assert_eq!(Color::parse("#ff00ff00"), Err(ColorParseError::DigitCount(8)));
    assert_eq!(Color::parse("#gg00ff"), Err(ColorParseError::NonHex));
    assert_eq!(Color::parse("#-f00ff"), Err(ColorParseError::NonHex));
    // A sign is not a hexadecimal digit.
    assert_eq!(Color::parse("#+f00ff"), Err(ColorParseError::NonHex));
    assert_eq!(Color::parse("#+fffff"), Err(ColorParseError::NonHex));
    assert_eq!(Color::parse("#ff00fg"), Err(ColorParseError::NonHex));
}

#[test]
fn color_text_round_trip_examples() {
    for color in [Color::new(0, 0, 0), Color::new(1, 2, 3), Color::new(255, 254, 16)] {
        assert_eq!(Color::parse(&color.to_hex_string()), Ok(color));
    }
}

#[test]
fn default_colors_and_search() {
    let colors = Colors::default();
    assert_eq!(colors.foreground, Color::new(255, 255, 255));
    assert_eq!(colors.background, Color::new(24, 24, 24));
    assert_eq!(colors.highlight, Color::new(117, 42, 42));
    assert_eq!(colors.disabled, Color::new(102, 102, 102));
    assert_eq!(Search::default().uri, "https://duckduckgo.com/?q=");
}

#[test]
fn millis_duration_text() {
    assert_eq!(MillisDuration::from_millis(0).to_text(), "0");
    assert_eq!(MillisDuration::from_millis(250).to_text(), "250");
    assert_eq!(MillisDuration::from_millis(u64::MAX).to_text(), u64::MAX.to_string());
    assert_eq!(MillisDuration::from_millis(42).as_millis(), 42);
}

#[test]
fn option_paths_split_on_dots() {
    assert_eq!(config_path("colors.fg"), vec!["colors".to_string(), "fg".to_string()]);
    assert_eq!(config_path("font"), vec!["font".to_string()]);
    assert_eq!(config_path("a..b"), vec!["a".to_string(), String::new(), "b".to_string()]);
}
