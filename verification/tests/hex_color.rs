use animato::hex_color::{parse_hex_color, parse_trimmed_hex_color, HexColorError};

#[test]
fn reads_short_and_long_hex_colors() {
    assert_eq!(parse_hex_color("#fff"), Some(Ok((255, 255, 255))));
    assert_eq!(parse_hex_color(" #1a2B3c "), Some(Ok((0x1a, 0x2b, 0x3c))));
    assert_eq!(parse_hex_color("abc"), Some(Ok((0xaa, 0xbb, 0xcc))));
    assert_eq!(parse_hex_color("##000000"), Some(Ok((0, 0, 0))));
    assert_eq!(parse_hex_color("+f+f+f"), Some(Ok((15, 15, 15))));
}

#[test]
fn reports_length_and_channel_errors() {
    assert_eq!(parse_hex_color("#ff"), Some(Err(HexColorError::BadLength)));
    assert_eq!(parse_hex_color(""), Some(Err(HexColorError::BadLength)));
    assert_eq!(parse_hex_color("#gg0000"), Some(Err(HexColorError::InvalidRed)));
    assert_eq!(parse_hex_color("#00zz00"), Some(Err(HexColorError::InvalidGreen)));
    assert_eq!(parse_hex_color("#0f-"), Some(Err(HexColorError::InvalidBlue)));
    assert_eq!(parse_hex_color("#+00"), Some(Err(HexColorError::InvalidRed)));
    assert_eq!(parse_trimmed_hex_color("ééé"), Err(HexColorError::InvalidRed));
}

#[test]
fn channels_cut_inside_a_character_are_refused() {
    assert_eq!(parse_hex_color("é1"), None);
    assert_eq!(parse_hex_color("€€"), None);
}

#[test]
fn color_errors_have_messages() {
    assert_eq!(
        HexColorError::BadLength.message("#ff"),
        "expected #rgb or #rrggbb color, got `#ff`"
    );
    assert_eq!(HexColorError::InvalidRed.message("x"), "invalid red channel in `x`");
    assert_eq!(HexColorError::InvalidGreen.message("x"), "invalid green channel in `x`");
    assert_eq!(HexColorError::InvalidBlue.message("x"), "invalid blue channel in `x`");
}

#[test]
fn parses_hex() {
    assert_eq!(parse_hex_color("#0f0"), Some(Ok((0, 255, 0))));
}
