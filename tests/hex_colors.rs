use oklch_color_picker::hex::{
    format_hex, format_hex_literal, parse_hex, parse_hex_color, parse_hex_literal, Rgba8,
};

fn rgba(r: u8, g: u8, b: u8, a: u8) -> Rgba8 {
    Rgba8 { r, g, b, a }
}

#[test]
fn hex1() {
    assert_eq!(
        parse_hex_color("#aabbcc").unwrap(),
        (rgba(170, 187, 204, 255), true)
    );
}

#[test]
fn hex2() {
    assert_eq!(
        parse_hex_color("#aabbcc00").unwrap(),
        (rgba(170, 187, 204, 0), true)
    );
}

#[test]
fn hex3() {
    assert_eq!(
        parse_hex_color("#aaa").unwrap(),
        (rgba(170, 170, 170, 255), true)
    );
}

#[test]
fn fail_hex1() {
    assert_eq!(parse_hex_color(""), None);
}

#[test]
fn fail_hex2() {
    assert_eq!(parse_hex_color("#a"), None);
}

#[test]
fn raw_hex_literal() {
    assert_eq!(
        parse_hex_literal("0x001122"),
        Some((rgba(0, 17, 34, 255), false))
    );
}

#[test]
fn raw_hex_literal_alpha() {
    assert_eq!(
        parse_hex_literal("0x33001122"),
        Some((rgba(0, 17, 34, 51), true))
    );
}

#[test]
fn short_hex_with_alpha() {
    assert_eq!(parse_hex("1234", true), Some((rgba(0x11, 0x22, 0x33, 0x44), true)));
}

#[test]
fn short_hex_refused_where_not_allowed() {
    assert_eq!(parse_hex("123", false), None);
    assert_eq!(parse_hex("1234", false), None);
}

#[test]
fn hex_upper_case_digits() {
    assert_eq!(parse_hex("AbCdEf", false), Some((rgba(0xab, 0xcd, 0xef, 255), false)));
}

#[test]
fn hex_rejects_non_digits_and_odd_lengths() {
    assert_eq!(parse_hex("abcdeg", false), None);
    assert_eq!(parse_hex("abcde", true), None);
    assert_eq!(parse_hex("-abcde", false), None);
    assert_eq!(parse_hex("", true), None);
}

#[test]
fn hex_leading_plus_reads_as_number() {
    assert_eq!(parse_hex("+abcde", false), Some((rgba(0x0a, 0xbc, 0xde, 255), false)));
    assert_eq!(parse_hex("+", true), None);
}

#[test]
fn hex_literal_needs_prefix() {
    assert_eq!(parse_hex_literal("001122"), None);
    assert_eq!(parse_hex_literal("0x"), None);
    assert_eq!(parse_hex_literal("0x123"), None);
}

#[test]
fn format_hex_short_and_long() {
    assert_eq!(format_hex(rgba(170, 187, 204, 255)), "#abc");
    assert_eq!(format_hex(rgba(170, 187, 204, 0)), "#abc0");
    assert_eq!(format_hex(rgba(1, 2, 3, 255)), "#010203");
    assert_eq!(format_hex(rgba(1, 2, 3, 128)), "#01020380");
    assert_eq!(format_hex(rgba(255, 0, 16, 255)), "#ff0010");
}

#[test]
fn format_hex_literal_alpha_first() {
    assert_eq!(format_hex_literal(rgba(0, 17, 34, 51), true), "0x33001122");
    assert_eq!(format_hex_literal(rgba(0xab, 0xcd, 0xef, 51), false), "0xABCDEF");
}

#[test]
fn hex_round_trip_examples() {
    for c in [rgba(0, 0, 0, 255), rgba(12, 200, 255, 7), rgba(17, 34, 51, 68)] {
        let text = format_hex(c);
        assert_eq!(parse_hex_color(&text), Some((c, true)));
        let lit = format_hex_literal(c, true);
        assert_eq!(parse_hex_literal(&lit), Some((c, true)));
    }
}
