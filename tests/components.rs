use oklch_color_picker::components::parse_u8_components;
use oklch_color_picker::hex::Rgba8;

fn rgba(r: u8, g: u8, b: u8, a: u8) -> Rgba8 {
    Rgba8 { r, g, b, a }
}

#[test]
fn three_components_are_opaque() {
    assert_eq!(parse_u8_components("170,187,204"), Some((rgba(170, 187, 204, 255), false)));
}

#[test]
fn four_components_carry_alpha() {
    assert_eq!(
        parse_u8_components("1, 2 ,\t3 , 4"),
        Some((rgba(1, 2, 3, 4), true))
    );
}

#[test]
fn components_allow_leading_zeros() {
    assert_eq!(parse_u8_components("000255,0,7"), Some((rgba(255, 0, 7, 255), false)));
}

#[test]
fn components_refuse_values_over_255() {
    assert_eq!(parse_u8_components("256,0,0"), None);
    assert_eq!(parse_u8_components("1,2,3,999"), None);
}

#[test]
fn components_refuse_wrong_counts() {
    assert_eq!(parse_u8_components("0, 0"), None);
    assert_eq!(parse_u8_components("0, 0, 0, 0, 0"), None);
    assert_eq!(parse_u8_components(""), None);
}

#[test]
fn components_refuse_outer_blanks_and_other_text() {
    assert_eq!(parse_u8_components(" 1,2,3"), None);
    assert_eq!(parse_u8_components("1,2,3 "), None);
    assert_eq!(parse_u8_components("1 2, 3, 4"), None);
    assert_eq!(parse_u8_components("1,2,3,"), None);
    assert_eq!(parse_u8_components("1.0,2,3"), None);
    assert_eq!(parse_u8_components("+1,2,3"), None);
}

#[test]
fn raw_rgb_round_trip_examples() {
    use_round_trip(rgba(0, 9, 10, 255));
    use_round_trip(rgba(99, 100, 255, 0));
    use_round_trip(rgba(1, 22, 222, 128));
}

fn use_round_trip(c: Rgba8) {
    let with = oklch_color_picker::formats::format_raw_rgb(c, true);
    assert_eq!(parse_u8_components(&with), Some((c, true)));
    let without = oklch_color_picker::formats::format_raw_rgb(c, false);
    assert_eq!(parse_u8_components(&without), Some((Rgba8 { a: 255, ..c }, false)));
}
