use oklch_color_picker::css::{
    is_float_literal, parse_css_hsl, parse_css_oklch, parse_css_rgb, split_float_components,
    AngleUnit, CssColor, CssValue,
};

fn value(s: &str, start: usize, end: usize) -> f32 {
    lexical_parse_float::parse::parse_complete::<
        f32,
        { lexical_parse_float::format::JAVASCRIPT_LITERAL },
    >(&s.as_bytes()[start..end], &Default::default())
    .unwrap()
}

fn number(s: &str, v: CssValue) -> f32 {
    match v {
        CssValue::Number { start, end } => value(s, start, end),
        other => panic!("not a plain number: {other:?}"),
    }
}

fn percent(s: &str, v: CssValue) -> f32 {
    match v {
        CssValue::Percent { start, end } => value(s, start, end),
        other => panic!("not a percentage: {other:?}"),
    }
}

fn floats(s: &str) -> Vec<f32> {
    split_float_components(s)
        .unwrap()
        .into_iter()
        .map(|(a, b)| value(s, a, b))
        .collect()
}

#[test]
fn js_float() {
    assert!(is_float_literal("1.0"));
    assert_eq!(value("1.0", 0, 3), 1.0);
}

#[test]
fn js_float2() {
    assert!(is_float_literal("1"));
    assert_eq!(value("1", 0, 1), 1.0);
}

#[test]
fn js_float3() {
    assert!(is_float_literal(".1"));
    assert_eq!(value(".1", 0, 2), 0.1);
}

#[test]
fn js_float_fail() {
    assert!(!is_float_literal(" 1.0"));
}

#[test]
fn js_float_fail2() {
    assert!(!is_float_literal("1.0 "));
}

#[test]
fn float_literal_edges() {
    assert!(is_float_literal("12."));
    assert!(!is_float_literal("."));
    assert!(!is_float_literal(""));
    assert!(!is_float_literal("1.2.3"));
    assert!(!is_float_literal("-1"));
}

#[test]
fn components() {
    assert_eq!(floats("1,0.5,1."), vec![1., 0.5, 1.]);
}

#[test]
fn components2() {
    assert_eq!(floats("1, 0.5 , 1. , 0.5"), vec![1., 0.5, 1., 0.5]);
}

#[test]
fn raw_rgb_float1() {
    assert_eq!(floats("0,.1,1.,0.2"), vec![0.0, 0.1, 1.0, 0.2]);
}

#[test]
fn raw_rgb_float2() {
    assert_eq!(floats("0,.1,1."), vec![0.0, 0.1, 1.0]);
}

#[test]
fn raw_rgb_float3() {
    assert_eq!(floats("0.0,     0.5,   0.8"), vec![0.0, 0.5, 0.8]);
}

#[test]
fn fail_raw_rgb_float1() {
    assert_eq!(split_float_components("0.0 0.5, 0.8"), None);
}

#[test]
fn fail_raw_rgb_float2() {
    assert_eq!(split_float_components("0"), None);
}

#[test]
fn fail_raw_rgb_float3() {
    assert_eq!(split_float_components("0, 0"), None);
}

#[test]
fn fail_raw_rgb_float4() {
    assert_eq!(split_float_components("0, 0, 0, 0, 0"), None);
}

#[test]
fn float_component_spans() {
    assert_eq!(split_float_components("1, .5,\t2."), Some(vec![(0, 1), (3, 5), (7, 9)]));
}

#[test]
fn rgb1() {
    let s = "rgb(170 187 204)";
    let c = parse_css_rgb(s).unwrap();
    assert_eq!(
        [number(s, c.first), number(s, c.second), number(s, c.third)],
        [170., 187., 204.]
    );
    assert_eq!(c.alpha, None);
}

#[test]
fn rgb2() {
    let s = "rgb(170 187 204 / 0.0)";
    let c = parse_css_rgb(s).unwrap();
    assert_eq!(
        [number(s, c.first), number(s, c.second), number(s, c.third)],
        [170., 187., 204.]
    );
    assert_eq!(number(s, c.alpha.unwrap()), 0.0);
}

#[test]
fn rgb3() {
    let s = "rgb(   170 187 204/.0%  )";
    let c = parse_css_rgb(s).unwrap();
    assert_eq!(
        [number(s, c.first), number(s, c.second), number(s, c.third)],
        [170., 187., 204.]
    );
    assert_eq!(percent(s, c.alpha.unwrap()), 0.0);
}

#[test]
fn fail_rgb1() {
    assert_eq!(parse_css_rgb("170 187 204"), None);
}

#[test]
fn fail_rgb2() {
    assert_eq!(parse_css_rgb("rgb(1 2)"), None);
}

#[test]
fn fail_rgb3() {
    assert_eq!(parse_css_rgb("rgb()"), None);
}

#[test]
fn fail_rgb4() {
    assert_eq!(parse_css_rgb("rgb(x 1 1%)"), None);
}

#[test]
fn rgb_legacy() {
    let s = "rgba(255, 255, 255, 0.5)";
    let c = parse_css_rgb(s).unwrap();
    assert_eq!(
        [number(s, c.first), number(s, c.second), number(s, c.third)],
        [255., 255., 255.]
    );
    assert_eq!(number(s, c.alpha.unwrap()), 0.5);
}

#[test]
fn fail_rgb_legacy_mixed_units() {
    assert_eq!(parse_css_rgb("rgb(1.0%, 1, 1)"), None);
}

#[test]
fn rgb_legacy_percentages() {
    let s = "rgb(10%,20% , 30%)";
    let c = parse_css_rgb(s).unwrap();
    assert_eq!(
        [percent(s, c.first), percent(s, c.second), percent(s, c.third)],
        [10., 20., 30.]
    );
}

#[test]
fn rgb_none_channel() {
    let c = parse_css_rgb("rgb(none 1 2)").unwrap();
    assert_eq!(c.first, CssValue::Missing);
}

#[test]
fn hsl_legacy() {
    let s = "hsla(50, 10%, 10%, 0.5)";
    let c = parse_css_hsl(s).unwrap();
    assert_eq!(number(s, c.first), 50.);
    assert_eq!([percent(s, c.second), percent(s, c.third)], [10., 10.]);
    assert_eq!(number(s, c.alpha.unwrap()), 0.5);
}

#[test]
fn hsl_legacy_needs_percentages() {
    assert_eq!(parse_css_hsl("hsl(50, 10, 10%)"), None);
}

#[test]
fn hsl_hue_units() {
    let c = parse_css_hsl("hsl(0.5turn 1 1)").unwrap();
    assert_eq!(c.first, CssValue::Angle { start: 4, end: 7, unit: AngleUnit::Turn });
    let c = parse_css_hsl("hsl(2rad, 1%, 1%)").unwrap();
    assert_eq!(c.first, CssValue::Angle { start: 4, end: 5, unit: AngleUnit::Rad });
}

#[test]
fn oklch1() {
    let s = "oklch(0.5 0.4 0.2)";
    let c = parse_css_oklch(s).unwrap();
    assert_eq!(
        [number(s, c.first), number(s, c.second), number(s, c.third)],
        [0.5, 0.4, 0.2]
    );
    assert_eq!(c.alpha, None);
}

#[test]
fn oklch2() {
    let s = "oklch( 10% 100% 150 / 20% )";
    let c = parse_css_oklch(s).unwrap();
    assert_eq!([percent(s, c.first), percent(s, c.second)], [10., 100.]);
    assert_eq!(number(s, c.third), 150.);
    assert_eq!(percent(s, c.alpha.unwrap()), 20.);
}

#[test]
fn oklch_exact_tokens() {
    assert_eq!(
        parse_css_oklch("oklch(1 none 3deg/none)"),
        Some(CssColor {
            first: CssValue::Number { start: 6, end: 7 },
            second: CssValue::Missing,
            third: CssValue::Angle { start: 13, end: 14, unit: AngleUnit::Deg },
            alpha: Some(CssValue::Missing),
        })
    );
    assert_eq!(parse_css_oklch("oklch(1 2 3) "), None);
    assert_eq!(parse_css_oklch("oklch(1,2,3)"), None);
}
