use oklch_color_picker::formats::{
    format_raw_rgb, raw_alpha_u8, unknown_format_candidates, ColorFormat,
};
use oklch_color_picker::hex::Rgba8;
use oklch_color_picker::pack_rgb;
use oklch_color_picker::programs::{shader_version, ProgramKind, RenderKind};
use oklch_color_picker::startup::{init, log, PhaseTime};
use oklch_color_picker::state::Colors;

#[test]
fn auto_detectable_formats() {
    assert_eq!(
        unknown_format_candidates(),
        vec![ColorFormat::Hex, ColorFormat::Rgb, ColorFormat::Oklch, ColorFormat::Hsl, ColorFormat::HexLiteral, ColorFormat::RawRgb, ColorFormat::RawRgbFloat]
    );
    assert!(!ColorFormat::RawOklch.is_auto_detectable());
    assert!(ColorFormat::Hex.is_auto_detectable());
}

#[test]
fn explicit_alpha_formats() {
    let with: Vec<ColorFormat> = ColorFormat::all()
        .into_iter()
        .filter(|f| f.needs_explicit_alpha())
        .collect();
    assert_eq!(
        with,
        vec![ColorFormat::HexLiteral, ColorFormat::RawRgb, ColorFormat::RawRgbFloat, ColorFormat::RawRgbLinear, ColorFormat::RawOklch]
    );
    assert_eq!(ColorFormat::default(), ColorFormat::Hex);
}

#[test]
fn raw_alpha_text() {
    assert_eq!(raw_alpha_u8(0, true), ", 0");
    assert_eq!(raw_alpha_u8(255, true), ", 255");
    assert_eq!(raw_alpha_u8(42, false), "");
}

#[test]
fn raw_rgb_text() {
    let c = Rgba8 { r: 7, g: 10, b: 200, a: 99 };
    assert_eq!(format_raw_rgb(c, false), "7, 10, 200");
    assert_eq!(format_raw_rgb(c, true), "7, 10, 200, 99");
}

#[test]
fn packed_rgb() {
    assert_eq!(pack_rgb(0x12, 0x34, 0x56), 0x123456);
    assert_eq!(pack_rgb(255, 255, 255), 0xffffff);
}

#[test]
fn program_kinds() {
    assert_eq!(
        ProgramKind::iter_all(),
        vec![
            ProgramKind::Picker(0),
            ProgramKind::Picker(1),
            ProgramKind::Slider(0),
            ProgramKind::Slider(1),
            ProgramKind::Slider(2),
            ProgramKind::Slider(3),
            ProgramKind::Final,
        ]
    );
    assert_eq!(RenderKind::all().len(), 7);
    assert_eq!(RenderKind::all()[0], RenderKind::Picker1);
}

#[test]
fn shader_versions() {
    assert_eq!(shader_version(true), "#version 300 es\n");
    assert_eq!(shader_version(false), "#version 330\n");
}

#[test]
fn startup_timer_phases() {
    let mut t = init(true, 1_000);
    assert_eq!(log(&mut t, 1_500), Some(PhaseTime { delta: 500, total: 500 }));
    assert_eq!(log(&mut t, 1_700), Some(PhaseTime { delta: 200, total: 700 }));
    assert_eq!(log(&mut t, 1_600), Some(PhaseTime { delta: 0, total: 600 }));
}

#[test]
fn startup_timer_disabled() {
    let mut t = init(false, 1_000);
    assert_eq!(log(&mut t, 5_000), None);
    assert_eq!(t, init(false, 1_000));
}

#[test]
fn colors_assign() {
    let mut c = Colors::new(3u32);
    c.assign(5, false);
    assert_eq!((c.prev_color, c.color), (3, 5));
    c.assign(9, true);
    assert_eq!((c.prev_color, c.color), (9, 5));
}
