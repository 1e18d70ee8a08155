use vstd::prelude::*;

use crate::hex::Rgba8;
use crate::text::{decimal_text, push_decimal, push_str};

verus! {

/// The textual notations a color can be written in.
#[derive(Clone, Copy, Debug, PartialEq, Eq, Structural)]
pub enum ColorFormat {
    Hex,
    Rgb,
    Oklch,
    Hsl,
    HexLiteral,
    RawRgb,
    RawRgbFloat,
    RawRgbLinear,
    RawOklch,
}

/// Every format, in declaration order.
pub open spec fn all_formats() -> Seq<ColorFormat> {
    seq![
        ColorFormat::Hex,
        ColorFormat::Rgb,
        ColorFormat::Oklch,
        ColorFormat::Hsl,
        ColorFormat::HexLiteral,
        ColorFormat::RawRgb,
        ColorFormat::RawRgbFloat,
        ColorFormat::RawRgbLinear,
        ColorFormat::RawOklch,
    ]
}

/// Formats whose text is distinctive enough to be recognised without being told the format.
pub open spec fn auto_detectable(f: ColorFormat) -> bool {
    !(f is RawRgbLinear || f is RawOklch)
}

/// Formats with no marker of their own for a missing alpha component.
pub open spec fn explicit_alpha(f: ColorFormat) -> bool {
    f is HexLiteral || f is RawRgb || f is RawRgbFloat || f is RawRgbLinear || f is RawOklch
}

impl Default for ColorFormat {
    fn default() -> (r: Self)
        ensures
            r == ColorFormat::Hex,
    {
        ColorFormat::Hex
    }
}

impl ColorFormat {
    pub fn is_auto_detectable(&self) -> (r: bool)
        ensures
            r == auto_detectable(*self),
    {
        match self {
            ColorFormat::RawRgbLinear | ColorFormat::RawOklch => false,
            _ => true,
        }
    }

    pub fn needs_explicit_alpha(&self) -> (r: bool)
        ensures
            r == explicit_alpha(*self),
    {
        match self {
            ColorFormat::HexLiteral
            | ColorFormat::RawRgb
            | ColorFormat::RawRgbFloat
            | ColorFormat::RawRgbLinear
            | ColorFormat::RawOklch => true,
            _ => false,
        }
    }

    /// All formats, in declaration order.
    pub fn all() -> (r: Vec<ColorFormat>)
        ensures
            r@ == all_formats(),
    {
        let r = vec![
            ColorFormat::Hex,
            ColorFormat::Rgb,
            ColorFormat::Oklch,
            ColorFormat::Hsl,
            ColorFormat::HexLiteral,
            ColorFormat::RawRgb,
            ColorFormat::RawRgbFloat,
            ColorFormat::RawRgbLinear,
            ColorFormat::RawOklch,
        ];
        assert(r@ =~= all_formats());
        r
    }
}

/// The formats tried, in order, when the format of a color is not given.
pub fn unknown_format_candidates() -> (r: Vec<ColorFormat>)
    ensures
        r@ == all_formats().filter(|f: ColorFormat| auto_detectable(f)),
{
    let all = ColorFormat::all();
    let mut r: Vec<ColorFormat> = Vec::new();
    let mut i: usize = 0;
    while i < all.len()
        invariant
            all@ == all_formats(),
            i <= all@.len(),
            r@ == all@.take(i as int).filter(|f: ColorFormat| auto_detectable(f)),
        decreases all@.len() - i,
    {
        let f = all[i];
        proof {
            reveal(Seq::filter);
            assert(all@.take(i + 1).drop_last() =~= all@.take(i as int));
        }
        if f.is_auto_detectable() {
            r.push(f);
        }
        i = i + 1;
    }
    assert(all@.take(i as int) =~= all@);
    r
}

/// `, ` and the alpha in decimal where alpha is used, else nothing.
pub open spec fn raw_alpha_text(alpha: u8, use_alpha: bool) -> Seq<char> {
    if use_alpha {
        seq![',', ' '] + decimal_text(alpha as nat)
    } else {
        Seq::empty()
    }
}

/// The plain 8-bit notation: `r, g, b`, then `, a` where alpha is used.
pub open spec fn raw_rgb_text(c: Rgba8, use_alpha: bool) -> Seq<char> {
    decimal_text(c.r as nat) + seq![',', ' '] + decimal_text(c.g as nat) + seq![',', ' ']
        + decimal_text(c.b as nat) + raw_alpha_text(c.a, use_alpha)
}

pub fn raw_alpha_u8(alpha: u8, use_alpha: bool) -> (r: String)
    ensures
        r@ == raw_alpha_text(alpha, use_alpha),
{
    let mut s = String::new();
    if use_alpha {
        push_str(&mut s, ", ");
        push_decimal(&mut s, alpha as u32);
    }
    proof {
        reveal_strlit(", ");
    }
    assert(s@ =~= raw_alpha_text(alpha, use_alpha));
    s
}

pub fn format_raw_rgb(c: Rgba8, use_alpha: bool) -> (r: String)
    ensures
        r@ == raw_rgb_text(c, use_alpha),
{
    let mut s = String::new();
    push_decimal(&mut s, c.r as u32);
    push_str(&mut s, ", ");
    push_decimal(&mut s, c.g as u32);
    push_str(&mut s, ", ");
    push_decimal(&mut s, c.b as u32);
    let alpha = raw_alpha_u8(c.a, use_alpha);
    push_str(&mut s, alpha.as_str());
    proof {
        reveal_strlit(", ");
    }
    assert(s@ =~= raw_rgb_text(c, use_alpha));
    s
}

} // verus!
