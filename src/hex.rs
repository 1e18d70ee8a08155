use vstd::prelude::*;
use vstd::arithmetic::div_mod::{lemma_fundamental_div_mod_converse, lemma_small_mod};
use vstd::string::StringSliceAdditionalSpecFns;
use vstd::utf8::{encode_utf8, is_ascii_chars, is_ascii_chars_encode_utf8};

use crate::text::{hex_byte_text, hex_char, push_char, push_hex_byte, push_hex_digit};

verus! {

/// An sRGB color with 8-bit channels, as written in hex notations.
#[derive(Clone, Copy, Debug, PartialEq, Eq, Structural)]
pub struct Rgba8 {
    pub r: u8,
    pub g: u8,
    pub b: u8,
    pub a: u8,
}

/// The value of an ASCII hex digit, either case.
pub open spec fn hex_digit_value(c: u8) -> Option<nat> {
    if 48 <= c <= 57 {
        Some((c - 48) as nat)
    } else if 97 <= c <= 102 {
        Some((c - 87) as nat)
    } else if 65 <= c <= 70 {
        Some((c - 55) as nat)
    } else {
        None
    }
}

pub open spec fn all_hex_digits(s: Seq<u8>) -> bool {
    forall|i: int| 0 <= i < s.len() ==> (#[trigger] hex_digit_value(s[i])) is Some
}

/// The number written by a sequence of hex digits, most significant first.
pub open spec fn hex_digits_value(s: Seq<u8>) -> nat
    decreases s.len(),
{
    if s.len() == 0 {
        0
    } else {
        16 * hex_digits_value(s.drop_last()) + hex_digit_value(s.last()).unwrap_or(0)
    }
}

/// An unsigned number in base 16: an optional `+`, then at least one hex digit.
pub open spec fn hex_number(s: Seq<u8>) -> Option<nat> {
    let digits = if s.len() > 0 && s[0] == 43 {
        s.drop_first()
    } else {
        s
    };
    if digits.len() > 0 && all_hex_digits(digits) {
        Some(hex_digits_value(digits))
    } else {
        None
    }
}

pub open spec fn pow16(n: nat) -> nat
    decreases n,
{
    if n == 0 {
        1
    } else {
        16 * pow16((n - 1) as nat)
    }
}

/// A 4-bit channel widened to 8 bits by repeating it.
pub open spec fn widen(d: nat) -> u8 {
    (d * 17) as u8
}

/// The color that a hex body of `len` characters holding the number `v` denotes,
/// and whether it carries alpha.
pub open spec fn hex_color_of(v: nat, len: nat) -> (Rgba8, bool) {
    if len == 3 {
        (Rgba8 {
            r: widen((v / 256) % 16),
            g: widen((v / 16) % 16),
            b: widen(v % 16),
            a: 255,
        }, false)
    } else if len == 4 {
        (Rgba8 {
            r: widen((v / 4096) % 16),
            g: widen((v / 256) % 16),
            b: widen((v / 16) % 16),
            a: widen(v % 16),
        }, true)
    } else if len == 6 {
        (Rgba8 {
            r: ((v / 65536) % 256) as u8,
            g: ((v / 256) % 256) as u8,
            b: (v % 256) as u8,
            a: 255,
        }, false)
    } else {
        (Rgba8 {
            r: ((v / 16777216) % 256) as u8,
            g: ((v / 65536) % 256) as u8,
            b: ((v / 256) % 256) as u8,
            a: (v % 256) as u8,
        }, true)
    }
}

/// What a hex body denotes: six or eight characters, or three or four where
/// short forms are allowed; the characters must form a hex number.
pub open spec fn hex_spec(s: Seq<u8>, allow_short: bool) -> Option<(Rgba8, bool)> {
    let ok_len = s.len() == 6 || s.len() == 8 || (allow_short && (s.len() == 3 || s.len()
        == 4));
    if ok_len && hex_number(s) is Some {
        Some(hex_color_of(hex_number(s).unwrap(), s.len()))
    } else {
        None
    }
}

fn hex_digit(c: u8) -> (r: Option<u8>)
    ensures
        r is Some <==> hex_digit_value(c) is Some,
        r is Some ==> r.unwrap() as nat == hex_digit_value(c).unwrap() && r.unwrap() < 16,
{
    if 48 <= c && c <= 57 {
        Some(c - 48)
    } else if 97 <= c && c <= 102 {
        Some(c - 87)
    } else if 65 <= c && c <= 70 {
        Some(c - 55)
    } else {
        None
    }
}

/// Reads `s[start..]`, which holds at most eight hex digits, as a number.
fn hex_digits(s: &[u8], start: usize) -> (r: Option<u32>)
    requires
        start <= s@.len(),
        s@.len() - start <= 8,
    ensures
        r is Some <==> all_hex_digits(s@.subrange(start as int, s@.len() as int)),
        r is Some ==> r.unwrap() as nat == hex_digits_value(
            s@.subrange(start as int, s@.len() as int),
        ),
{
    let mut v: u64 = 0;
    let mut i: usize = start;
    while i < s.len()
        invariant
            start <= i <= s@.len(),
            s@.len() - start <= 8,
            all_hex_digits(s@.subrange(start as int, i as int)),
            v as nat == hex_digits_value(s@.subrange(start as int, i as int)),
            v < pow16((i - start) as nat),
        decreases s@.len() - i,
    {
        let d = hex_digit(s[i]);
        match d {
            None => {
                assert(s@.subrange(start as int, s@.len() as int)[i - start] == s@[i as int]);
                return None;
            },
            Some(d) => {
                proof {
                    let prev = s@.subrange(start as int, i as int);
                    let next = s@.subrange(start as int, i + 1);
                    assert(next.drop_last() =~= prev);
                    lemma_pow16_bound((i - start) as nat);
                    let p = pow16((i - start) as nat);
                    assert(pow16((i + 1 - start) as nat) == 16 * p);
                    assert(v * 16 + d < 16 * p) by (nonlinear_arith)
                        requires
                            v < p,
                            d < 16,
                    ;
                    assert forall|k: int| 0 <= k < next.len() implies (#[trigger] hex_digit_value(
                        next[k],
                    )) is Some by {
                        if k < prev.len() {
                            assert(next[k] == prev[k]);
                        }
                    }
                }
                v = v * 16 + d as u64;
            },
        }
        i = i + 1;
    }
    proof {
        lemma_pow16_bound((i - start) as nat);
    }
    Some(v as u32)
}

proof fn lemma_pow16_bound(n: nat)
    requires
        n <= 8,
    ensures
        pow16(n) <= 0x1_0000_0000,
        n < 8 ==> pow16(n) <= 0x1000_0000,
{
    reveal_with_fuel(pow16, 9);
}

/// Reads a hex number: an optional `+`, then at most eight hex digits.
fn hex_number_exec(s: &[u8]) -> (r: Option<u32>)
    requires
        s@.len() <= 9,
        s@.len() > 0 && s@[0] == 43 || s@.len() <= 8,
    ensures
        r is Some <==> hex_number(s@) is Some,
        r is Some ==> r.unwrap() as nat == hex_number(s@).unwrap(),
{
    let start: usize = if s.len() > 0 && s[0] == 43 {
        1
    } else {
        0
    };
    if start == s.len() {
        return None;
    }
    proof {
        if start == 1 {
            assert(s@.drop_first() =~= s@.subrange(1, s@.len() as int));
        } else {
            assert(s@ =~= s@.subrange(0, s@.len() as int));
        }
    }
    hex_digits(s, start)
}

/// Reads the body of a hex color given as bytes (the part after `#` or `0x`): `RRGGBB` or
/// `RRGGBBAA`, or with `allow_short` also `RGB` or `RGBA`, each 4-bit channel
/// widened by repetition. Returns the color and whether alpha was given.
fn hex_body(s: &[u8], allow_short: bool) -> (r: Option<(Rgba8, bool)>)
    ensures
        r == hex_spec(s@, allow_short),
{
    let n = s.len();
    if !(n == 6 || n == 8 || (allow_short && (n == 3 || n == 4))) {
        return None;
    }
    match hex_number_exec(s) {
        None => None,
        Some(v) => {
            let c = if n == 3 {
                (
                    Rgba8 {
                        r: ((v / 256) % 16) as u8 * 17,
                        g: ((v / 16) % 16) as u8 * 17,
                        b: (v % 16) as u8 * 17,
                        a: 255,
                    },
                    false,
                )
            } else if n == 4 {
                (
                    Rgba8 {
                        r: ((v / 4096) % 16) as u8 * 17,
                        g: ((v / 256) % 16) as u8 * 17,
                        b: ((v / 16) % 16) as u8 * 17,
                        a: (v % 16) as u8 * 17,
                    },
                    true,
                )
            } else if n == 6 {
                (
                    Rgba8 {
                        r: ((v / 65536) % 256) as u8,
                        g: ((v / 256) % 256) as u8,
                        b: (v % 256) as u8,
                        a: 255,
                    },
                    false,
                )
            } else {
                (
                    Rgba8 {
                        r: ((v / 16777216) % 256) as u8,
                        g: ((v / 65536) % 256) as u8,
                        b: ((v / 256) % 256) as u8,
                        a: (v % 256) as u8,
                    },
                    true,
                )
            };
            Some(c)
        },
    }
}

/// Reads the body of a hex color (the part after `#` or `0x`): `RRGGBB` or
/// `RRGGBBAA`, or with `allow_short` also `RGB` or `RGBA`, each 4-bit channel
/// widened by repetition. Returns the color and whether alpha was given.
pub fn parse_hex(hex: &str, allow_short: bool) -> (r: Option<(Rgba8, bool)>)
    ensures
        r == hex_spec(hex.spec_bytes(), allow_short),
{
    hex_body(hex.as_bytes(), allow_short)
}

/// `#` followed by a hex body, short forms allowed. Alpha is always reported as in use.
pub open spec fn hex_color_spec(s: Seq<u8>) -> Option<(Rgba8, bool)> {
    if s.len() > 0 && s[0] == 35 && hex_spec(s.drop_first(), true) is Some {
        Some((hex_spec(s.drop_first(), true).unwrap().0, true))
    } else {
        None
    }
}

/// Moves alpha from the front (`AARRGGBB`) to the back.
pub open spec fn argb_to_rgba(c: Rgba8) -> Rgba8 {
    Rgba8 { r: c.g, g: c.b, b: c.a, a: c.r }
}

/// `0x` followed by `RRGGBB` or `AARRGGBB`.
pub open spec fn hex_literal_spec(s: Seq<u8>) -> Option<(Rgba8, bool)> {
    if s.len() >= 2 && s[0] == 48 && s[1] == 120 && hex_spec(s.subrange(2, s.len() as int), false) is Some {
        let (c, has_alpha) = hex_spec(s.subrange(2, s.len() as int), false).unwrap();
        Some((if has_alpha { argb_to_rgba(c) } else { c }, has_alpha))
    } else {
        None
    }
}

/// Reads a color written as `#RGB`, `#RGBA`, `#RRGGBB` or `#RRGGBBAA`.
pub fn parse_hex_color(s: &str) -> (r: Option<(Rgba8, bool)>)
    ensures
        r == hex_color_spec(s.spec_bytes()),
{
    let b = s.as_bytes();
    if b.len() == 0 || b[0] != 35 {
        return None;
    }
    let body = &b[1..b.len()];
    assert(body@ =~= b@.drop_first());
    match hex_body(body, true) {
        Some((c, _)) => Some((c, true)),
        None => None,
    }
}

/// Reads a color written as `0xRRGGBB` or `0xAARRGGBB`.
pub fn parse_hex_literal(s: &str) -> (r: Option<(Rgba8, bool)>)
    ensures
        r == hex_literal_spec(s.spec_bytes()),
{
    let b = s.as_bytes();
    if b.len() < 2 || b[0] != 48 || b[1] != 120 {
        return None;
    }
    let body = &b[2..b.len()];
    assert(body@ =~= b@.subrange(2, b@.len() as int));
    match hex_body(body, false) {
        Some((c, has_alpha)) => {
            if has_alpha {
                Some((Rgba8 { r: c.g, g: c.b, b: c.a, a: c.r }, true))
            } else {
                Some((c, false))
            }
        },
        None => None,
    }
}

/// Whether every channel is a repeated hex digit, so that one digit per channel suffices.
pub open spec fn is_short(c: Rgba8) -> bool {
    c.r % 17 == 0 && c.g % 17 == 0 && c.b % 17 == 0 && c.a % 17 == 0
}

pub open spec fn short_digit(b: u8) -> Seq<char> {
    seq![hex_char((b / 17) as nat, false)]
}

/// The CSS hex notation of a color: `#` and lower-case digits, one per channel
/// where that loses nothing, with alpha left out when it is opaque.
pub open spec fn hex_text(c: Rgba8) -> Seq<char> {
    if is_short(c) {
        seq!['#'] + short_digit(c.r) + short_digit(c.g) + short_digit(c.b) + (if c.a == 255 {
            Seq::<char>::empty()
        } else {
            short_digit(c.a)
        })
    } else {
        seq!['#'] + hex_byte_text(c.r, false) + hex_byte_text(c.g, false) + hex_byte_text(
            c.b,
            false,
        ) + (if c.a == 255 {
            Seq::<char>::empty()
        } else {
            hex_byte_text(c.a, false)
        })
    }
}

/// `0x` and upper-case digits, alpha first where it is used.
pub open spec fn hex_literal_text(c: Rgba8, use_alpha: bool) -> Seq<char> {
    seq!['0', 'x'] + (if use_alpha {
        hex_byte_text(c.a, true)
    } else {
        Seq::<char>::empty()
    }) + hex_byte_text(c.r, true) + hex_byte_text(c.g, true) + hex_byte_text(c.b, true)
}

pub fn format_hex(c: Rgba8) -> (r: String)
    ensures
        r@ == hex_text(c),
{
    let mut s = String::new();
    push_char(&mut s, '#');
    let short = c.r % 17 == 0 && c.g % 17 == 0 && c.b % 17 == 0 && c.a % 17 == 0;
    if short {
        push_hex_digit(&mut s, c.r / 17, false);
        push_hex_digit(&mut s, c.g / 17, false);
        push_hex_digit(&mut s, c.b / 17, false);
        if c.a != 255 {
            push_hex_digit(&mut s, c.a / 17, false);
        }
    } else {
        push_hex_byte(&mut s, c.r, false);
        push_hex_byte(&mut s, c.g, false);
        push_hex_byte(&mut s, c.b, false);
        if c.a != 255 {
            push_hex_byte(&mut s, c.a, false);
        }
    }
    assert(s@ =~= hex_text(c));
    s
}

pub fn format_hex_literal(c: Rgba8, use_alpha: bool) -> (r: String)
    ensures
        r@ == hex_literal_text(c, use_alpha),
{
    let mut s = String::new();
    push_char(&mut s, '0');
    push_char(&mut s, 'x');
    if use_alpha {
        push_hex_byte(&mut s, c.a, true);
    }
    push_hex_byte(&mut s, c.r, true);
    push_hex_byte(&mut s, c.g, true);
    push_hex_byte(&mut s, c.b, true);
    assert(s@ =~= hex_literal_text(c, use_alpha));
    s
}

/// The bytes of a text that holds ASCII characters only.
pub open spec fn ascii_bytes(t: Seq<char>) -> Seq<u8> {
    t.map_values(|ch: char| ch as u8)
}

proof fn lemma_hex_char(d: nat, upper: bool)
    requires
        d < 16,
    ensures
        hex_digit_value(hex_char(d, upper) as u8) == Some(d),
        '0' <= hex_char(d, upper) <= 'f',
{
}

pub proof fn lemma_ascii_encoding(t: Seq<char>)
    requires
        forall|i: int| 0 <= i < t.len() ==> ' ' <= #[trigger] t[i] <= 'x',
    ensures
        encode_utf8(t) == ascii_bytes(t),
{
    assert(is_ascii_chars(t));
    is_ascii_chars_encode_utf8(t);
    assert(encode_utf8(t) =~= ascii_bytes(t));
}

proof fn lemma_value_concat(s: Seq<u8>, t: Seq<u8>)
    ensures
        hex_digits_value(s + t) == hex_digits_value(s) * pow16(t.len()) + hex_digits_value(t),
    decreases t.len(),
{
    if t.len() == 0 {
        assert(s + t =~= s);
        assert(pow16(0) == 1);
        assert(hex_digits_value(t) == 0);
    } else {
        lemma_value_concat(s, t.drop_last());
        assert((s + t).drop_last() =~= s + t.drop_last());
        assert((s + t).last() == t.last());
        let a = hex_digits_value(s);
        let p = pow16((t.len() - 1) as nat);
        let w = hex_digits_value(t.drop_last());
        let d = hex_digit_value(t.last()).unwrap_or(0);
        assert(pow16(t.len()) == 16 * p);
        assert(hex_digits_value(t) == 16 * w + d);
        assert(hex_digits_value(s + t) == 16 * hex_digits_value(s + t.drop_last()) + d);
        assert(16 * (a * p + w) == a * (16 * p) + 16 * w) by (nonlinear_arith);
    }
}

/// The digits of a short channel.
pub open spec fn short_bytes(b: u8) -> Seq<u8> {
    ascii_bytes(short_digit(b))
}

/// The two digits of a byte.
pub open spec fn byte_bytes(b: u8, upper: bool) -> Seq<u8> {
    ascii_bytes(hex_byte_text(b, upper))
}

proof fn lemma_short_bytes(b: u8)
    ensures
        short_bytes(b).len() == 1,
        all_hex_digits(short_bytes(b)),
        short_bytes(b)[0] != 43,
        hex_digits_value(short_bytes(b)) == b / 17,
{
    lemma_hex_char((b / 17) as nat, false);
    reveal_with_fuel(hex_digits_value, 2);
    assert(short_bytes(b).drop_last() =~= Seq::<u8>::empty());
}

proof fn lemma_byte_bytes(b: u8, upper: bool)
    ensures
        byte_bytes(b, upper).len() == 2,
        all_hex_digits(byte_bytes(b, upper)),
        byte_bytes(b, upper)[0] != 43,
        hex_digits_value(byte_bytes(b, upper)) == b,
{
    lemma_hex_char((b / 16) as nat, upper);
    lemma_hex_char((b % 16) as nat, upper);
    reveal_with_fuel(hex_digits_value, 3);
    let s = byte_bytes(b, upper);
    assert(s.drop_last().drop_last() =~= Seq::<u8>::empty());
}

proof fn lemma_all_hex_concat(s: Seq<u8>, t: Seq<u8>)
    requires
        all_hex_digits(s),
        all_hex_digits(t),
    ensures
        all_hex_digits(s + t),
{
    assert forall|i: int| 0 <= i < (s + t).len() implies (#[trigger] hex_digit_value(
        (s + t)[i],
    )) is Some by {
        if i < s.len() {
            assert((s + t)[i] == s[i]);
        } else {
            assert((s + t)[i] == t[i - s.len()]);
        }
    }
}

/// Splits `x * m + y` back into `x` and `y`.
proof fn lemma_split(x: int, y: int, m: int)
    requires
        0 <= y < m,
        0 <= x,
    ensures
        (x * m + y) / m == x,
        (x * m + y) % m == y,
{
    lemma_fundamental_div_mod_converse(x * m + y, m, x, y);
}

/// Reads three base-`m` digits back out of their number.
proof fn lemma_unpack3(x0: int, x1: int, x2: int, m: int)
    requires
        0 <= x0 < m,
        0 <= x1 < m,
        0 <= x2 < m,
    ensures
        ((x0 * m + x1) * m + x2) / (m * m) % m == x0,
        ((x0 * m + x1) * m + x2) / m % m == x1,
        ((x0 * m + x1) * m + x2) % m == x2,
{
    let v = (x0 * m + x1) * m + x2;
    assert(x0 * m + x1 >= 0) by (nonlinear_arith)
        requires
            0 <= x0,
            0 <= x1,
            0 <= m,
    ;
    lemma_split(x0 * m + x1, x2, m);
    lemma_split(x0, x1, m);
    lemma_small_mod(x0 as nat, m as nat);
    vstd::arithmetic::div_mod::lemma_div_denominator(v, m, m);
}

/// Reads four base-`m` digits back out of their number.
proof fn lemma_unpack4(x0: int, x1: int, x2: int, x3: int, m: int)
    requires
        0 <= x0 < m,
        0 <= x1 < m,
        0 <= x2 < m,
        0 <= x3 < m,
    ensures
        (((x0 * m + x1) * m + x2) * m + x3) / (m * m * m) % m == x0,
        (((x0 * m + x1) * m + x2) * m + x3) / (m * m) % m == x1,
        (((x0 * m + x1) * m + x2) * m + x3) / m % m == x2,
        (((x0 * m + x1) * m + x2) * m + x3) % m == x3,
{
    let w = (x0 * m + x1) * m + x2;
    let v = w * m + x3;
    assert(w >= 0) by (nonlinear_arith)
        requires
            0 <= x0,
            0 <= x1,
            0 <= x2,
            0 <= m,
            w == (x0 * m + x1) * m + x2,
    ;
    lemma_split(w, x3, m);
    lemma_unpack3(x0, x1, x2, m);
    vstd::arithmetic::div_mod::lemma_div_denominator(v, m, m);
    vstd::arithmetic::div_mod::lemma_div_denominator(v, m, m * m);
    assert(m * (m * m) == m * m * m) by (nonlinear_arith);
}

proof fn lemma_short_round_trip(c: Rgba8)
    requires
        is_short(c),
    ensures
        hex_color_spec(encode_utf8(hex_text(c))) == Some((c, true)),
{
    let t = hex_text(c);
    reveal_with_fuel(pow16, 2);
    lemma_hex_char((c.r / 17) as nat, false);
    lemma_hex_char((c.g / 17) as nat, false);
    lemma_hex_char((c.b / 17) as nat, false);
    lemma_hex_char((c.a / 17) as nat, false);
    lemma_ascii_encoding(t);
    let body = encode_utf8(t).drop_first();
    lemma_short_bytes(c.r);
    lemma_short_bytes(c.g);
    lemma_short_bytes(c.b);
    lemma_short_bytes(c.a);
    let (r, g, b, a) = (c.r / 17, c.g / 17, c.b / 17, c.a / 17);
    let rgb = short_bytes(c.r) + short_bytes(c.g) + short_bytes(c.b);
    lemma_all_hex_concat(short_bytes(c.r), short_bytes(c.g));
    lemma_all_hex_concat(short_bytes(c.r) + short_bytes(c.g), short_bytes(c.b));
    lemma_value_concat(short_bytes(c.r), short_bytes(c.g));
    lemma_value_concat(short_bytes(c.r) + short_bytes(c.g), short_bytes(c.b));
    let v3 = (r * 16 + g) * 16 + b;
    assert(hex_digits_value(rgb) == v3);
    if c.a == 255 {
        assert(body =~= rgb);
        assert(body[0] == short_bytes(c.r)[0]);
        lemma_unpack3(r as int, g as int, b as int, 16);
        assert(hex_number(body) == Some(v3 as nat));
    } else {
        let all = rgb + short_bytes(c.a);
        lemma_all_hex_concat(rgb, short_bytes(c.a));
        lemma_value_concat(rgb, short_bytes(c.a));
        assert(body =~= all);
        assert(body[0] == short_bytes(c.r)[0]);
        lemma_unpack4(r as int, g as int, b as int, a as int, 16);
        assert(hex_number(body) == Some((v3 * 16 + a) as nat));
    }
}

proof fn lemma_long_round_trip(c: Rgba8)
    requires
        !is_short(c),
    ensures
        hex_color_spec(encode_utf8(hex_text(c))) == Some((c, true)),
{
    let t = hex_text(c);
    reveal_with_fuel(pow16, 3);
    lemma_hex_char((c.r / 16) as nat, false);
    lemma_hex_char((c.r % 16) as nat, false);
    lemma_hex_char((c.g / 16) as nat, false);
    lemma_hex_char((c.g % 16) as nat, false);
    lemma_hex_char((c.b / 16) as nat, false);
    lemma_hex_char((c.b % 16) as nat, false);
    lemma_hex_char((c.a / 16) as nat, false);
    lemma_hex_char((c.a % 16) as nat, false);
    lemma_ascii_encoding(t);
    let body = encode_utf8(t).drop_first();
    lemma_byte_bytes(c.r, false);
    lemma_byte_bytes(c.g, false);
    lemma_byte_bytes(c.b, false);
    lemma_byte_bytes(c.a, false);
    let (r, g, b, a) = (c.r as int, c.g as int, c.b as int, c.a as int);
    let rgb = byte_bytes(c.r, false) + byte_bytes(c.g, false) + byte_bytes(c.b, false);
    lemma_all_hex_concat(byte_bytes(c.r, false), byte_bytes(c.g, false));
    lemma_all_hex_concat(byte_bytes(c.r, false) + byte_bytes(c.g, false), byte_bytes(c.b, false));
    lemma_value_concat(byte_bytes(c.r, false), byte_bytes(c.g, false));
    lemma_value_concat(byte_bytes(c.r, false) + byte_bytes(c.g, false), byte_bytes(c.b, false));
    let v3 = (r * 256 + g) * 256 + b;
    assert(hex_digits_value(rgb) == v3);
    if c.a == 255 {
        assert(body =~= rgb);
        assert(body[0] == byte_bytes(c.r, false)[0]);
        lemma_unpack3(r, g, b, 256);
        assert(hex_number(body) == Some(v3 as nat));
    } else {
        let all = rgb + byte_bytes(c.a, false);
        lemma_all_hex_concat(rgb, byte_bytes(c.a, false));
        lemma_value_concat(rgb, byte_bytes(c.a, false));
        assert(body =~= all);
        assert(body[0] == byte_bytes(c.r, false)[0]);
        lemma_unpack4(r, g, b, a, 256);
        assert(hex_number(body) == Some((v3 * 256 + a) as nat));
    }
}

/// Writing a color in CSS hex notation and reading that text back gives the
/// same color, reported with alpha in use.
pub proof fn lemma_hex_round_trip(c: Rgba8)
    ensures
        hex_color_spec(encode_utf8(hex_text(c))) == Some((c, true)),
{
    if is_short(c) {
        lemma_short_round_trip(c);
    } else {
        lemma_long_round_trip(c);
    }
}

/// Writing a color as a `0x` literal and reading it back gives the same color;
/// without alpha it reads back opaque.
pub proof fn lemma_hex_literal_round_trip(c: Rgba8, use_alpha: bool)
    ensures
        hex_literal_spec(encode_utf8(hex_literal_text(c, use_alpha))) == Some(
            (if use_alpha {
                c
            } else {
                Rgba8 { a: 255, ..c }
            }, use_alpha),
        ),
{
    let t = hex_literal_text(c, use_alpha);
    reveal_with_fuel(pow16, 3);
    lemma_hex_char((c.r / 16) as nat, true);
    lemma_hex_char((c.r % 16) as nat, true);
    lemma_hex_char((c.g / 16) as nat, true);
    lemma_hex_char((c.g % 16) as nat, true);
    lemma_hex_char((c.b / 16) as nat, true);
    lemma_hex_char((c.b % 16) as nat, true);
    lemma_hex_char((c.a / 16) as nat, true);
    lemma_hex_char((c.a % 16) as nat, true);
    lemma_ascii_encoding(t);
    let bytes = encode_utf8(t);
    let body = bytes.subrange(2, bytes.len() as int);
    lemma_byte_bytes(c.r, true);
    lemma_byte_bytes(c.g, true);
    lemma_byte_bytes(c.b, true);
    lemma_byte_bytes(c.a, true);
    let (r, g, b, a) = (c.r as int, c.g as int, c.b as int, c.a as int);
    if use_alpha {
        let ar = byte_bytes(c.a, true) + byte_bytes(c.r, true);
        let arg = ar + byte_bytes(c.g, true);
        let all = arg + byte_bytes(c.b, true);
        lemma_all_hex_concat(byte_bytes(c.a, true), byte_bytes(c.r, true));
        lemma_all_hex_concat(ar, byte_bytes(c.g, true));
        lemma_all_hex_concat(arg, byte_bytes(c.b, true));
        lemma_value_concat(byte_bytes(c.a, true), byte_bytes(c.r, true));
        lemma_value_concat(ar, byte_bytes(c.g, true));
        lemma_value_concat(arg, byte_bytes(c.b, true));
        assert(body =~= all);
        assert(body[0] == byte_bytes(c.a, true)[0]);
        lemma_unpack4(a, r, g, b, 256);
        assert(hex_number(body) == Some((((a * 256 + r) * 256 + g) * 256 + b) as nat));
    } else {
        let rg = byte_bytes(c.r, true) + byte_bytes(c.g, true);
        let rgb = rg + byte_bytes(c.b, true);
        lemma_all_hex_concat(byte_bytes(c.r, true), byte_bytes(c.g, true));
        lemma_all_hex_concat(rg, byte_bytes(c.b, true));
        lemma_value_concat(byte_bytes(c.r, true), byte_bytes(c.g, true));
        lemma_value_concat(rg, byte_bytes(c.b, true));
        assert(body =~= rgb);
        assert(body[0] == byte_bytes(c.r, true)[0]);
        lemma_unpack3(r, g, b, 256);
        assert(hex_number(body) == Some(((r * 256 + g) * 256 + b) as nat));
    }
}

} // verus!
