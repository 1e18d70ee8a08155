use vstd::prelude::*;
use vstd::string::StringSliceAdditionalSpecFns;

use crate::formats::raw_rgb_text;
use crate::hex::{ascii_bytes, lemma_ascii_encoding, Rgba8};
use crate::text::{decimal_text, hex_char};
use vstd::utf8::encode_utf8;

verus! {

pub open spec fn is_blank(c: u8) -> bool {
    c == 32 || c == 9
}

pub open spec fn is_digit(c: u8) -> bool {
    48 <= c <= 57
}

/// The first position at or after `i` that does not hold a blank (space or tab).
pub open spec fn blanks_end(s: Seq<u8>, i: int) -> int
    decreases s.len() - i,
{
    if 0 <= i < s.len() && is_blank(s[i]) {
        blanks_end(s, i + 1)
    } else {
        i
    }
}

/// The first position at or after `i` that does not hold a decimal digit.
pub open spec fn digits_end(s: Seq<u8>, i: int) -> int
    decreases s.len() - i,
{
    if 0 <= i < s.len() && is_digit(s[i]) {
        digits_end(s, i + 1)
    } else {
        i
    }
}

/// The number written by a sequence of decimal digits.
pub open spec fn decimal_value(s: Seq<u8>) -> nat
    decreases s.len(),
{
    if s.len() == 0 {
        0
    } else {
        10 * decimal_value(s.drop_last()) + (s.last() - 48) as nat
    }
}

/// The numbers of `s` from position `i` to its end: a run of digits worth at
/// most 255, then either the end of the text or, while `room` more numbers are
/// allowed, blanks, a comma, blanks and the next number.
pub open spec fn numbers_from(s: Seq<u8>, i: int, room: nat) -> Option<Seq<u8>>
    decreases room,
{
    let j = digits_end(s, i);
    let v = decimal_value(s.subrange(i, j));
    if j == i || v > 255 {
        None
    } else if j == s.len() {
        Some(seq![v as u8])
    } else {
        let k = blanks_end(s, j);
        if room == 0 || k >= s.len() || s[k] != 44 {
            None
        } else {
            match numbers_from(s, blanks_end(s, k + 1), (room - 1) as nat) {
                Some(rest) => Some(seq![v as u8] + rest),
                None => None,
            }
        }
    }
}

/// Three or four comma-separated 8-bit numbers making up the whole text.
pub open spec fn u8_components(s: Seq<u8>) -> Option<Seq<u8>> {
    match numbers_from(s, 0, 3) {
        Some(vs) => if vs.len() >= 3 {
            Some(vs)
        } else {
            None
        },
        None => None,
    }
}

/// The color that three (opaque) or four 8-bit components make, and whether alpha was given.
pub open spec fn color_of_components(vs: Seq<u8>) -> (Rgba8, bool) {
    if vs.len() == 3 {
        (Rgba8 { r: vs[0], g: vs[1], b: vs[2], a: 255 }, false)
    } else {
        (Rgba8 { r: vs[0], g: vs[1], b: vs[2], a: vs[3] }, true)
    }
}

pub(crate) fn skip_blanks(s: &[u8], i: usize) -> (j: usize)
    requires
        i <= s@.len(),
    ensures
        j as int == blanks_end(s@, i as int),
        i <= j <= s@.len(),
{
    let mut j = i;
    while j < s.len() && (s[j] == 32 || s[j] == 9)
        invariant
            i <= j <= s@.len(),
            blanks_end(s@, i as int) == blanks_end(s@, j as int),
        decreases s@.len() - j,
    {
        j = j + 1;
    }
    j
}

/// Reads the digits from `i`: where they end, and their value, capped at 256.
fn read_digits(s: &[u8], i: usize) -> (r: (usize, u16))
    requires
        i <= s@.len(),
    ensures
        r.0 as int == digits_end(s@, i as int),
        i <= r.0 <= s@.len(),
        r.1 as nat == if decimal_value(s@.subrange(i as int, r.0 as int)) > 255 {
            256
        } else {
            decimal_value(s@.subrange(i as int, r.0 as int))
        },
{
    let mut j = i;
    let mut v: u16 = 0;
    while j < s.len() && 48 <= s[j] && s[j] <= 57
        invariant
            i <= j <= s@.len(),
            digits_end(s@, i as int) == digits_end(s@, j as int),
            forall|m: int| i <= m < j ==> is_digit(#[trigger] s@[m]),
            v as nat == if decimal_value(s@.subrange(i as int, j as int)) > 255 {
                256
            } else {
                decimal_value(s@.subrange(i as int, j as int))
            },
        decreases s@.len() - j,
    {
        let d = (s[j] - 48) as u16;
        proof {
            let prev = s@.subrange(i as int, j as int);
            let next = s@.subrange(i as int, j + 1);
            assert(next.drop_last() =~= prev);
            assert(next.last() == s@[j as int]);
        }
        v = if v > 255 {
            256
        } else {
            let w = v * 10 + d;
            if w > 255 {
                256
            } else {
                w
            }
        };
        j = j + 1;
    }
    (j, v)
}

fn numbers_from_exec(s: &[u8], i: usize, room: u8) -> (r: Option<Vec<u8>>)
    requires
        i <= s@.len(),
    ensures
        r is Some <==> numbers_from(s@, i as int, room as nat) is Some,
        r is Some ==> r.unwrap()@ == numbers_from(s@, i as int, room as nat).unwrap(),
    decreases room,
{
    let (j, v) = read_digits(s, i);
    if j == i || v > 255 {
        return None;
    }
    if j == s.len() {
        let r = vec![v as u8];
        assert(r@ =~= seq![v as u8]);
        return Some(r);
    }
    let k = skip_blanks(s, j);
    if room == 0 || k >= s.len() || s[k] != 44 {
        return None;
    }
    let next = skip_blanks(s, k + 1);
    match numbers_from_exec(s, next, room - 1) {
        Some(rest) => {
            let mut out = rest;
            out.insert(0, v as u8);
            assert(out@ =~= seq![v as u8] + rest@);
            Some(out)
        },
        None => None,
    }
}

/// Reads a color written as three or four comma-separated 8-bit numbers,
/// `r, g, b` or `r, g, b, a`, with blanks allowed around the commas only.
/// Returns the color and whether alpha was given.
pub fn parse_u8_components(s: &str) -> (r: Option<(Rgba8, bool)>)
    ensures
        r is Some <==> u8_components(s.spec_bytes()) is Some,
        r is Some ==> r.unwrap() == color_of_components(u8_components(s.spec_bytes()).unwrap()),
{
    let b = s.as_bytes();
    match numbers_from_exec(b, 0, 3) {
        Some(vs) => {
            if vs.len() == 3 {
                Some((Rgba8 { r: vs[0], g: vs[1], b: vs[2], a: 255 }, false))
            } else if vs.len() == 4 {
                Some((Rgba8 { r: vs[0], g: vs[1], b: vs[2], a: vs[3] }, true))
            } else {
                proof {
                    lemma_numbers_len(b@, 0, 3);
                }
                None
            }
        },
        None => None,
    }
}

proof fn lemma_numbers_len(s: Seq<u8>, i: int, room: nat)
    ensures
        numbers_from(s, i, room) is Some ==> 1 <= numbers_from(s, i, room).unwrap().len() <= room
            + 1,
    decreases room,
{
    if room > 0 {
        let j = digits_end(s, i);
        let k = blanks_end(s, j);
        lemma_numbers_len(s, blanks_end(s, k + 1), (room - 1) as nat);
    }
}

/// The bytes of a number written in decimal.
pub open spec fn decimal_bytes(n: nat) -> Seq<u8> {
    ascii_bytes(decimal_text(n))
}

/// Numbers written in decimal and joined by `, `.
pub open spec fn rendered(vals: Seq<u8>) -> Seq<u8>
    decreases vals.len(),
{
    if vals.len() <= 1 {
        if vals.len() == 1 {
            decimal_bytes(vals[0] as nat)
        } else {
            Seq::empty()
        }
    } else {
        decimal_bytes(vals[0] as nat) + seq![44u8, 32u8] + rendered(vals.drop_first())
    }
}

proof fn lemma_decimal_bytes(n: nat)
    ensures
        decimal_bytes(n).len() >= 1,
        forall|m: int| 0 <= m < decimal_bytes(n).len() ==> is_digit(#[trigger] decimal_bytes(n)[m]),
        decimal_value(decimal_bytes(n)) == n,
        forall|m: int| 0 <= m < decimal_text(n).len() ==> '0' <= #[trigger] decimal_text(n)[m] <= '9',
    decreases n,
{
    if n < 10 {
        assert(decimal_bytes(n).drop_last() =~= Seq::<u8>::empty());
        assert((hex_char(n, false) as u8) == n + 48);
        assert(decimal_bytes(n).last() == hex_char(n, false) as u8);
        assert(decimal_value(decimal_bytes(n)) == 10 * decimal_value(decimal_bytes(n).drop_last())
            + (decimal_bytes(n).last() - 48) as nat);
        assert(decimal_value(Seq::<u8>::empty()) == 0);
    } else {
        lemma_decimal_bytes(n / 10);
        let d = hex_char(n % 10, false);
        assert(decimal_text(n) == decimal_text(n / 10).push(d));
        assert(decimal_bytes(n) =~= decimal_bytes(n / 10).push(d as u8));
        assert(decimal_bytes(n).drop_last() =~= decimal_bytes(n / 10));
        assert(decimal_text(n)[decimal_text(n).len() - 1] == d);
        assert((d as u8) == n % 10 + 48);
        assert(decimal_bytes(n).last() == d as u8);
        assert(decimal_value(decimal_bytes(n)) == 10 * decimal_value(decimal_bytes(n).drop_last())
            + (decimal_bytes(n).last() - 48) as nat);
        assert(n == 10 * (n / 10) + n % 10);
        assert forall|m: int| 0 <= m < decimal_text(n).len() implies '0' <= #[trigger] decimal_text(
            n,
        )[m] <= '9' by {
            if m < decimal_text(n).len() - 1 {
                assert(decimal_text(n)[m] == decimal_text(n / 10)[m]);
            }
        }
        assert forall|m: int| 0 <= m < decimal_bytes(n).len() implies is_digit(
            #[trigger] decimal_bytes(n)[m],
        ) by {
            if m < decimal_bytes(n).len() - 1 {
                assert(decimal_bytes(n)[m] == decimal_bytes(n / 10)[m]);
            }
        }
    }
}

proof fn lemma_digits_end(s: Seq<u8>, i: int, len: int)
    requires
        0 <= i,
        0 <= len,
        i + len <= s.len(),
        forall|m: int| i <= m < i + len ==> is_digit(#[trigger] s[m]),
        i + len == s.len() || !is_digit(s[i + len]),
    ensures
        digits_end(s, i) == i + len,
    decreases len,
{
    if len > 0 {
        lemma_digits_end(s, i + 1, len - 1);
    }
}

/// Reading numbers back from their rendering gives the numbers.
proof fn lemma_numbers_rendered(s: Seq<u8>, i: int, vals: Seq<u8>, room: nat)
    requires
        0 <= i <= s.len(),
        s.subrange(i, s.len() as int) == rendered(vals),
        1 <= vals.len() <= room + 1,
    ensures
        numbers_from(s, i, room) == Some(vals),
    decreases vals.len(),
{
    let d = decimal_bytes(vals[0] as nat);
    lemma_decimal_bytes(vals[0] as nat);
    let rest = s.subrange(i, s.len() as int);
    let j = i + d.len();
    if vals.len() == 1 {
        assert(rest == d);
    } else {
        assert(rest == d + seq![44u8, 32u8] + rendered(vals.drop_first()));
        assert(rest.len() == d.len() + 2 + rendered(vals.drop_first()).len());
        assert(s[j] == rest[d.len() as int]);
        assert(s[j + 1] == rest[d.len() as int + 1]);
    }
    assert forall|m: int| i <= m < j implies is_digit(#[trigger] s[m]) by {
        assert(s[m] == rest[m - i]);
        assert(rest[m - i] == d[m - i]);
    }
    lemma_digits_end(s, i, d.len() as int);
    assert(s.subrange(i, j) =~= d);
    if vals.len() > 1 {
        let tail = vals.drop_first();
        let next = s.subrange(j + 2, s.len() as int);
        assert forall|k: int| 0 <= k < next.len() implies next[k] == rendered(tail)[k] by {
            assert(next[k] == s[j + 2 + k]);
            assert(s[j + 2 + k] == rest[d.len() + 2 + k]);
        }
        assert(next =~= rendered(tail));
        let t0 = decimal_bytes(tail[0] as nat);
        lemma_decimal_bytes(tail[0] as nat);
        if tail.len() > 1 {
            assert(rendered(tail) == t0 + seq![44u8, 32u8] + rendered(tail.drop_first()));
        }
        assert(s[j + 2] == next[0]);
        assert(next[0] == t0[0]);
        assert(blanks_end(s, j + 2) == j + 2);
        assert(blanks_end(s, j + 1) == j + 2);
        assert(blanks_end(s, j) == j);
        lemma_numbers_rendered(s, j + 2, tail, (room - 1) as nat);
        assert(seq![vals[0]] + tail =~= vals);
    }
}

pub open spec fn printable(t: Seq<char>) -> bool {
    forall|i: int| 0 <= i < t.len() ==> ' ' <= #[trigger] t[i] <= 'x'
}

proof fn lemma_printable_concat(x: Seq<char>, y: Seq<char>)
    requires
        printable(x),
        printable(y),
    ensures
        printable(x + y),
        ascii_bytes(x + y) == ascii_bytes(x) + ascii_bytes(y),
{
    assert forall|i: int| 0 <= i < (x + y).len() implies ' ' <= #[trigger] (x + y)[i] <= 'x' by {
        if i < x.len() {
            assert((x + y)[i] == x[i]);
        } else {
            assert((x + y)[i] == y[i - x.len()]);
        }
    }
    assert(ascii_bytes(x + y) =~= ascii_bytes(x) + ascii_bytes(y));
}

/// The components that a color written with or without alpha holds.
pub open spec fn component_values(c: Rgba8, use_alpha: bool) -> Seq<u8> {
    if use_alpha {
        seq![c.r, c.g, c.b, c.a]
    } else {
        seq![c.r, c.g, c.b]
    }
}

proof fn lemma_decimal_printable(n: nat)
    ensures
        printable(decimal_text(n)),
{
    lemma_decimal_bytes(n);
}

proof fn lemma_raw_rgb_bytes(c: Rgba8, use_alpha: bool)
    ensures
        printable(raw_rgb_text(c, use_alpha)),
        ascii_bytes(raw_rgb_text(c, use_alpha)) == rendered(component_values(c, use_alpha)),
{
    let sep = seq![',', ' '];
    let sb = seq![44u8, 32u8];
    let (dr, dg, db, da) = (
        decimal_text(c.r as nat),
        decimal_text(c.g as nat),
        decimal_text(c.b as nat),
        decimal_text(c.a as nat),
    );
    lemma_decimal_printable(c.r as nat);
    lemma_decimal_printable(c.g as nat);
    lemma_decimal_printable(c.b as nat);
    lemma_decimal_printable(c.a as nat);
    assert(printable(sep) && ascii_bytes(sep) == sb) by {
        assert(ascii_bytes(sep) =~= sb);
    }
    let tail = if use_alpha {
        sep + da
    } else {
        Seq::<char>::empty()
    };
    let tb = if use_alpha {
        sb + decimal_bytes(c.a as nat)
    } else {
        Seq::<u8>::empty()
    };
    assert(printable(tail) && ascii_bytes(tail) == tb) by {
        if use_alpha {
            lemma_printable_concat(sep, da);
        } else {
            assert(ascii_bytes(tail) =~= Seq::<u8>::empty());
        }
    }
    lemma_printable_concat(db, tail);
    lemma_printable_concat(sep, db + tail);
    lemma_printable_concat(dg, sep + (db + tail));
    lemma_printable_concat(sep, dg + (sep + (db + tail)));
    lemma_printable_concat(dr, sep + (dg + (sep + (db + tail))));
    assert(raw_rgb_text(c, use_alpha) =~= dr + (sep + (dg + (sep + (db + tail)))));
    lemma_rendered_values(c, use_alpha);
}

proof fn lemma_rendered_values(c: Rgba8, use_alpha: bool)
    ensures
        rendered(component_values(c, use_alpha)) == decimal_bytes(c.r as nat) + (seq![44u8, 32u8]
            + (decimal_bytes(c.g as nat) + (seq![44u8, 32u8] + (decimal_bytes(c.b as nat) + (
        if use_alpha {
            seq![44u8, 32u8] + decimal_bytes(c.a as nat)
        } else {
            Seq::<u8>::empty()
        }))))),
{
    let sb = seq![44u8, 32u8];
    let tb = if use_alpha {
        sb + decimal_bytes(c.a as nat)
    } else {
        Seq::<u8>::empty()
    };
    let vals = component_values(c, use_alpha);
    let v1 = vals.drop_first();
    let v2 = v1.drop_first();
    if use_alpha {
        assert(v2 =~= seq![c.b, c.a]);
        assert(v2.drop_first() =~= seq![c.a]);
        assert(rendered(v2.drop_first()) == decimal_bytes(c.a as nat));
    } else {
        assert(v2 =~= seq![c.b]);
    }
    assert(rendered(v2) =~= decimal_bytes(c.b as nat) + tb);
    assert(rendered(v1) == decimal_bytes(c.g as nat) + sb + rendered(v2));
    assert(rendered(vals) == decimal_bytes(c.r as nat) + sb + rendered(v1));
    assert(rendered(vals) =~= decimal_bytes(c.r as nat) + (sb + (decimal_bytes(c.g as nat) + (sb
        + (decimal_bytes(c.b as nat) + tb)))));
}

/// Writing a color as 8-bit components and reading the text back gives the
/// same color; without alpha it reads back opaque.
pub proof fn lemma_raw_rgb_round_trip(c: Rgba8, use_alpha: bool)
    ensures
        u8_components(encode_utf8(raw_rgb_text(c, use_alpha))) is Some,
        color_of_components(u8_components(encode_utf8(raw_rgb_text(c, use_alpha))).unwrap()) == (
        if use_alpha {
            c
        } else {
            Rgba8 { a: 255, ..c }
        }, use_alpha),
{
    let t = raw_rgb_text(c, use_alpha);
    lemma_raw_rgb_bytes(c, use_alpha);
    lemma_ascii_encoding(t);
    let s = encode_utf8(t);
    let vals = component_values(c, use_alpha);
    assert(s.subrange(0, s.len() as int) =~= s);
    lemma_numbers_rendered(s, 0, vals, 3);
}

} // verus!
