use vstd::prelude::*;
use vstd::string::StringSliceAdditionalSpecFns;

use crate::components::{blanks_end, digits_end, is_digit, skip_blanks};

verus! {

/// Where a number literal as JavaScript writes it (`12`, `12.`, `12.5`, `.5`)
/// that starts at `i` ends; `i` itself where none starts there.
pub open spec fn float_end(s: Seq<u8>, i: int) -> int {
    if 0 <= i < s.len() && is_digit(s[i]) {
        let j = digits_end(s, i);
        if j < s.len() && s[j] == 46 {
            digits_end(s, j + 1)
        } else {
            j
        }
    } else if 0 <= i && i + 1 < s.len() && s[i] == 46 && is_digit(s[i + 1]) {
        digits_end(s, i + 1)
    } else {
        i
    }
}

/// The spans of the number literals of `s` from `i` to its end: a literal, then
/// either the end of the text or, while `room` more are allowed, blanks, a
/// comma, blanks and the next literal.
pub open spec fn float_fields_from(s: Seq<u8>, i: int, room: nat) -> Option<Seq<(int, int)>>
    decreases room,
{
    let j = float_end(s, i);
    if j == i {
        None
    } else if j == s.len() {
        Some(seq![(i, j)])
    } else {
        let k = blanks_end(s, j);
        if room == 0 || k >= s.len() || s[k] != 44 {
            None
        } else {
            match float_fields_from(s, blanks_end(s, k + 1), (room - 1) as nat) {
                Some(rest) => Some(seq![(i, j)] + rest),
                None => None,
            }
        }
    }
}

/// Three or four comma-separated number literals making up the whole text.
pub open spec fn float_components(s: Seq<u8>) -> Option<Seq<(int, int)>> {
    match float_fields_from(s, 0, 3) {
        Some(v) => if v.len() >= 3 {
            Some(v)
        } else {
            None
        },
        None => None,
    }
}

pub open spec fn spans_match(r: Seq<(usize, usize)>, v: Seq<(int, int)>) -> bool {
    r.len() == v.len() && forall|k: int|
        0 <= k < r.len() ==> (#[trigger] r[k]).0 as int == v[k].0 && r[k].1 as int == v[k].1
}

fn skip_digits(s: &[u8], i: usize) -> (j: usize)
    requires
        i <= s@.len(),
    ensures
        j as int == digits_end(s@, i as int),
        i <= j <= s@.len(),
{
    let mut j = i;
    while j < s.len() && 48 <= s[j] && s[j] <= 57
        invariant
            i <= j <= s@.len(),
            digits_end(s@, i as int) == digits_end(s@, j as int),
        decreases s@.len() - j,
    {
        j = j + 1;
    }
    j
}

pub(crate) fn scan_float(s: &[u8], i: usize) -> (j: usize)
    requires
        i <= s@.len(),
    ensures
        j as int == float_end(s@, i as int),
        i <= j <= s@.len(),
{
    if i < s.len() && 48 <= s[i] && s[i] <= 57 {
        let j = skip_digits(s, i);
        if j < s.len() && s[j] == 46 {
            skip_digits(s, j + 1)
        } else {
            j
        }
    } else if i < s.len() && s.len() - i > 1 && s[i] == 46 && 48 <= s[i + 1] && s[i + 1] <= 57 {
        skip_digits(s, i + 1)
    } else {
        i
    }
}

fn float_fields_exec(s: &[u8], i: usize, room: u8) -> (r: Option<Vec<(usize, usize)>>)
    requires
        i <= s@.len(),
    ensures
        r is Some <==> float_fields_from(s@, i as int, room as nat) is Some,
        r is Some ==> spans_match(r.unwrap()@, float_fields_from(s@, i as int, room as nat).unwrap()),
    decreases room,
{
    let j = scan_float(s, i);
    if j == i {
        return None;
    }
    if j == s.len() {
        let r = vec![(i, j)];
        return Some(r);
    }
    let k = skip_blanks(s, j);
    if room == 0 || k >= s.len() || s[k] != 44 {
        return None;
    }
    let next = skip_blanks(s, k + 1);
    match float_fields_exec(s, next, room - 1) {
        Some(rest) => {
            let ghost spec_rest = float_fields_from(s@, next as int, (room - 1) as nat).unwrap();
            let mut out = rest;
            out.insert(0, (i, j));
            assert forall|m: int| 0 <= m < out@.len() implies (#[trigger] out@[m]).0 as int == (
            seq![(i as int, j as int)] + spec_rest)[m].0 && out@[m].1 as int == (seq![
                (i as int, j as int),
            ] + spec_rest)[m].1 by {
                if m > 0 {
                    assert(out@[m] == rest@[m - 1]);
                }
            }
            Some(out)
        },
        None => None,
    }
}

/// Finds the three or four number literals of a comma-separated color such as
/// `0.5, .25, 1.` and returns their spans (start, end) in the text.
pub fn split_float_components(s: &str) -> (r: Option<Vec<(usize, usize)>>)
    ensures
        r is Some <==> float_components(s.spec_bytes()) is Some,
        r is Some ==> spans_match(r.unwrap()@, float_components(s.spec_bytes()).unwrap()),
{
    let b = s.as_bytes();
    match float_fields_exec(b, 0, 3) {
        Some(v) => {
            if v.len() >= 3 {
                Some(v)
            } else {
                None
            }
        },
        None => None,
    }
}

/// One value of a CSS color function, by the span of its number literal.
#[derive(Clone, Copy, Debug, PartialEq, Eq, Structural)]
pub enum CssValue {
    /// A plain number.
    Number { start: usize, end: usize },
    /// A number followed by `%`.
    Percent { start: usize, end: usize },
    /// A number followed by an angle unit (hues only).
    Angle { start: usize, end: usize, unit: AngleUnit },
    /// The keyword `none`.
    Missing,
}

#[derive(Clone, Copy, Debug, PartialEq, Eq, Structural)]
pub enum AngleUnit {
    Deg,
    Rad,
    Grad,
    Turn,
}

/// The values of a CSS color function, in the order written, and its alpha if given.
#[derive(Clone, Copy, Debug, PartialEq, Eq, Structural)]
pub struct CssColor {
    pub first: CssValue,
    pub second: CssValue,
    pub third: CssValue,
    pub alpha: Option<CssValue>,
}

/// An executable scan `r` found what the scan `v` describes, ending within the text.
pub open spec fn scanned<T>(r: Option<(T, usize)>, v: Option<(T, int)>, len: nat) -> bool {
    &&& (r is Some <==> v is Some)
    &&& r is Some ==> r.unwrap().0 == v.unwrap().0 && r.unwrap().1 as int == v.unwrap().1
        && r.unwrap().1 <= len
}

pub open spec fn lit_at(s: Seq<u8>, i: int, lit: Seq<u8>) -> bool {
    0 <= i && i + lit.len() <= s.len() && s.subrange(i, i + lit.len()) == lit
}

/// A number literal, optionally followed by `%`.
pub open spec fn num_at(s: Seq<u8>, i: int) -> Option<(CssValue, int)> {
    let j = float_end(s, i);
    if j == i {
        None
    } else if j < s.len() && s[j] == 37 {
        Some((CssValue::Percent { start: i as usize, end: j as usize }, j + 1))
    } else {
        Some((CssValue::Number { start: i as usize, end: j as usize }, j))
    }
}

/// A number literal followed by `%`.
pub open spec fn percent_at(s: Seq<u8>, i: int) -> Option<(CssValue, int)> {
    let j = float_end(s, i);
    if j > i && j < s.len() && s[j] == 37 {
        Some((CssValue::Percent { start: i as usize, end: j as usize }, j + 1))
    } else {
        None
    }
}

pub open spec fn none_word() -> Seq<u8> {
    seq![110u8, 111, 110, 101]
}

/// A number or percentage, or `none`.
pub open spec fn css_num_at(s: Seq<u8>, i: int) -> Option<(CssValue, int)> {
    if num_at(s, i) is Some {
        num_at(s, i)
    } else if lit_at(s, i, none_word()) {
        Some((CssValue::Missing, i + 4))
    } else {
        None
    }
}

/// The angle unit written at `i`, if any.
pub open spec fn unit_at(s: Seq<u8>, i: int) -> Option<(AngleUnit, int)> {
    if lit_at(s, i, seq![100u8, 101, 103]) {
        Some((AngleUnit::Deg, i + 3))
    } else if lit_at(s, i, seq![114u8, 97, 100]) {
        Some((AngleUnit::Rad, i + 3))
    } else if lit_at(s, i, seq![103u8, 114, 97, 100]) {
        Some((AngleUnit::Grad, i + 4))
    } else if lit_at(s, i, seq![116u8, 117, 114, 110]) {
        Some((AngleUnit::Turn, i + 4))
    } else {
        None
    }
}

/// A hue: a number literal, optionally followed by an angle unit.
pub open spec fn hue_at(s: Seq<u8>, i: int) -> Option<(CssValue, int)> {
    let j = float_end(s, i);
    if j == i {
        None
    } else {
        match unit_at(s, j) {
            Some((u, k)) => Some((CssValue::Angle { start: i as usize, end: j as usize, unit: u }, k)),
            None => Some((CssValue::Number { start: i as usize, end: j as usize }, j)),
        }
    }
}

/// A hue, or `none`.
pub open spec fn css_hue_at(s: Seq<u8>, i: int) -> Option<(CssValue, int)> {
    if hue_at(s, i) is Some {
        hue_at(s, i)
    } else if lit_at(s, i, none_word()) {
        Some((CssValue::Missing, i + 4))
    } else {
        None
    }
}

/// An optional alpha after blanks and the separator `sep`, followed by blanks;
/// `legacy` alphas take no `none`. Where none is given the position stays.
pub open spec fn alpha_at(s: Seq<u8>, i: int, sep: u8, legacy: bool) -> (Option<CssValue>, int) {
    let a = blanks_end(s, i);
    if a < s.len() && s[a] == sep {
        let b = blanks_end(s, a + 1);
        let v = if legacy {
            num_at(s, b)
        } else {
            css_num_at(s, b)
        };
        match v {
            Some((v, e)) => (Some(v), blanks_end(s, e)),
            None => (None, i),
        }
    } else {
        (None, i)
    }
}

/// Blanks, a comma, blanks.
pub open spec fn comma_at(s: Seq<u8>, i: int) -> Option<int> {
    let a = blanks_end(s, i);
    if a < s.len() && s[a] == 44 {
        Some(blanks_end(s, a + 1))
    } else {
        None
    }
}

/// At least one blank.
pub open spec fn space_at(s: Seq<u8>, i: int) -> Option<int> {
    if blanks_end(s, i) > i {
        Some(blanks_end(s, i))
    } else {
        None
    }
}

/// Blanks, then `)` as the last character.
pub open spec fn closes_at(s: Seq<u8>, i: int) -> bool {
    let a = blanks_end(s, i);
    a + 1 == s.len() && s[a] == 41
}

/// A value at `i`: a hue (or `none`) where `hue`, else a number, percentage or `none`.
pub open spec fn value_at(s: Seq<u8>, i: int, hue: bool) -> Option<(CssValue, int)> {
    if hue {
        css_hue_at(s, i)
    } else {
        css_num_at(s, i)
    }
}

/// The modern syntax after the opening parenthesis at `open - 1`: blanks, three
/// values separated by blanks (the first or the last a hue where asked), an
/// optional `/ alpha`, blanks and the closing parenthesis that ends the text.
pub open spec fn modern_from(s: Seq<u8>, open: int, hue_first: bool, hue_last: bool) -> Option<
    CssColor,
> {
    let p0 = blanks_end(s, open);
    match value_at(s, p0, hue_first) {
        None => None,
        Some((v0, e0)) => match space_at(s, e0) {
            None => None,
            Some(p1) => match css_num_at(s, p1) {
                None => None,
                Some((v1, e1)) => match space_at(s, e1) {
                    None => None,
                    Some(p2) => match value_at(s, p2, hue_last) {
                        None => None,
                        Some((v2, e2)) => {
                            let (a, e3) = alpha_at(s, e2, 47, false);
                            if closes_at(s, e3) {
                                Some(CssColor { first: v0, second: v1, third: v2, alpha: a })
                            } else {
                                None
                            }
                        },
                    },
                },
            },
        },
    }
}

/// The legacy syntax after the opening parenthesis: three comma-separated
/// values, an optional `, alpha`, and the closing parenthesis. For `hsl` a hue
/// and two percentages; otherwise three numbers or three percentages.
pub open spec fn legacy_from(s: Seq<u8>, open: int, hsl: bool) -> Option<CssColor> {
    let p0 = blanks_end(s, open);
    let first = if hsl {
        hue_at(s, p0)
    } else {
        num_at(s, p0)
    };
    match first {
        None => None,
        Some((v0, e0)) => match comma_at(s, e0) {
            None => None,
            Some(p1) => match (if hsl {
                percent_at(s, p1)
            } else {
                num_at(s, p1)
            }) {
                None => None,
                Some((v1, e1)) => match comma_at(s, e1) {
                    None => None,
                    Some(p2) => match (if hsl {
                        percent_at(s, p2)
                    } else {
                        num_at(s, p2)
                    }) {
                        None => None,
                        Some((v2, e2)) => {
                            let (a, e3) = alpha_at(s, e2, 44, true);
                            let same_kind = (v0 is Percent && v1 is Percent && v2 is Percent) || (
                            v0 is Number && v1 is Number && v2 is Number);
                            if closes_at(s, e3) && (hsl || same_kind) {
                                Some(CssColor { first: v0, second: v1, third: v2, alpha: a })
                            } else {
                                None
                            }
                        },
                    },
                },
            },
        },
    }
}

/// Where the values start after a legacy opening: `name`, an optional `a`, `(`.
pub open spec fn legacy_open(s: Seq<u8>, name: Seq<u8>) -> Option<int> {
    let i = name.len() as int;
    let j = if i < s.len() && s[i] == 97 {
        i + 1
    } else {
        i
    };
    if lit_at(s, 0, name) && j < s.len() && s[j] == 40 {
        Some(j + 1)
    } else {
        None
    }
}

pub open spec fn rgb_word() -> Seq<u8> {
    seq![114u8, 103, 98]
}

pub open spec fn hsl_word() -> Seq<u8> {
    seq![104u8, 115, 108]
}

pub open spec fn oklch_word() -> Seq<u8> {
    seq![111u8, 107, 108, 99, 104]
}

/// `oklch(L C H)` or `oklch(L C H / A)`.
pub open spec fn css_oklch(s: Seq<u8>) -> Option<CssColor> {
    if lit_at(s, 0, oklch_word().push(40)) {
        modern_from(s, 6, false, true)
    } else {
        None
    }
}

/// `rgb(R G B / A)`, else the legacy `rgb(R, G, B, A)` or `rgba(...)`.
pub open spec fn css_rgb(s: Seq<u8>) -> Option<CssColor> {
    let modern = if lit_at(s, 0, rgb_word().push(40)) {
        modern_from(s, 4, false, false)
    } else {
        None
    };
    if modern is Some {
        modern
    } else {
        match legacy_open(s, rgb_word()) {
            Some(open) => legacy_from(s, open, false),
            None => None,
        }
    }
}

/// `hsl(H S L / A)`, else the legacy `hsl(H, S%, L%, A)` or `hsla(...)`.
pub open spec fn css_hsl(s: Seq<u8>) -> Option<CssColor> {
    let modern = if lit_at(s, 0, hsl_word().push(40)) {
        modern_from(s, 4, true, false)
    } else {
        None
    };
    if modern is Some {
        modern
    } else {
        match legacy_open(s, hsl_word()) {
            Some(open) => legacy_from(s, open, true),
            None => None,
        }
    }
}

fn has_lit(s: &[u8], i: usize, lit: &[u8]) -> (r: bool)
    requires
        i <= s@.len(),
    ensures
        r == lit_at(s@, i as int, lit@),
        s@.len() <= usize::MAX,
{
    let n = s.len();
    if lit.len() > s.len() - i {
        return false;
    }
    let mut k: usize = 0;
    while k < lit.len()
        invariant
            n == s@.len(),
            k <= lit@.len(),
            i + lit@.len() <= s@.len(),
            forall|m: int| 0 <= m < k ==> s@[i + m] == lit@[m],
        decreases lit@.len() - k,
    {
        if s[i + k] != lit[k] {
            assert(s@.subrange(i as int, i + lit@.len())[k as int] != lit@[k as int]);
            return false;
        }
        k = k + 1;
    }
    assert(s@.subrange(i as int, i + lit@.len()) =~= lit@);
    true
}

fn num_exec(s: &[u8], i: usize) -> (r: Option<(CssValue, usize)>)
    requires
        i <= s@.len(),
    ensures
        scanned(r, num_at(s@, i as int), s@.len()),
{
    let j = scan_float(s, i);
    if j == i {
        None
    } else if j < s.len() && s[j] == 37 {
        Some((CssValue::Percent { start: i, end: j }, j + 1))
    } else {
        Some((CssValue::Number { start: i, end: j }, j))
    }
}

fn percent_exec(s: &[u8], i: usize) -> (r: Option<(CssValue, usize)>)
    requires
        i <= s@.len(),
    ensures
        scanned(r, percent_at(s@, i as int), s@.len()),
{
    let j = scan_float(s, i);
    if j > i && j < s.len() && s[j] == 37 {
        Some((CssValue::Percent { start: i, end: j }, j + 1))
    } else {
        None
    }
}

fn css_num_exec(s: &[u8], i: usize) -> (r: Option<(CssValue, usize)>)
    requires
        i <= s@.len(),
    ensures
        scanned(r, css_num_at(s@, i as int), s@.len()),
{
    match num_exec(s, i) {
        Some(v) => Some(v),
        None => {
            let word = [110u8, 111, 110, 101];
            assert(word@ =~= none_word());
            if has_lit(s, i, &word) {
                Some((CssValue::Missing, i + 4))
            } else {
                None
            }
        },
    }
}

fn unit_exec(s: &[u8], i: usize) -> (r: Option<(AngleUnit, usize)>)
    requires
        i <= s@.len(),
    ensures
        scanned(r, unit_at(s@, i as int), s@.len()),
{
    let deg = [100u8, 101, 103];
    let rad = [114u8, 97, 100];
    let grad = [103u8, 114, 97, 100];
    let turn = [116u8, 117, 114, 110];
    assert(deg@ =~= seq![100u8, 101, 103]);
    assert(rad@ =~= seq![114u8, 97, 100]);
    assert(grad@ =~= seq![103u8, 114, 97, 100]);
    assert(turn@ =~= seq![116u8, 117, 114, 110]);
    if has_lit(s, i, &deg) {
        Some((AngleUnit::Deg, i + 3))
    } else if has_lit(s, i, &rad) {
        Some((AngleUnit::Rad, i + 3))
    } else if has_lit(s, i, &grad) {
        Some((AngleUnit::Grad, i + 4))
    } else if has_lit(s, i, &turn) {
        Some((AngleUnit::Turn, i + 4))
    } else {
        None
    }
}

fn hue_exec(s: &[u8], i: usize) -> (r: Option<(CssValue, usize)>)
    requires
        i <= s@.len(),
    ensures
        scanned(r, hue_at(s@, i as int), s@.len()),
{
    let j = scan_float(s, i);
    if j == i {
        return None;
    }
    match unit_exec(s, j) {
        Some((u, k)) => Some((CssValue::Angle { start: i, end: j, unit: u }, k)),
        None => Some((CssValue::Number { start: i, end: j }, j)),
    }
}

fn css_hue_exec(s: &[u8], i: usize) -> (r: Option<(CssValue, usize)>)
    requires
        i <= s@.len(),
    ensures
        scanned(r, css_hue_at(s@, i as int), s@.len()),
{
    match hue_exec(s, i) {
        Some(v) => Some(v),
        None => {
            let word = [110u8, 111, 110, 101];
            assert(word@ =~= none_word());
            if has_lit(s, i, &word) {
                Some((CssValue::Missing, i + 4))
            } else {
                None
            }
        },
    }
}

fn value_exec(s: &[u8], i: usize, hue: bool) -> (r: Option<(CssValue, usize)>)
    requires
        i <= s@.len(),
    ensures
        scanned(r, value_at(s@, i as int, hue), s@.len()),
{
    if hue {
        css_hue_exec(s, i)
    } else {
        css_num_exec(s, i)
    }
}

fn alpha_exec(s: &[u8], i: usize, sep: u8, legacy: bool) -> (r: (Option<CssValue>, usize))
    requires
        i <= s@.len(),
    ensures
        r.0 == alpha_at(s@, i as int, sep, legacy).0,
        r.1 as int == alpha_at(s@, i as int, sep, legacy).1,
        r.1 <= s@.len(),
{
    let a = skip_blanks(s, i);
    if a < s.len() && s[a] == sep {
        let b = skip_blanks(s, a + 1);
        let v = if legacy {
            num_exec(s, b)
        } else {
            css_num_exec(s, b)
        };
        match v {
            Some((v, e)) => (Some(v), skip_blanks(s, e)),
            None => (None, i),
        }
    } else {
        (None, i)
    }
}

fn comma_exec(s: &[u8], i: usize) -> (r: Option<usize>)
    requires
        i <= s@.len(),
    ensures
        r is Some <==> comma_at(s@, i as int) is Some,
        r is Some ==> r.unwrap() as int == comma_at(s@, i as int).unwrap() && r.unwrap() <= s@.len(),
{
    let a = skip_blanks(s, i);
    if a < s.len() && s[a] == 44 {
        Some(skip_blanks(s, a + 1))
    } else {
        None
    }
}

fn space_exec(s: &[u8], i: usize) -> (r: Option<usize>)
    requires
        i <= s@.len(),
    ensures
        r is Some <==> space_at(s@, i as int) is Some,
        r is Some ==> r.unwrap() as int == space_at(s@, i as int).unwrap() && r.unwrap() <= s@.len(),
{
    let a = skip_blanks(s, i);
    if a > i {
        Some(a)
    } else {
        None
    }
}

fn closes_exec(s: &[u8], i: usize) -> (r: bool)
    requires
        i <= s@.len(),
    ensures
        r == closes_at(s@, i as int),
{
    let a = skip_blanks(s, i);
    a < s.len() && a + 1 == s.len() && s[a] == 41
}

fn modern_exec(s: &[u8], open: usize, hue_first: bool, hue_last: bool) -> (r: Option<CssColor>)
    requires
        open <= s@.len(),
    ensures
        r == modern_from(s@, open as int, hue_first, hue_last),
{
    let p0 = skip_blanks(s, open);
    let (v0, e0) = match value_exec(s, p0, hue_first) {
        Some(x) => x,
        None => {
            return None;
        },
    };
    let p1 = match space_exec(s, e0) {
        Some(p) => p,
        None => {
            return None;
        },
    };
    let (v1, e1) = match css_num_exec(s, p1) {
        Some(x) => x,
        None => {
            return None;
        },
    };
    let p2 = match space_exec(s, e1) {
        Some(p) => p,
        None => {
            return None;
        },
    };
    let (v2, e2) = match value_exec(s, p2, hue_last) {
        Some(x) => x,
        None => {
            return None;
        },
    };
    let (a, e3) = alpha_exec(s, e2, 47, false);
    if closes_exec(s, e3) {
        Some(CssColor { first: v0, second: v1, third: v2, alpha: a })
    } else {
        None
    }
}

fn legacy_exec(s: &[u8], open: usize, hsl: bool) -> (r: Option<CssColor>)
    requires
        open <= s@.len(),
    ensures
        r == legacy_from(s@, open as int, hsl),
{
    let p0 = skip_blanks(s, open);
    let first = if hsl {
        hue_exec(s, p0)
    } else {
        num_exec(s, p0)
    };
    let (v0, e0) = match first {
        Some(x) => x,
        None => {
            return None;
        },
    };
    let p1 = match comma_exec(s, e0) {
        Some(p) => p,
        None => {
            return None;
        },
    };
    let second = if hsl {
        percent_exec(s, p1)
    } else {
        num_exec(s, p1)
    };
    let (v1, e1) = match second {
        Some(x) => x,
        None => {
            return None;
        },
    };
    let p2 = match comma_exec(s, e1) {
        Some(p) => p,
        None => {
            return None;
        },
    };
    let third = if hsl {
        percent_exec(s, p2)
    } else {
        num_exec(s, p2)
    };
    let (v2, e2) = match third {
        Some(x) => x,
        None => {
            return None;
        },
    };
    let (a, e3) = alpha_exec(s, e2, 44, true);
    let same_kind = match (v0, v1, v2) {
        (CssValue::Percent { .. }, CssValue::Percent { .. }, CssValue::Percent { .. }) => true,
        (CssValue::Number { .. }, CssValue::Number { .. }, CssValue::Number { .. }) => true,
        _ => false,
    };
    if closes_exec(s, e3) && (hsl || same_kind) {
        Some(CssColor { first: v0, second: v1, third: v2, alpha: a })
    } else {
        None
    }
}

fn legacy_open_exec(s: &[u8], name: &[u8]) -> (r: Option<usize>)
    ensures
        r is Some <==> legacy_open(s@, name@) is Some,
        r is Some ==> r.unwrap() as int == legacy_open(s@, name@).unwrap() && r.unwrap() <= s@.len(),
{
    if name.len() > s.len() || !has_lit(s, 0, name) {
        return None;
    }
    let i = name.len();
    let j = if i < s.len() && s[i] == 97 {
        i + 1
    } else {
        i
    };
    if j < s.len() && s[j] == 40 {
        Some(j + 1)
    } else {
        None
    }
}

/// Reads the CSS notation `oklch(L C H)` or `oklch(L C H / A)`: lightness and
/// chroma as numbers, percentages or `none`, the hue as a number with an
/// optional angle unit or `none`.
pub fn parse_css_oklch(s: &str) -> (r: Option<CssColor>)
    ensures
        r == css_oklch(s.spec_bytes()),
{
    let b = s.as_bytes();
    let open = [111u8, 107, 108, 99, 104, 40];
    assert(open@ =~= oklch_word().push(40));
    if has_lit(b, 0, &open) {
        modern_exec(b, 6, false, true)
    } else {
        None
    }
}

/// Reads the CSS notation `rgb(R G B / A)`, or the legacy comma-separated
/// `rgb(R, G, B, A)` and `rgba(...)`, where the channels are all numbers or
/// all percentages.
pub fn parse_css_rgb(s: &str) -> (r: Option<CssColor>)
    ensures
        r == css_rgb(s.spec_bytes()),
{
    let b = s.as_bytes();
    let open = [114u8, 103, 98, 40];
    let name = [114u8, 103, 98];
    assert(open@ =~= rgb_word().push(40));
    assert(name@ =~= rgb_word());
    let modern = if has_lit(b, 0, &open) {
        modern_exec(b, 4, false, false)
    } else {
        None
    };
    if modern.is_some() {
        return modern;
    }
    match legacy_open_exec(b, &name) {
        Some(open) => legacy_exec(b, open, false),
        None => None,
    }
}

/// Reads the CSS notation `hsl(H S L / A)`, or the legacy comma-separated
/// `hsl(H, S%, L%, A)` and `hsla(...)`.
pub fn parse_css_hsl(s: &str) -> (r: Option<CssColor>)
    ensures
        r == css_hsl(s.spec_bytes()),
{
    let b = s.as_bytes();
    let open = [104u8, 115, 108, 40];
    let name = [104u8, 115, 108];
    assert(open@ =~= hsl_word().push(40));
    assert(name@ =~= hsl_word());
    let modern = if has_lit(b, 0, &open) {
        modern_exec(b, 4, true, false)
    } else {
        None
    };
    if modern.is_some() {
        return modern;
    }
    match legacy_open_exec(b, &name) {
        Some(open) => legacy_exec(b, open, true),
        None => None,
    }
}

/// Whether the whole text is one number literal as JavaScript writes it:
/// digits with an optional `.` and more digits, or `.` and digits.
pub fn is_float_literal(s: &str) -> (r: bool)
    ensures
        r == (s.spec_bytes().len() > 0 && float_end(s.spec_bytes(), 0) == s.spec_bytes().len()),
{
    let b = s.as_bytes();
    b.len() > 0 && scan_float(b, 0) == b.len()
}

} // verus!
