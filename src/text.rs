use vstd::prelude::*;

verus! {

/// Relies on `String::push`: the character is appended at the end.
#[verifier::external_body]
pub(crate) fn push_char(s: &mut String, c: char)
    ensures
        final(s)@ == old(s)@.push(c),
{
    s.push(c);
}

/// The character of a digit below 16, in lower or upper case.
pub open spec fn hex_char(d: nat, upper: bool) -> char {
    if d < 10 {
        (d + 48) as char
    } else if upper {
        (d + 55) as char
    } else {
        (d + 87) as char
    }
}

/// A byte as two hex digits.
pub open spec fn hex_byte_text(b: u8, upper: bool) -> Seq<char> {
    seq![hex_char((b / 16) as nat, upper), hex_char((b % 16) as nat, upper)]
}

/// A number in decimal, without leading zeros.
pub open spec fn decimal_text(n: nat) -> Seq<char>
    decreases n,
{
    if n < 10 {
        seq![hex_char(n, false)]
    } else {
        decimal_text(n / 10).push(hex_char(n % 10, false))
    }
}

pub(crate) fn push_hex_digit(s: &mut String, d: u8, upper: bool)
    requires
        d < 16,
    ensures
        final(s)@ == old(s)@.push(hex_char(d as nat, upper)),
{
    let c: char = if d < 10 {
        (d + 48) as char
    } else if upper {
        (d + 55) as char
    } else {
        (d + 87) as char
    };
    push_char(s, c);
}

pub(crate) fn push_hex_byte(s: &mut String, b: u8, upper: bool)
    ensures
        final(s)@ == old(s)@ + hex_byte_text(b, upper),
{
    push_hex_digit(s, b / 16, upper);
    push_hex_digit(s, b % 16, upper);
    assert(final(s)@ =~= old(s)@ + hex_byte_text(b, upper));
}

pub(crate) fn push_decimal(s: &mut String, n: u32)
    ensures
        final(s)@ == old(s)@ + decimal_text(n as nat),
    decreases n,
{
    if n >= 10 {
        push_decimal(s, n / 10);
    }
    push_hex_digit(s, (n % 10) as u8, false);
    assert(final(s)@ =~= old(s)@ + decimal_text(n as nat));
}

/// Appends a text.
pub(crate) fn push_str(s: &mut String, t: &str)
    ensures
        final(s)@ == old(s)@ + t@,
{
    s.append(t);
}

} // verus!
