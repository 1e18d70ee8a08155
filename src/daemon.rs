use vstd::prelude::*;
use vstd::string::StringSliceAdditionalSpecFns;

use crate::components::{decimal_value, is_digit};
use crate::text::{decimal_text, push_char, push_decimal, push_str};

verus! {

/// Why a request line was turned down.
#[derive(Clone, Copy, Debug, PartialEq, Eq, Structural)]
pub enum MessageError {
    /// The line was the literal `test`, which asks for an error reply.
    Test,
    /// No `:` between the request number and the parts.
    MissingColon,
    /// A part without the `;` between its format and its color.
    MissingSemicolon,
    /// The request number is not an unsigned 32-bit number.
    InvalidNumber,
}

/// One color to convert: the name of its format and its text, as raw bytes.
#[derive(Clone, Debug)]
pub struct Part {
    pub format: Vec<u8>,
    pub color: Vec<u8>,
}

/// A request line taken apart.
#[derive(Clone, Debug)]
pub struct Request {
    pub number: u32,
    pub parts: Vec<Part>,
}

impl Part {
    pub open spec fn view(&self) -> (Seq<u8>, Seq<u8>) {
        (self.format@, self.color@)
    }
}

impl Request {
    pub open spec fn parts_view(&self) -> Seq<(Seq<u8>, Seq<u8>)> {
        self.parts@.map_values(|p: Part| p.view())
    }
}

/// The bytes of the separator between parts, `¿¿` in UTF-8.
pub open spec fn part_separator() -> Seq<u8> {
    seq![0xc2u8, 0xbf, 0xc2, 0xbf]
}

pub open spec fn separator_at(s: Seq<u8>, i: int) -> bool {
    0 <= i && i + 4 <= s.len() && s.subrange(i, i + 4) == part_separator()
}

/// The first position at or after `i` where byte `b` stands, or the length.
pub open spec fn find_byte(s: Seq<u8>, i: int, b: u8) -> int
    decreases s.len() - i,
{
    if i < 0 || i >= s.len() {
        s.len() as int
    } else if s[i] == b {
        i
    } else {
        find_byte(s, i + 1, b)
    }
}

/// The first position at or after `i` where a separator starts, or the length.
pub open spec fn find_separator(s: Seq<u8>, i: int) -> int
    decreases s.len() - i,
{
    if i < 0 || i + 4 > s.len() {
        s.len() as int
    } else if separator_at(s, i) {
        i
    } else {
        find_separator(s, i + 1)
    }
}

/// `s[i..]` cut at each separator, scanning from the left.
pub open spec fn parts_from(s: Seq<u8>, i: int) -> Seq<Seq<u8>>
    decreases s.len() - i,
{
    let k = find_separator(s, i);
    if 0 <= i <= k && k + 4 <= s.len() {
        seq![s.subrange(i, k)] + parts_from(s, k + 4)
    } else {
        seq![s.subrange(i, s.len() as int)]
    }
}

pub open spec fn has_semicolon(p: Seq<u8>) -> bool {
    find_byte(p, 0, 59) < p.len()
}

/// A part cut at its first `;` into format and color.
pub open spec fn split_part(p: Seq<u8>) -> (Seq<u8>, Seq<u8>) {
    let k = find_byte(p, 0, 59);
    (p.subrange(0, k), p.subrange(k + 1, p.len() as int))
}

/// A run of decimal digits worth at most `u32::MAX`.
pub open spec fn u32_digits(d: Seq<u8>) -> Option<u32> {
    if d.len() > 0 && (forall|m: int| 0 <= m < d.len() ==> is_digit(#[trigger] d[m]))
        && decimal_value(d) <= u32::MAX {
        Some(decimal_value(d) as u32)
    } else {
        None
    }
}

/// An unsigned 32-bit number in decimal: an optional `+`, then at least one digit.
pub open spec fn u32_number(s: Seq<u8>) -> Option<u32> {
    if s.len() > 0 && s[0] == 43 {
        u32_digits(s.drop_first())
    } else {
        u32_digits(s)
    }
}

pub open spec fn test_line() -> Seq<u8> {
    seq![116u8, 101, 115, 116]
}

/// A request line: `number:part` with parts separated by `¿¿`, each part
/// `format;color`. The errors come in the order in which the parts are read:
/// the first part's `;`, then the number, then the `;` of the others.
pub open spec fn message_spec(s: Seq<u8>) -> Result<(u32, Seq<(Seq<u8>, Seq<u8>)>), MessageError> {
    let c = find_byte(s, 0, 58);
    let parts = parts_from(s, c + 1);
    if s == test_line() {
        Err(MessageError::Test)
    } else if c == s.len() {
        Err(MessageError::MissingColon)
    } else if !has_semicolon(parts[0]) {
        Err(MessageError::MissingSemicolon)
    } else if u32_number(s.subrange(0, c)) is None {
        Err(MessageError::InvalidNumber)
    } else if exists|k: int| 0 <= k < parts.len() && !has_semicolon(#[trigger] parts[k]) {
        Err(MessageError::MissingSemicolon)
    } else {
        Ok((u32_number(s.subrange(0, c)).unwrap(), parts.map_values(|p: Seq<u8>| split_part(p))))
    }
}

fn find_byte_exec(s: &[u8], i: usize, b: u8) -> (k: usize)
    requires
        i <= s@.len(),
    ensures
        k as int == find_byte(s@, i as int, b),
        i <= k <= s@.len(),
{
    let mut k = i;
    while k < s.len() && s[k] != b
        invariant
            i <= k <= s@.len(),
            find_byte(s@, i as int, b) == find_byte(s@, k as int, b),
        decreases s@.len() - k,
    {
        k = k + 1;
    }
    k
}

fn is_separator_at(s: &[u8], i: usize) -> (r: bool)
    requires
        i + 4 <= s@.len(),
    ensures
        r == separator_at(s@, i as int),
{
    let r = s[i] == 0xc2 && s[i + 1] == 0xbf && s[i + 2] == 0xc2 && s[i + 3] == 0xbf;
    assert(r == (s@.subrange(i as int, i + 4) =~= part_separator()));
    r
}

fn find_separator_exec(s: &[u8], i: usize) -> (k: usize)
    requires
        i <= s@.len(),
    ensures
        k as int == find_separator(s@, i as int),
        k == s@.len() || (i <= k && k + 4 <= s@.len()),
{
    let mut k = i;
    while k < s.len() && s.len() - k >= 4 && !is_separator_at(s, k)
        invariant
            i <= k <= s@.len(),
            find_separator(s@, i as int) == find_separator(s@, k as int),
        decreases s@.len() - k,
    {
        k = k + 1;
    }
    if k >= s.len() || s.len() - k < 4 {
        s.len()
    } else {
        k
    }
}

fn copy_range(s: &[u8], from: usize, to: usize) -> (r: Vec<u8>)
    requires
        from <= to <= s@.len(),
    ensures
        r@ == s@.subrange(from as int, to as int),
{
    let mut r: Vec<u8> = Vec::new();
    let mut i = from;
    while i < to
        invariant
            from <= i <= to <= s@.len(),
            r@ == s@.subrange(from as int, i as int),
        decreases to - i,
    {
        r.push(s[i]);
        assert(r@ =~= s@.subrange(from as int, i + 1));
        i = i + 1;
    }
    r
}

/// The parts of `s[start..]` as ranges.
fn cut_parts(s: &[u8], start: usize) -> (r: Vec<(usize, usize)>)
    requires
        start <= s@.len(),
    ensures
        r@.len() == parts_from(s@, start as int).len(),
        forall|k: int|
            0 <= k < r@.len() ==> (#[trigger] r@[k]).0 <= r@[k].1 <= s@.len() && s@.subrange(
                r@[k].0 as int,
                r@[k].1 as int,
            ) == parts_from(s@, start as int)[k],
{
    let mut r: Vec<(usize, usize)> = Vec::new();
    let mut i = start;
    let mut done = false;
    while !done
        invariant
            start <= i <= s@.len(),
            !done ==> parts_from(s@, start as int) =~= r@.map_values(
                |p: (usize, usize)| s@.subrange(p.0 as int, p.1 as int),
            ) + parts_from(s@, i as int),
            done ==> parts_from(s@, start as int) =~= r@.map_values(
                |p: (usize, usize)| s@.subrange(p.0 as int, p.1 as int),
            ),
            forall|k: int| 0 <= k < r@.len() ==> (#[trigger] r@[k]).0 <= r@[k].1 <= s@.len(),
        decreases s@.len() - i + (if done { 0int } else { 1int }),
    {
        let k = find_separator_exec(s, i);
        let ghost before = r@;
        if k == s.len() {
            r.push((i, s.len()));
            proof {
                assert(r@.map_values(|p: (usize, usize)| s@.subrange(p.0 as int, p.1 as int))
                    =~= before.map_values(|p: (usize, usize)| s@.subrange(p.0 as int, p.1 as int))
                    + parts_from(s@, i as int));
            }
            done = true;
        } else {
            r.push((i, k));
            proof {
                assert(r@.map_values(|p: (usize, usize)| s@.subrange(p.0 as int, p.1 as int))
                    =~= before.map_values(|p: (usize, usize)| s@.subrange(p.0 as int, p.1 as int))
                    + seq![s@.subrange(i as int, k as int)]);
            }
            i = k + 4;
        }
    }
    proof {
        assert forall|k: int| 0 <= k < r@.len() implies s@.subrange(r@[k].0 as int, r@[k].1 as int)
            == parts_from(s@, start as int)[k] by {
            assert(r@.map_values(|p: (usize, usize)| s@.subrange(p.0 as int, p.1 as int))[k]
                == s@.subrange(r@[k].0 as int, r@[k].1 as int));
        }
    }
    r
}

} // verus!

verus! {

fn read_u32(s: &[u8], from: usize, to: usize) -> (r: Option<u32>)
    requires
        from <= to <= s@.len(),
    ensures
        r == u32_number(s@.subrange(from as int, to as int)),
{
    let ghost t = s@.subrange(from as int, to as int);
    let start = if from < to && s[from] == 43 {
        from + 1
    } else {
        from
    };
    let ghost digits = s@.subrange(start as int, to as int);
    proof {
        if start == from + 1 {
            assert(t.len() > 0 && t[0] == 43);
            assert(t.drop_first() =~= digits);
        } else {
            assert(!(t.len() > 0 && t[0] == 43));
            assert(t =~= digits);
        }
    }
    if start == to {
        return None;
    }
    let mut v: u64 = 0;
    let mut i = start;
    while i < to
        invariant
            start <= i <= to <= s@.len(),
            digits == s@.subrange(start as int, to as int),
            from <= start,
            t == s@.subrange(from as int, to as int),
            u32_number(t) == u32_digits(digits),
            forall|m: int| start <= m < i ==> is_digit(#[trigger] s@[m]),
            v as nat == decimal_value(s@.subrange(start as int, i as int)),
            v <= u32::MAX,
        decreases to - i,
    {
        let c = s[i];
        if c < 48 || c > 57 {
            assert(digits[i - start] == c);
            assert(!is_digit(digits[i - start]));
            return None;
        }
        let ghost prev = s@.subrange(start as int, i as int);
        let ghost next = s@.subrange(start as int, i + 1);
        assert(next.drop_last() =~= prev);
        let w = v * 10 + (c - 48) as u64;
        if w > u32::MAX as u64 {
            proof {
                assert(digits.subrange(0, i + 1 - start) =~= next);
                if forall|m: int| 0 <= m < digits.len() ==> is_digit(#[trigger] digits[m]) {
                    lemma_decimal_grows(digits, i + 1 - start);
                }
            }
            return None;
        }
        v = w;
        i = i + 1;
    }
    proof {
        assert(s@.subrange(start as int, i as int) =~= digits);
        assert forall|m: int| 0 <= m < digits.len() implies is_digit(#[trigger] digits[m]) by {
            assert(digits[m] == s@[start + m]);
        }
    }
    Some(v as u32)
}

/// The value of a digit string is at least that of any of its prefixes.
proof fn lemma_decimal_grows(d: Seq<u8>, n: int)
    requires
        0 <= n <= d.len(),
        forall|m: int| 0 <= m < d.len() ==> is_digit(#[trigger] d[m]),
    ensures
        decimal_value(d.subrange(0, n)) <= decimal_value(d),
    decreases d.len(),
{
    if n < d.len() {
        let e = d.drop_last();
        assert forall|m: int| 0 <= m < e.len() implies is_digit(#[trigger] e[m]) by {
            assert(e[m] == d[m]);
        }
        lemma_decimal_grows(e, n);
        assert(e.subrange(0, n) =~= d.subrange(0, n));
    } else {
        assert(d.subrange(0, n) =~= d);
    }
}

} // verus!

verus! {

/// Takes a request line apart: `number:format;color`, with further
/// `format;color` parts after each `¿¿`.
pub fn parse_message(line: &str) -> (r: Result<Request, MessageError>)
    ensures
        r is Ok <==> message_spec(line.spec_bytes()) is Ok,
        r is Err ==> r == Err::<Request, MessageError>(
            message_spec(line.spec_bytes())->Err_0,
        ),
        r is Ok ==> r->Ok_0.number == message_spec(line.spec_bytes())->Ok_0.0
            && r->Ok_0.parts_view() == message_spec(line.spec_bytes())->Ok_0.1,
{
    let s = line.as_bytes();
    if s.len() == 4 && s[0] == 116 && s[1] == 101 && s[2] == 115 && s[3] == 116 {
        assert(s@ =~= test_line());
        return Err(MessageError::Test);
    }
    assert(s@ != test_line());
    let c = find_byte_exec(s, 0, 58);
    if c == s.len() {
        return Err(MessageError::MissingColon);
    }
    let ghost parts = parts_from(s@, c + 1);
    let ranges = cut_parts(s, c + 1);
    proof {
        lemma_parts_nonempty(s@, c + 1);
    }
    let mut out: Vec<Part> = Vec::new();
    let mut k: usize = 0;
    while k < ranges.len()
        invariant
            0 < ranges@.len() == parts.len(),
            parts == parts_from(s@, c + 1),
            c < s@.len(),
            c as int == find_byte(s@, 0, 58),
            s@ == line.spec_bytes(),
            s@ != test_line(),
            k <= ranges@.len(),
            k > 0 ==> has_semicolon(parts[0]) && u32_number(s@.subrange(0, c as int)) is Some,
            forall|m: int| 0 <= m < k ==> has_semicolon(#[trigger] parts[m]),
            forall|m: int|
                0 <= m < ranges@.len() ==> (#[trigger] ranges@[m]).0 <= ranges@[m].1 <= s@.len()
                    && s@.subrange(ranges@[m].0 as int, ranges@[m].1 as int) == parts[m],
            out@.len() == k,
            forall|m: int|
                0 <= m < k ==> (#[trigger] out@[m]).view() == split_part(parts[m]),
        decreases ranges@.len() - k,
    {
        let (a, b) = ranges[k];
        let p = &s[a..b];
        assert(p@ =~= parts[k as int]);
        let semi = find_byte_exec(p, 0, 59);
        if semi == p.len() {
            return Err(MessageError::MissingSemicolon);
        }
        if k == 0 {
            match read_u32(s, 0, c) {
                None => {
                    return Err(MessageError::InvalidNumber);
                },
                Some(_) => {},
            }
        }
        let format = copy_range(p, 0, semi);
        let color = copy_range(p, semi + 1, p.len());
        out.push(Part { format, color });
        k = k + 1;
    }
    let number = match read_u32(s, 0, c) {
        Some(n) => n,
        None => {
            return Err(MessageError::InvalidNumber);
        },
    };
    let req = Request { number, parts: out };
    assert(req.parts_view() =~= parts.map_values(|p: Seq<u8>| split_part(p)));
    Ok(req)
}

proof fn lemma_parts_nonempty(s: Seq<u8>, i: int)
    ensures
        parts_from(s, i).len() > 0,
    decreases s.len() - i,
{
    let k = find_separator(s, i);
    if 0 <= i <= k && k + 4 <= s.len() {
        lemma_parts_nonempty(s, k + 4);
    }
}

/// The replies joined by the part separator.
pub open spec fn joined(replies: Seq<Seq<char>>) -> Seq<char>
    decreases replies.len(),
{
    if replies.len() == 0 {
        Seq::empty()
    } else if replies.len() == 1 {
        replies[0]
    } else {
        joined(replies.drop_last()) + seq!['\u{bf}', '\u{bf}'] + replies.last()
    }
}

/// The response line: the request number, `:`, the replies joined by `¿¿`, and a newline.
pub open spec fn response_text(number: u32, replies: Seq<Seq<char>>) -> Seq<char> {
    decimal_text(number as nat) + seq![':'] + joined(replies) + seq!['\n']
}

pub fn build_response(number: u32, replies: &Vec<String>) -> (r: String)
    ensures
        r@ == response_text(number, replies@.map_values(|t: String| t@)),
{
    let ghost views = replies@.map_values(|t: String| t@);
    let mut s = String::new();
    push_decimal(&mut s, number);
    push_char(&mut s, ':');
    let ghost head = s@;
    let mut i: usize = 0;
    while i < replies.len()
        invariant
            i <= replies@.len(),
            views == replies@.map_values(|t: String| t@),
            s@ == head + joined(views.take(i as int)),
        decreases replies@.len() - i,
    {
        if i > 0 {
            push_char(&mut s, '\u{bf}');
            push_char(&mut s, '\u{bf}');
        }
        push_str(&mut s, replies[i].as_str());
        proof {
            assert(views.take(i + 1).drop_last() =~= views.take(i as int));
            assert(views.take(i + 1).last() == replies@[i as int]@);
            if i == 0 {
                assert(joined(views.take(0)) =~= Seq::<char>::empty());
            }
        }
        assert(s@ =~= head + joined(views.take(i + 1)));
        i = i + 1;
    }
    push_char(&mut s, '\n');
    assert(views.take(i as int) =~= views);
    assert(s@ =~= response_text(number, views));
    s
}

} // verus!
