//! Numbers as text, and the small printf-style formatter of the explicit
//! format directives: one conversion out of `d`, `o`, `x`, `X`, `s`, with an
//! optional zero flag, width and precision.

use crate::param_string::{Param, Value};
use vstd::prelude::*;
use vstd::string::StringExecFns;

verus! {

// ---------------------------------------------------------------------------
// Digits

/// The character of the digit `d`, which is below 36.
pub open spec fn digit_char(d: int, upper: bool) -> char {
    if d < 10 {
        ('0' as int + d) as char
    } else if upper {
        ('A' as int + d - 10) as char
    } else {
        ('a' as int + d - 10) as char
    }
}

/// The digits of `n` to the base `base`, the most significant one first;
/// one digit for 0.
pub open spec fn digits(n: nat, base: nat, upper: bool) -> Seq<char>
    decreases n,
    via digits_terminates
{
    if base < 2 || n < base {
        seq![digit_char(n as int, upper)]
    } else {
        digits(n / base, base, upper).push(digit_char((n % base) as int, upper))
    }
}

#[via_fn]
proof fn digits_terminates(n: nat, base: nat, upper: bool) {
    if base >= 2 && n >= base {
        assert(n / base < n) by (nonlinear_arith)
            requires
                base >= 2,
                n >= base,
        ;
    }
}

/// The decimal form of `n`, with a minus sign in front of a negative number.
pub open spec fn decimal(n: int) -> Seq<char> {
    if n < 0 {
        seq!['-'] + digits((-n) as nat, 10, false)
    } else {
        digits(n as nat, 10, false)
    }
}

/// The value of a 32-bit number read as unsigned.
pub open spec fn unsigned(n: i32) -> nat {
    if n < 0 {
        (n + 0x1_0000_0000) as nat
    } else {
        n as nat
    }
}

/// The distance of a 32-bit number from zero.
pub open spec fn magnitude(n: i32) -> nat {
    if n < 0 {
        (-n) as nat
    } else {
        n as nat
    }
}

/// `count` times the character `c`.
pub open spec fn repeat(c: char, count: int) -> Seq<char> {
    Seq::new(
        if count > 0 {
            count as nat
        } else {
            0
        },
        |i: int| c,
    )
}

/// The character of one digit.
pub fn digit_to_char(d: u8, upper: bool) -> (c: char)
    requires
        d < 36,
    ensures
        c == digit_char(d as int, upper),
{
    if d < 10 {
        (48 + d) as char
    } else if upper {
        (55 + d) as char
    } else {
        (87 + d) as char
    }
}

/// Appends the digits of `n` to the base `base`.
pub fn push_digits(out: &mut String, n: u64, base: u64, upper: bool)
    requires
        2 <= base <= 36,
    ensures
        final(out)@ == old(out)@ + digits(n as nat, base as nat, upper),
    decreases n,
{
    if n >= base {
        assert(n / base < n) by (nonlinear_arith)
            requires
                base >= 2,
                n >= base,
        ;
        push_digits(out, n / base, base, upper);
    }
    let ghost before = out@;
    out.push(digit_to_char((n % base) as u8, upper));
    proof {
        let last = digit_char((n % base) as int, upper);
        if n >= base {
            assert(digits(n as nat, base as nat, upper) == digits(
                (n / base) as nat,
                base as nat,
                upper,
            ).push(last));
            assert(before == old(out)@ + digits((n / base) as nat, base as nat, upper));
        } else {
            assert(n % base == n) by (nonlinear_arith)
                requires
                    0 <= n < base,
            ;
            assert(digits(n as nat, base as nat, upper) =~= seq![last]);
            assert(before == old(out)@);
        }
        assert(out@ == before.push(last));
        assert(out@ =~= old(out)@ + digits(n as nat, base as nat, upper));
    }
}

/// Appends the decimal form of `n`.
pub fn push_decimal(out: &mut String, n: i32)
    ensures
        final(out)@ == old(out)@ + decimal(n as int),
{
    if n < 0 {
        out.push('-');
        push_digits(out, (-(n as i64)) as u64, 10, false);
    } else {
        push_digits(out, n as u64, 10, false);
    }
    assert(out@ =~= old(out)@ + decimal(n as int));
}

/// Appends `count` times the character `c`.
pub fn push_repeat(out: &mut String, c: char, count: usize)
    ensures
        final(out)@ == old(out)@ + repeat(c, count as int),
{
    let mut i: usize = 0;
    while i < count
        invariant
            i <= count,
            out@ == old(out)@ + repeat(c, i as int),
        decreases count - i,
    {
        out.push(c);
        i += 1;
    }
}

// ---------------------------------------------------------------------------
// The format specification

/// A parsed format specification.
pub struct FormatSpec {
    /// Whether numbers are padded with zeros rather than spaces.
    pub zero_pad: bool,
    /// The least number of characters to produce.
    pub width: nat,
    /// The least number of digits, or the most characters of a string.
    pub precision: Option<nat>,
    /// One of `d`, `o`, `x`, `X`, `s`.
    pub conversion: char,
}

/// Whether `c` ends a format specification.
pub open spec fn is_conversion(c: char) -> bool {
    c == 'd' || c == 'o' || c == 'x' || c == 'X' || c == 's'
}

/// Whether `c` is a decimal digit.
pub open spec fn is_digit(c: char) -> bool {
    '0' <= c <= '9'
}

/// The largest width or precision that a format specification may ask for.
pub const FIELD_MAX: u32 = 0xFFFF_FFFF;

/// Index of the first character from `from` on that is not `'0'`, `end` at
/// the latest.
pub open spec fn zeros_end(t: Seq<char>, from: int, end: int) -> int
    decreases end - from,
{
    if from < end && t[from] == '0' {
        zeros_end(t, from + 1, end)
    } else {
        from
    }
}

/// Index of the first character from `from` on that is no digit, `end` at the
/// latest.
pub open spec fn digits_end(t: Seq<char>, from: int, end: int) -> int
    decreases end - from,
{
    if from < end && is_digit(t[from]) {
        digits_end(t, from + 1, end)
    } else {
        from
    }
}

/// The decimal value of the digits `t[from..to]`, unless it, or that of a part
/// of them from `from` on, is above `FIELD_MAX`.
pub open spec fn field_value(t: Seq<char>, from: int, to: int) -> Option<nat>
    decreases to - from,
{
    if to <= from {
        Some(0)
    } else {
        match field_value(t, from, to - 1) {
            Some(v) => {
                let next = v * 10 + (t[to - 1] as int - '0' as int);
                if next > FIELD_MAX {
                    None
                } else {
                    Some(next as nat)
                }
            },
            None => None,
        }
    }
}

/// The format specification `t[first..=end]`, where `t[first]` follows the
/// `%`: an optional `:`, any number of `0` flags, a width, and a precision
/// behind a `.`, each of which may be missing, then the conversion `t[end]`,
/// and nothing else. A width or precision above `FIELD_MAX` is none.
pub open spec fn parse_format(t: Seq<char>, first: int, end: int) -> Option<FormatSpec> {
    let flags = if t[first] == ':' {
        first + 1
    } else {
        first
    };
    let width_from = zeros_end(t, flags, end);
    let width_to = digits_end(t, width_from, end);
    let has_precision = width_to < end && t[width_to] == '.';
    let last = if has_precision {
        digits_end(t, width_to + 1, end)
    } else {
        width_to
    };
    let width = field_value(t, width_from, width_to);
    let precision = field_value(t, width_to + 1, last);
    if flags <= end && last == end && is_conversion(t[end]) && width is Some && (has_precision
        ==> precision is Some) {
        Some(
            FormatSpec {
                zero_pad: width_from > flags,
                width: width->0,
                precision: if has_precision {
                    Some(precision->0)
                } else {
                    None
                },
                conversion: t[end],
            },
        )
    } else {
        None
    }
}

/// The digits of a number under a precision: filled up with zeros in front to
/// `precision` digits; no digit at all for 0 under the precision 0.
pub open spec fn precise_digits(plain: Seq<char>, is_zero: bool, precision: Option<nat>) -> Seq<
    char,
> {
    match precision {
        Some(p) => if p == 0 && is_zero {
            Seq::empty()
        } else {
            repeat('0', p - plain.len()) + plain
        },
        None => plain,
    }
}

/// A sign and digits in a field: filled up in front to the width, with zeros
/// between sign and digits if the zero flag is set and there is no precision,
/// else with spaces.
pub open spec fn in_field(sign: Seq<char>, body: Seq<char>, spec: FormatSpec) -> Seq<char> {
    let missing = spec.width - sign.len() - body.len();
    if spec.zero_pad && spec.precision is None {
        sign + repeat('0', missing) + body
    } else {
        repeat(' ', missing) + sign + body
    }
}

/// The text of a string under a precision: its first `precision` characters.
pub open spec fn precise_text(text: Seq<char>, precision: Option<nat>) -> Seq<char> {
    match precision {
        Some(p) => if p < text.len() {
            text.take(p as int)
        } else {
            text
        },
        None => text,
    }
}

/// What a value becomes under a format specification. The conversions `d`,
/// `o`, `x` and `X` take a number or a boolean (as 1 or 0): `d` gives it signed
/// and decimal, the others unsigned to the base 8 or 16. The conversion `s`
/// takes a text, which is filled up with spaces. A value of the other kind
/// cannot be formatted.
pub open spec fn render(spec: FormatSpec, value: Value) -> Option<Seq<char>> {
    if spec.conversion == 's' {
        match value {
            Value::Word(text) => Some(
                repeat(' ', spec.width - precise_text(text, spec.precision).len())
                    + precise_text(text, spec.precision),
            ),
            _ => None,
        }
    } else if value is Word {
        None
    } else {
        let n = value.as_int();
        if spec.conversion == 'd' {
            Some(
                in_field(
                    if n < 0 {
                        seq!['-']
                    } else {
                        Seq::empty()
                    },
                    precise_digits(digits(magnitude(n), 10, false), n == 0, spec.precision),
                    spec,
                ),
            )
        } else {
            let base: nat = if spec.conversion == 'o' {
                8
            } else {
                16
            };
            Some(
                in_field(
                    Seq::empty(),
                    precise_digits(
                        digits(unsigned(n), base, spec.conversion == 'X'),
                        n == 0,
                        spec.precision,
                    ),
                    spec,
                ),
            )
        }
    }
}

/// What a value becomes under the format specification `t[first..=end]`, if
/// that is one and fits the value.
pub open spec fn format_text(t: Seq<char>, first: int, end: int, value: Value) -> Option<Seq<char>> {
    match parse_format(t, first, end) {
        Some(spec) => render(spec, value),
        None => None,
    }
}

/// A parsed format specification, as the formatter holds it.
pub struct Format {
    zero_pad: bool,
    width: usize,
    precision: Option<usize>,
    conversion: char,
}

impl View for Format {
    type V = FormatSpec;

    closed spec fn view(&self) -> FormatSpec {
        FormatSpec {
            zero_pad: self.zero_pad,
            width: self.width as nat,
            precision: match self.precision {
                Some(p) => Some(p as nat),
                None => None,
            },
            conversion: self.conversion,
        }
    }
}

/// Skips the digits from `from` on, and gives their value and where they end.
fn read_field(t: &Vec<char>, from: usize, end: usize) -> (r: (Option<usize>, usize))
    requires
        from <= end < t.len(),
    ensures
        r.1 == digits_end(t@, from as int, end as int),
        from <= r.1 <= end,
        match r.0 {
            Some(v) => field_value(t@, from as int, r.1 as int) == Some(v as nat),
            None => field_value(t@, from as int, r.1 as int) is None,
        },
{
    let mut value: u64 = 0;
    let mut fits = true;
    let mut i: usize = from;
    while i < end && t[i] >= '0' && t[i] <= '9'
        invariant
            from <= i <= end < t.len(),
            digits_end(t@, i as int, end as int) == digits_end(t@, from as int, end as int),
            fits ==> field_value(t@, from as int, i as int) == Some(value as nat),
            !fits ==> field_value(t@, from as int, i as int) is None,
            value <= FIELD_MAX,
        decreases end - i,
    {
        if fits {
            let next: u64 = value * 10 + (t[i] as u64 - 48);
            if next > FIELD_MAX as u64 {
                fits = false;
            } else {
                value = next;
            }
        }
        i += 1;
    }
    if fits {
        (Some(value as usize), i)
    } else {
        (None, i)
    }
}

/// Parses the format specification `t[first..=end]`.
fn read_format(t: &Vec<char>, first: usize, end: usize) -> (r: Option<Format>)
    requires
        first <= end < t.len(),
    ensures
        match r {
            Some(f) => parse_format(t@, first as int, end as int) == Some(f@),
            None => parse_format(t@, first as int, end as int) is None,
        },
{
    let flags = if t[first] == ':' {
        first + 1
    } else {
        first
    };
    if flags > end {
        return None;
    }
    let mut width_from = flags;
    while width_from < end && t[width_from] == '0'
        invariant
            flags <= width_from <= end < t.len(),
            zeros_end(t@, width_from as int, end as int) == zeros_end(
                t@,
                flags as int,
                end as int,
            ),
        decreases end - width_from,
    {
        width_from += 1;
    }
    let (width, width_to) = read_field(t, width_from, end);
    let has_precision = width_to < end && t[width_to] == '.';
    let (precision, last) = if has_precision {
        let (value, last) = read_field(t, width_to + 1, end);
        match value {
            Some(p) => (Some(p), last),
            None => {
                return None;
            },
        }
    } else {
        (None, width_to)
    };
    if last != end {
        return None;
    }
    let conversion = t[end];
    if !(conversion == 'd' || conversion == 'o' || conversion == 'x' || conversion == 'X'
        || conversion == 's') {
        return None;
    }
    match width {
        Some(w) => Some(
            Format { zero_pad: width_from > flags, width: w, precision, conversion },
        ),
        None => None,
    }
}

/// Appends `sign` and `body` in a field, as the specification asks.
fn push_in_field(out: &mut String, sign: &String, body: &String, f: &Format)
    ensures
        final(out)@ == old(out)@ + in_field(sign@, body@, f@),
{
    let used = sign.as_str().unicode_len();
    let used_by_body = body.as_str().unicode_len();
    let missing = if f.width > used && f.width - used > used_by_body {
        f.width - used - used_by_body
    } else {
        0
    };
    if f.zero_pad && f.precision.is_none() {
        out.append(sign.as_str());
        push_repeat(out, '0', missing);
        out.append(body.as_str());
        assert(out@ =~= old(out)@ + in_field(sign@, body@, f@));
    } else {
        push_repeat(out, ' ', missing);
        out.append(sign.as_str());
        out.append(body.as_str());
        assert(out@ =~= old(out)@ + in_field(sign@, body@, f@));
    }
}

/// The digits of `n` to the base `base` under the precision of `f`.
fn number_body(n: u64, base: u64, upper: bool, precision: Option<usize>) -> (body: String)
    requires
        2 <= base <= 36,
    ensures
        body@ == precise_digits(
            digits(n as nat, base as nat, upper),
            n == 0,
            match precision {
                Some(p) => Some(p as nat),
                None => None,
            },
        ),
{
    let mut plain = String::new();
    push_digits(&mut plain, n, base, upper);
    assert(plain@ =~= digits(n as nat, base as nat, upper));
    match precision {
        None => plain,
        Some(p) => {
            let mut body = String::new();
            if p == 0 && n == 0 {
                return body;
            }
            let have = plain.as_str().unicode_len();
            let missing = if p > have {
                p - have
            } else {
                0
            };
            push_repeat(&mut body, '0', missing);
            body.append(plain.as_str());
            assert(body@ =~= repeat('0', p - plain@.len()) + plain@);
            body
        },
    }
}

/// The first `count` characters of `text`, or all of it if it has fewer.
fn leading(text: &str, count: usize) -> (r: String)
    ensures
        r@ == precise_text(text@, Some(count as nat)),
{
    let length = text.unicode_len();
    if count < length {
        let part = text.substring_char(0, count);
        part.to_owned()
    } else {
        text.to_owned()
    }
}

/// Formats `value` as the specification `t[first..=end]` asks.
pub fn format_value(t: &Vec<char>, first: usize, end: usize, value: &Param) -> (r: Option<String>)
    requires
        first <= end < t.len(),
    ensures
        match r {
            Some(text) => format_text(t@, first as int, end as int, value@) == Some(text@),
            None => format_text(t@, first as int, end as int, value@) is None,
        },
{
    let f = match read_format(t, first, end) {
        Some(f) => f,
        None => {
            return None;
        },
    };
    let mut out = String::new();
    if f.conversion == 's' {
        match value {
            Param::Word(text) => {
                let shown = match f.precision {
                    Some(p) => leading(text.as_str(), p),
                    None => text.clone(),
                };
                let used = shown.as_str().unicode_len();
                let missing = if f.width > used {
                    f.width - used
                } else {
                    0
                };
                push_repeat(&mut out, ' ', missing);
                out.append(shown.as_str());
                assert(out@ =~= repeat(' ', f@.width - shown@.len()) + shown@);
                Some(out)
            },
            _ => None,
        }
    } else {
        match value {
            Param::Word(_) => None,
            _ => {
                let n = value.as_int();
                let empty = String::new();
                if f.conversion == 'd' {
                    let mut sign = String::new();
                    let size: u64 = if n < 0 {
                        sign.push('-');
                        (-(n as i64)) as u64
                    } else {
                        n as u64
                    };
                    assert(sign@ =~= if n < 0 {
                        seq!['-']
                    } else {
                        Seq::empty()
                    });
                    let body = number_body(size, 10, false, f.precision);
                    push_in_field(&mut out, &sign, &body, &f);
                } else {
                    let size: u64 = if n < 0 {
                        (n as i64 + 0x1_0000_0000) as u64
                    } else {
                        n as u64
                    };
                    let base: u64 = if f.conversion == 'o' {
                        8
                    } else {
                        16
                    };
                    let body = number_body(size, base, f.conversion == 'X', f.precision);
                    push_in_field(&mut out, &empty, &body, &f);
                }
                assert(out@ =~= render(f@, value@)->0);
                Some(out)
            },
        }
    }
}

} // verus!
