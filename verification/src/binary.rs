//! Little-endian integers and NUL-terminated strings inside a byte buffer.
//!
//! Every reader has a specification function of the same meaning over `Seq<u8>`;
//! the executable readers are proved against them.

use vstd::prelude::*;

verus! {

/// `String::push` of the standard library, taken on trust: it appends the
/// character `c` to the end of the string and changes nothing else of it.
pub assume_specification[ String::push ](s: &mut String, c: char)
    ensures
        final(s)@ == old(s)@.push(c),
;

/// The smallest even number that is not below `n`.
pub open spec fn even_ceiling(n: int) -> int {
    n + n % 2
}

/// The 16-bit signed little-endian integer stored at `pos`.
pub open spec fn i16_at(data: Seq<u8>, pos: int) -> int
    recommends
        0 <= pos,
        pos + 2 <= data.len(),
{
    let unsigned = data[pos] as int + 0x100 * (data[pos + 1] as int);
    if unsigned >= 0x8000 {
        unsigned - 0x1_0000
    } else {
        unsigned
    }
}

/// The 32-bit signed little-endian integer stored at `pos`.
pub open spec fn i32_at(data: Seq<u8>, pos: int) -> int
    recommends
        0 <= pos,
        pos + 4 <= data.len(),
{
    let unsigned = data[pos] as int + 0x100 * (data[pos + 1] as int) + 0x1_0000 * (data[pos
        + 2] as int) + 0x100_0000 * (data[pos + 3] as int);
    if unsigned >= 0x8000_0000 {
        unsigned - 0x1_0000_0000
    } else {
        unsigned
    }
}

/// Number of bytes of one numeric field.
pub open spec fn int_width(wide: bool) -> int {
    if wide {
        4
    } else {
        2
    }
}

/// The signed integer stored at `pos`, four bytes wide if `wide`, else two.
pub open spec fn int_at(data: Seq<u8>, pos: int, wide: bool) -> int
    recommends
        0 <= pos,
        pos + int_width(wide) <= data.len(),
{
    if wide {
        i32_at(data, pos)
    } else {
        i16_at(data, pos)
    }
}

/// Index of the first zero byte at or after `pos`; the buffer's length if
/// there is none; `pos` itself if `pos` lies behind the buffer.
pub open spec fn nul_at(data: Seq<u8>, pos: int) -> int
    decreases data.len() - pos,
{
    if pos < 0 || pos >= data.len() {
        pos
    } else if data[pos] == 0 {
        pos
    } else {
        nul_at(data, pos + 1)
    }
}

/// The bytes from `pos` up to the next zero byte (or the buffer's end), each
/// taken as the character with that code.
pub open spec fn str_at(data: Seq<u8>, pos: int) -> Seq<char> {
    Seq::new((nul_at(data, pos) - pos) as nat, |i: int| data[pos + i] as char)
}

/// `nul_at` stays inside the buffer, passes no zero byte, and stops on one
/// unless it reached the end.
pub proof fn lemma_nul_at(data: Seq<u8>, pos: int)
    requires
        0 <= pos <= data.len(),
    ensures
        pos <= nul_at(data, pos) <= data.len(),
        forall|i: int| pos <= i < nul_at(data, pos) ==> data[i] != 0,
        nul_at(data, pos) < data.len() ==> data[nul_at(data, pos)] == 0,
    decreases data.len() - pos,
{
    if pos < data.len() && data[pos] != 0 {
        lemma_nul_at(data, pos + 1);
    }
}

/// Rounds `n` up to the next even number.
pub fn round_up_even(n: usize) -> (r: usize)
    requires
        n < usize::MAX,
    ensures
        r == even_ceiling(n as int),
{
    if n % 2 == 1 {
        n + 1
    } else {
        n
    }
}

/// Reads the 16-bit signed little-endian integer at `pos`.
pub fn read_i16(data: &Vec<u8>, pos: usize) -> (r: i16)
    requires
        pos + 2 <= data.len(),
    ensures
        r == i16_at(data@, pos as int),
{
    let low: i32 = data[pos] as i32;
    let high: i32 = data[pos + 1] as i32;
    let unsigned: i32 = low + 0x100 * high;
    if unsigned >= 0x8000 {
        (unsigned - 0x1_0000) as i16
    } else {
        unsigned as i16
    }
}

/// Reads the 32-bit signed little-endian integer at `pos`.
pub fn read_i32(data: &Vec<u8>, pos: usize) -> (r: i32)
    requires
        pos + 4 <= data.len(),
    ensures
        r == i32_at(data@, pos as int),
{
    let b0: i64 = data[pos] as i64;
    let b1: i64 = data[pos + 1] as i64;
    let b2: i64 = data[pos + 2] as i64;
    let b3: i64 = data[pos + 3] as i64;
    let unsigned: i64 = b0 + 0x100 * b1 + 0x1_0000 * b2 + 0x100_0000 * b3;
    if unsigned >= 0x8000_0000 {
        (unsigned - 0x1_0000_0000) as i32
    } else {
        unsigned as i32
    }
}

/// Reads the integer at `pos` in the width that `as_32bit` selects.
pub fn read_int(data: &Vec<u8>, pos: usize, as_32bit: bool) -> (r: i32)
    requires
        pos + int_width(as_32bit) <= data.len(),
    ensures
        r == int_at(data@, pos as int, as_32bit),
{
    if as_32bit {
        read_i32(data, pos)
    } else {
        read_i16(data, pos) as i32
    }
}

/// Finds the next zero byte at or after `pos`, or the end of the buffer.
pub fn find_null_term(data: &Vec<u8>, pos: usize) -> (r: usize)
    ensures
        r == nul_at(data@, pos as int),
        pos <= data.len() ==> pos <= r <= data.len(),
{
    let mut term_pos: usize = pos;
    while term_pos < data.len() && data[term_pos] != 0
        invariant
            pos <= term_pos,
            pos <= data.len() ==> term_pos <= data.len(),
            nul_at(data@, term_pos as int) == nul_at(data@, pos as int),
        decreases data.len() - term_pos,
    {
        term_pos += 1;
    }
    term_pos
}

/// Reads the NUL-terminated string that starts at `pos`, and the index at
/// which it ends.
pub fn read_str(data: &Vec<u8>, pos: usize) -> (r: (String, usize))
    requires
        pos <= data.len(),
    ensures
        r.0@ == str_at(data@, pos as int),
        r.1 == nul_at(data@, pos as int),
        pos <= r.1 <= data.len(),
{
    let null_term = find_null_term(data, pos);
    let mut text = String::new();
    let mut i: usize = pos;
    while i < null_term
        invariant
            pos <= i <= null_term <= data.len(),
            text@ == Seq::new((i - pos) as nat, |k: int| data@[pos + k] as char),
        decreases null_term - i,
    {
        text.push(data[i] as char);
        i += 1;
    }
    (text, null_term)
}

} // verus!
