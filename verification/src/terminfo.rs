//! The binary capability database: header, the three fixed tables, and the
//! named capabilities of the extended section.
//!
//! A database is fully determined by its bytes. Everything that a query returns
//! is stated as a specification function of those bytes; [`TermInfo`] caches the
//! header fields and the extended dictionaries and is proved to agree with them.

use crate::binary::{
    even_ceiling, i16_at, i32_at, int_at, int_width, lemma_nul_at, nul_at, read_i16, read_int,
    read_str, round_up_even, str_at,
};
use vstd::hash_map::StringHashMap;
use vstd::prelude::*;

verus! {

/// Magic number of the legacy format, with 16-bit numbers (octal 0432).
pub const MAGIC_LEGACY: i16 = 0x11A;

/// Magic number of the format with 32-bit numbers (octal 01036).
pub const MAGIC_32BIT: i16 = 0x21E;

/// Offset at which the names section begins; also the size of the header.
pub const NAMES_OFFSET: usize = 12;

/// Size of the header of the extended section.
pub const EXT_HEADER_SIZE: usize = 10;

/// Smallest buffer that can hold a database.
pub const TERMINFO_HEADER_SIZE: usize = 12;

/// Largest buffer that is accepted as a database.
pub const TERMINFO_MAX_SIZE: usize = 4096;

/// Why a buffer was not accepted as a database, or a database not found.
#[derive(Debug, Clone, Copy, PartialEq, Eq, Structural)]
pub enum TermInfoError {
    InvalidDataSize,
    InvalidMagicNum,
    InvalidData,
    InvalidName,
}

impl TermInfoError {
    /// A sentence that describes the error.
    pub fn message(&self) -> (r: &'static str)
        ensures
            r@ == match *self {
                TermInfoError::InvalidDataSize => "file/data length is above 4096 bytes or under 12 bytes"@,
                TermInfoError::InvalidMagicNum => "magic number mismatch"@,
                TermInfoError::InvalidData => "terminfo data is invalid or corrupt"@,
                TermInfoError::InvalidName => "terminfo not found"@,
            },
    {
        match self {
            TermInfoError::InvalidDataSize => "file/data length is above 4096 bytes or under 12 bytes",
            TermInfoError::InvalidMagicNum => "magic number mismatch",
            TermInfoError::InvalidData => "terminfo data is invalid or corrupt",
            TermInfoError::InvalidName => "terminfo not found",
        }
    }
}

// ---------------------------------------------------------------------------
// The header and the layout that follows from it

/// The magic number: the first header field.
pub open spec fn magic(data: Seq<u8>) -> int {
    i16_at(data, 0)
}

/// Whether numbers are stored in four bytes rather than two.
pub open spec fn wide(data: Seq<u8>) -> bool {
    magic(data) == MAGIC_32BIT
}

/// Size in bytes of the names section.
pub open spec fn name_size(data: Seq<u8>) -> int {
    i16_at(data, 2)
}

/// Number of entries of the boolean table.
pub open spec fn bool_count(data: Seq<u8>) -> int {
    i16_at(data, 4)
}

/// Number of entries of the numeric table.
pub open spec fn number_count(data: Seq<u8>) -> int {
    i16_at(data, 6)
}

/// Number of entries of the string-offset table.
pub open spec fn string_count(data: Seq<u8>) -> int {
    i16_at(data, 8)
}

/// Size in bytes of the string table.
pub open spec fn table_size(data: Seq<u8>) -> int {
    i16_at(data, 10)
}

/// The error with which a buffer is rejected, if it is. The size is judged
/// first, then the magic number, then the signs of the five counts.
pub open spec fn decode_error(data: Seq<u8>) -> Option<TermInfoError> {
    if data.len() < TERMINFO_HEADER_SIZE || data.len() > TERMINFO_MAX_SIZE {
        Some(TermInfoError::InvalidDataSize)
    } else if magic(data) != MAGIC_LEGACY && magic(data) != MAGIC_32BIT {
        Some(TermInfoError::InvalidMagicNum)
    } else if name_size(data) < 0 || bool_count(data) < 0 || number_count(data) < 0
        || string_count(data) < 0 || table_size(data) < 0 {
        Some(TermInfoError::InvalidData)
    } else {
        None
    }
}

/// Offset of the boolean table.
pub open spec fn bools_start(data: Seq<u8>) -> int {
    NAMES_OFFSET + name_size(data)
}

/// Offset of the numeric table: the end of the boolean table, made even.
pub open spec fn numbers_start(data: Seq<u8>) -> int {
    even_ceiling(bools_start(data) + bool_count(data))
}

/// Offset of the string-offset table.
pub open spec fn offsets_start(data: Seq<u8>) -> int {
    numbers_start(data) + number_count(data) * int_width(wide(data))
}

/// Offset of the string table.
pub open spec fn table_start(data: Seq<u8>) -> int {
    offsets_start(data) + string_count(data) * 2
}

/// Offset of the extended section: the end of the string table, made even.
pub open spec fn ext_start(data: Seq<u8>) -> int {
    even_ceiling(table_start(data) + table_size(data))
}

// ---------------------------------------------------------------------------
// The three fixed tables

/// The boolean capability `index`: absent from the declared count on, and
/// where its byte lies behind the buffer; else whether the byte is 1.
pub open spec fn bool_capability(data: Seq<u8>, index: int) -> Option<bool> {
    let at = bools_start(data) + index;
    if 0 <= index < bool_count(data) && at < data.len() {
        Some(data[at] == 1)
    } else {
        None
    }
}

/// The numeric capability `index`: absent from the declared count on, and
/// where its bytes do not lie in the buffer; else the stored number.
pub open spec fn number_capability(data: Seq<u8>, index: int) -> Option<i32> {
    let at = numbers_start(data) + index * int_width(wide(data));
    if 0 <= index < number_count(data) && at + int_width(wide(data)) <= data.len() {
        Some(int_at(data, at, wide(data)) as i32)
    } else {
        None
    }
}

/// Where the string capability `index` begins, if it is present: its entry of
/// the offset table lies in the buffer and holds a positive offset, and string
/// table plus offset does not lie behind the buffer.
pub open spec fn string_position(data: Seq<u8>, index: int) -> Option<int> {
    let entry = offsets_start(data) + index * 2;
    if 0 <= index < string_count(data) && entry + 2 <= data.len() && i16_at(data, entry) > 0
        && table_start(data) + i16_at(data, entry) <= data.len() {
        Some(table_start(data) + i16_at(data, entry))
    } else {
        None
    }
}

/// The string capability `index`: the NUL-terminated string at its position.
pub open spec fn string_capability(data: Seq<u8>, index: int) -> Option<Seq<char>> {
    match string_position(data, index) {
        Some(at) => Some(str_at(data, at)),
        None => None,
    }
}

// ---------------------------------------------------------------------------
// The extended section

/// What the extended section holds: the values of its three kinds in table
/// order, and the names that follow its strings.
pub struct Extended {
    pub bools: Seq<bool>,
    pub numbers: Seq<i32>,
    pub strings: Seq<Seq<char>>,
    pub names: Seq<Seq<char>>,
}

/// Whether the buffer holds the header of an extended section.
pub open spec fn ext_present(data: Seq<u8>) -> bool {
    ext_start(data) + EXT_HEADER_SIZE <= data.len()
}

/// Declared number of extended booleans.
pub open spec fn ext_bool_count(data: Seq<u8>) -> int {
    i16_at(data, ext_start(data))
}

/// Declared number of extended numbers.
pub open spec fn ext_number_count(data: Seq<u8>) -> int {
    i16_at(data, ext_start(data) + 2)
}

/// Declared number of extended strings.
pub open spec fn ext_string_count(data: Seq<u8>) -> int {
    i16_at(data, ext_start(data) + 4)
}

/// Number of bytes by which a table of `count` entries moves the next one.
pub open spec fn table_stride(count: int) -> int {
    if count == 0 {
        0
    } else {
        (count - 1) * 2
    }
}

/// Offset of the table of the extended booleans.
pub open spec fn ext_bools_base(data: Seq<u8>) -> int {
    ext_start(data) + EXT_HEADER_SIZE
}

/// Offset of the table of the extended numbers.
pub open spec fn ext_numbers_base(data: Seq<u8>) -> int {
    ext_bools_base(data) + table_stride(ext_bool_count(data))
}

/// Offset of the table of the extended strings.
pub open spec fn ext_strings_base(data: Seq<u8>) -> int {
    ext_numbers_base(data) + table_stride(ext_number_count(data))
}

/// Offset of the extended string table.
pub open spec fn ext_table_base(data: Seq<u8>) -> int {
    ext_strings_base(data) + ext_string_count(data) * 2 + (ext_bool_count(data)
        + ext_number_count(data) + ext_string_count(data)) * 2
}

/// The offset held by entry `i` of the offset table at `base`, if the
/// entry lies in the buffer and is not negative.
pub open spec fn table_entry(data: Seq<u8>, base: int, i: int) -> Option<int> {
    let at = base + i * 2;
    if at + 2 <= data.len() && i16_at(data, at) >= 0 {
        Some(i16_at(data, at))
    } else {
        None
    }
}

/// The extended boolean `i`: whether the byte that its entry points at,
/// counted from the table's own offset, is 1.
pub open spec fn ext_bool_at(data: Seq<u8>, i: int) -> Option<bool> {
    let base = ext_bools_base(data);
    match table_entry(data, base, i) {
        Some(offset) => if base + offset < data.len() {
            Some(data[base + offset] == 1)
        } else {
            None
        },
        None => None,
    }
}

/// The extended number `i`: the number that its entry points at, counted
/// from the table's own offset.
pub open spec fn ext_number_at(data: Seq<u8>, i: int) -> Option<i32> {
    let base = ext_numbers_base(data);
    match table_entry(data, base, i) {
        Some(offset) => if base + offset + int_width(wide(data)) <= data.len() {
            Some(int_at(data, base + offset, wide(data)) as i32)
        } else {
            None
        },
        None => None,
    }
}

/// Where the extended string `i` begins: its entry counted from the extended
/// string table.
pub open spec fn ext_string_start(data: Seq<u8>, i: int) -> Option<int> {
    match table_entry(data, ext_strings_base(data), i) {
        Some(offset) => if ext_table_base(data) + offset <= data.len() {
            Some(ext_table_base(data) + offset)
        } else {
            None
        },
        None => None,
    }
}

/// The values of the extended booleans, if every one of them exists.
pub open spec fn ext_bool_values(data: Seq<u8>) -> Option<Seq<bool>> {
    if forall|i: int| 0 <= i < ext_bool_count(data) ==> (#[trigger] ext_bool_at(data, i)) is Some {
        Some(Seq::new(ext_bool_count(data) as nat, |i: int| ext_bool_at(data, i)->0))
    } else {
        None
    }
}

/// The values of the extended numbers, if every one of them exists.
pub open spec fn ext_number_values(data: Seq<u8>) -> Option<Seq<i32>> {
    if forall|i: int|
        0 <= i < ext_number_count(data) ==> (#[trigger] ext_number_at(data, i)) is Some {
        Some(Seq::new(ext_number_count(data) as nat, |i: int| ext_number_at(data, i)->0))
    } else {
        None
    }
}

/// Where the extended strings begin, if every one of them exists.
pub open spec fn ext_string_starts(data: Seq<u8>) -> Option<Seq<int>> {
    if forall|i: int|
        0 <= i < ext_string_count(data) ==> (#[trigger] ext_string_start(data, i)) is Some {
        Some(Seq::new(ext_string_count(data) as nat, |i: int| ext_string_start(data, i)->0))
    } else {
        None
    }
}

/// The largest index at which one of the strings that begin at `starts`
/// ends; 0 if there is none.
pub open spec fn last_end(data: Seq<u8>, starts: Seq<int>) -> int
    decreases starts.len(),
{
    if starts.len() == 0 {
        0
    } else {
        let before = last_end(data, starts.drop_last());
        let end = nul_at(data, starts.last());
        if end > before {
            end
        } else {
            before
        }
    }
}

/// The NUL-terminated strings that fill the buffer from `pos` to its end.
pub open spec fn names_from(data: Seq<u8>, pos: int) -> Seq<Seq<char>>
    decreases data.len() + 1 - pos,
    via names_from_terminates
{
    if pos < 0 || pos >= data.len() {
        Seq::empty()
    } else {
        seq![str_at(data, pos)] + names_from(data, nul_at(data, pos) + 1)
    }
}

#[via_fn]
proof fn names_from_terminates(data: Seq<u8>, pos: int) {
    if 0 <= pos < data.len() {
        lemma_nul_at(data, pos);
    }
}

/// The extended section of an accepted buffer, if it is present and
/// consistent: no count is negative, every table entry and every value that
/// it points at lies in the buffer, and there is a name for every value. The
/// names begin behind the end of the extended string that ends last, and
/// fill the rest of the buffer; names beyond the last value are not used.
pub open spec fn extended(data: Seq<u8>) -> Option<Extended> {
    if decode_error(data) is None && ext_present(data) && ext_bool_count(data) >= 0
        && ext_number_count(data) >= 0 && ext_string_count(data) >= 0 {
        let bools = ext_bool_values(data);
        let numbers = ext_number_values(data);
        let starts = ext_string_starts(data);
        if bools is Some && numbers is Some && starts is Some {
            let names = names_from(data, last_end(data, starts->0) + 1);
            if names.len() >= ext_bool_count(data) + ext_number_count(data) + ext_string_count(
                data,
            ) {
                Some(
                    Extended {
                        bools: bools->0,
                        numbers: numbers->0,
                        strings: Seq::new(
                            ext_string_count(data) as nat,
                            |i: int| str_at(data, starts->0[i]),
                        ),
                        names,
                    },
                )
            } else {
                None
            }
        } else {
            None
        }
    } else {
        None
    }
}

/// The dictionary that binds `names[first]`, `names[first + 1]`, ... to the
/// first `count` of `values`, in this order: of two values under one name the
/// later one stays.
pub open spec fn bind<T>(names: Seq<Seq<char>>, first: int, values: Seq<T>, count: int) -> Map<
    Seq<char>,
    T,
>
    decreases count,
{
    if count <= 0 {
        Map::empty()
    } else {
        bind(names, first, values, count - 1).insert(names[first + count - 1], values[count - 1])
    }
}

/// The extended booleans by name; empty without a consistent extended section.
pub open spec fn ext_bools(data: Seq<u8>) -> Map<Seq<char>, bool> {
    match extended(data) {
        Some(x) => bind(x.names, 0, x.bools, x.bools.len() as int),
        None => Map::empty(),
    }
}

/// The extended numbers by name; empty without a consistent extended section.
pub open spec fn ext_numbers(data: Seq<u8>) -> Map<Seq<char>, i32> {
    match extended(data) {
        Some(x) => bind(x.names, x.bools.len() as int, x.numbers, x.numbers.len() as int),
        None => Map::empty(),
    }
}

/// The extended strings by name; empty without a consistent extended section.
pub open spec fn ext_strings(data: Seq<u8>) -> Map<Seq<char>, Seq<char>> {
    match extended(data) {
        Some(x) => bind(
            x.names,
            (x.bools.len() + x.numbers.len()) as int,
            x.strings,
            x.strings.len() as int,
        ),
        None => Map::empty(),
    }
}

// ---------------------------------------------------------------------------
// The decoder

/// The views of a sequence of strings.
pub open spec fn texts(strings: Seq<String>) -> Seq<Seq<char>> {
    strings.map_values(|s: String| s@)
}

/// The views of the values of a dictionary of strings.
pub open spec fn text_values(dict: Map<Seq<char>, String>) -> Map<Seq<char>, Seq<char>> {
    dict.map_values(|s: String| s@)
}

/// The values and names read from an extended section.
struct ExtendedValues {
    bools: Vec<bool>,
    numbers: Vec<i32>,
    strings: Vec<String>,
    names: Vec<String>,
}

impl View for ExtendedValues {
    type V = Extended;

    closed spec fn view(&self) -> Extended {
        Extended {
            bools: self.bools@,
            numbers: self.numbers@,
            strings: texts(self.strings@),
            names: texts(self.names@),
        }
    }
}

/// Reads entry `i` of the offset table at `base`.
fn read_table_entry(data: &Vec<u8>, base: usize, i: usize) -> (r: Option<usize>)
    requires
        base <= 0x10_0000,
        i < 0x8000,
    ensures
        match r {
            Some(offset) => table_entry(data@, base as int, i as int) == Some(offset as int),
            None => table_entry(data@, base as int, i as int) is None,
        },
{
    let at = base + i * 2;
    if at + 2 > data.len() {
        return None;
    }
    let offset = read_i16(data, at);
    if offset < 0 {
        None
    } else {
        Some(offset as usize)
    }
}

/// Reads the values of the extended booleans.
fn read_ext_bools(data: &Vec<u8>, base: usize, count: usize) -> (r: Option<Vec<bool>>)
    requires
        base == ext_bools_base(data@),
        count == ext_bool_count(data@),
        base <= 0x10_0000,
    ensures
        match r {
            Some(values) => ext_bool_values(data@) == Some(values@),
            None => ext_bool_values(data@) is None,
        },
{
    let mut values: Vec<bool> = Vec::new();
    let mut i: usize = 0;
    while i < count
        invariant
            i <= count < 0x8000,
            base == ext_bools_base(data@),
            count == ext_bool_count(data@),
            base <= 0x10_0000,
            values@.len() == i,
            forall|j: int| 0 <= j < i ==> (#[trigger] ext_bool_at(data@, j)) == Some(values@[j]),
        decreases count - i,
    {
        match read_table_entry(data, base, i) {
            None => {
                assert(ext_bool_at(data@, i as int) is None);
                return None;
            },
            Some(offset) => {
                let at = base + offset;
                if at >= data.len() {
                    assert(ext_bool_at(data@, i as int) is None);
                    return None;
                }
                values.push(data[at] == 1);
            },
        }
        i += 1;
    }
    assert(values@ =~= ext_bool_values(data@)->0);
    Some(values)
}

/// Reads the values of the extended numbers.
fn read_ext_numbers(data: &Vec<u8>, base: usize, count: usize, as_32bit: bool) -> (r: Option<
    Vec<i32>,
>)
    requires
        base == ext_numbers_base(data@),
        count == ext_number_count(data@),
        as_32bit == wide(data@),
        base <= 0x10_0000,
    ensures
        match r {
            Some(values) => ext_number_values(data@) == Some(values@),
            None => ext_number_values(data@) is None,
        },
{
    let mut values: Vec<i32> = Vec::new();
    let mut i: usize = 0;
    while i < count
        invariant
            i <= count < 0x8000,
            base == ext_numbers_base(data@),
            count == ext_number_count(data@),
            as_32bit == wide(data@),
            base <= 0x10_0000,
            values@.len() == i,
            forall|j: int|
                0 <= j < i ==> (#[trigger] ext_number_at(data@, j)) == Some(values@[j]),
        decreases count - i,
    {
        match read_table_entry(data, base, i) {
            None => {
                assert(ext_number_at(data@, i as int) is None);
                return None;
            },
            Some(offset) => {
                let at = base + offset;
                let width: usize = if as_32bit {
                    4
                } else {
                    2
                };
                if at + width > data.len() {
                    assert(ext_number_at(data@, i as int) is None);
                    return None;
                }
                values.push(read_int(data, at, as_32bit));
            },
        }
        i += 1;
    }
    assert(values@ =~= ext_number_values(data@)->0);
    Some(values)
}

/// Reads the extended strings, and the largest index at which one ends.
fn read_ext_strings(data: &Vec<u8>, base: usize, table: usize, count: usize) -> (r: Option<
    (Vec<String>, usize),
>)
    requires
        base == ext_strings_base(data@),
        table == ext_table_base(data@),
        count == ext_string_count(data@),
        base <= 0x10_0000,
        table <= 0x10_0000,
    ensures
        match r {
            Some((values, end)) => {
                &&& ext_string_starts(data@) is Some
                &&& texts(values@) == Seq::new(
                    count as nat,
                    |i: int| str_at(data@, ext_string_starts(data@)->0[i]),
                )
                &&& end == last_end(data@, ext_string_starts(data@)->0)
                &&& end <= data.len()
            },
            None => ext_string_starts(data@) is None,
        },
{
    let mut values: Vec<String> = Vec::new();
    let mut end: usize = 0;
    let ghost mut starts: Seq<int> = Seq::empty();
    let mut i: usize = 0;
    while i < count
        invariant
            i <= count < 0x8000,
            base == ext_strings_base(data@),
            table == ext_table_base(data@),
            count == ext_string_count(data@),
            base <= 0x10_0000,
            table <= 0x10_0000,
            values@.len() == i,
            starts.len() == i,
            forall|j: int|
                0 <= j < i ==> (#[trigger] ext_string_start(data@, j)) == Some(starts[j]),
            forall|j: int| 0 <= j < i ==> (#[trigger] values@[j])@ == str_at(data@, starts[j]),
            end == last_end(data@, starts),
            end <= data.len(),
        decreases count - i,
    {
        match read_table_entry(data, base, i) {
            None => {
                assert(ext_string_start(data@, i as int) is None);
                return None;
            },
            Some(offset) => {
                let at = table + offset;
                if at > data.len() {
                    assert(ext_string_start(data@, i as int) is None);
                    return None;
                }
                let (text, null_term_pos) = read_str(data, at);
                proof {
                    assert(starts.push(at as int).drop_last() =~= starts);
                    starts = starts.push(at as int);
                }
                values.push(text);
                if null_term_pos > end {
                    end = null_term_pos;
                }
            },
        }
        i += 1;
    }
    assert(starts =~= ext_string_starts(data@)->0);
    assert(texts(values@) =~= Seq::new(
        count as nat,
        |i: int| str_at(data@, ext_string_starts(data@)->0[i]),
    ));
    Some((values, end))
}

/// Reads the NUL-terminated strings that fill the buffer from `start` on.
fn read_names(data: &Vec<u8>, start: usize) -> (names: Vec<String>)
    requires
        data.len() <= TERMINFO_MAX_SIZE,
    ensures
        texts(names@) == names_from(data@, start as int),
{
    let mut names: Vec<String> = Vec::new();
    let mut pos: usize = start;
    while pos < data.len()
        invariant
            data.len() <= TERMINFO_MAX_SIZE,
            texts(names@) + names_from(data@, pos as int) == names_from(data@, start as int),
        decreases data.len() + 1 - pos,
    {
        let (text, null_term_pos) = read_str(data, pos);
        let ghost before = texts(names@);
        names.push(text);
        assert(texts(names@) =~= before.push(text@));
        assert(before.push(text@) + names_from(data@, null_term_pos + 1) =~= before + (seq![
            text@,
        ] + names_from(data@, null_term_pos + 1)));
        pos = null_term_pos + 1;
    }
    assert(texts(names@) + names_from(data@, pos as int) =~= texts(names@));
    names
}

/// Reads the extended section of a buffer whose header was accepted.
fn read_extended(data: &Vec<u8>, as_32bit: bool, start: usize) -> (r: Option<ExtendedValues>)
    requires
        decode_error(data@) is None,
        as_32bit == wide(data@),
        start == ext_start(data@),
    ensures
        match r {
            Some(values) => extended(data@) == Some(values@),
            None => extended(data@) is None,
        },
{
    if start + EXT_HEADER_SIZE > data.len() {
        return None;
    }
    let declared_bools = read_i16(data, start);
    let declared_numbers = read_i16(data, start + 2);
    let declared_strings = read_i16(data, start + 4);
    if declared_bools < 0 || declared_numbers < 0 || declared_strings < 0 {
        return None;
    }
    let ext_bool_count = declared_bools as usize;
    let ext_number_count = declared_numbers as usize;
    let ext_str_count = declared_strings as usize;

    let mut ext_offset = start + EXT_HEADER_SIZE;
    let bools = match read_ext_bools(data, ext_offset, ext_bool_count) {
        Some(values) => values,
        None => {
            return None;
        },
    };

    ext_offset += if ext_bool_count == 0 {
        0
    } else {
        (ext_bool_count - 1) * 2
    };
    let numbers = match read_ext_numbers(data, ext_offset, ext_number_count, as_32bit) {
        Some(values) => values,
        None => {
            return None;
        },
    };

    ext_offset += if ext_number_count == 0 {
        0
    } else {
        (ext_number_count - 1) * 2
    };
    let tbl_offset = ext_offset + ext_str_count * 2 + (ext_bool_count + ext_number_count
        + ext_str_count) * 2;
    let (strings, last_end) = match read_ext_strings(data, ext_offset, tbl_offset, ext_str_count) {
        Some(found) => found,
        None => {
            return None;
        },
    };

    let names = read_names(data, last_end + 1);
    if names.len() < ext_bool_count + ext_number_count + ext_str_count {
        assert(texts(names@).len() == names@.len());
        return None;
    }
    assert(texts(names@).len() == names@.len());
    Some(ExtendedValues { bools, numbers, strings, names })
}

/// A decoded capability database. It keeps the buffer it was made from and
/// never changes; every query is a function of that buffer.
pub struct TermInfo {
    data: Vec<u8>,
    read_i32: bool,
    int_size: usize,
    sec_name_size: usize,
    sec_bool_size: usize,
    sec_number_size: usize,
    sec_str_offsets_size: usize,
    sec_str_table_size: usize,
    ext_bool: StringHashMap<bool>,
    ext_numbers: StringHashMap<i32>,
    ext_strings: StringHashMap<String>,
}

impl View for TermInfo {
    type V = Seq<u8>;

    /// The bytes that the database was decoded from.
    closed spec fn view(&self) -> Seq<u8> {
        self.data@
    }
}

impl TermInfo {
    /// The cached fields are those of the header of an accepted buffer, and
    /// the dictionaries are those of its extended section.
    #[verifier::type_invariant]
    spec fn well_formed(self) -> bool {
        &&& decode_error(self.data@) is None
        &&& self.read_i32 == wide(self.data@)
        &&& self.int_size == int_width(wide(self.data@))
        &&& self.sec_name_size == name_size(self.data@)
        &&& self.sec_bool_size == bool_count(self.data@)
        &&& self.sec_number_size == number_count(self.data@)
        &&& self.sec_str_offsets_size == string_count(self.data@)
        &&& self.sec_str_table_size == table_size(self.data@)
        &&& self.ext_bool@ == ext_bools(self.data@)
        &&& self.ext_numbers@ == ext_numbers(self.data@)
        &&& text_values(self.ext_strings@) == ext_strings(self.data@)
    }

    /// The string capability at `index` of the string table, if present.
    pub fn get_string(&self, index: usize) -> (r: Option<String>)
        ensures
            match r {
                Some(text) => string_capability(self@, index as int) == Some(text@),
                None => string_capability(self@, index as int) is None,
            },
    {
        proof {
            use_type_invariant(self);
        }
        if index >= self.sec_str_offsets_size {
            None
        } else {
            let entry = self.offset_str_offsets() + (index * 2);
            if entry + 2 > self.data.len() {
                return None;
            }
            let tbl_idx = read_i16(&self.data, entry);
            if tbl_idx <= 0 {
                None
            } else {
                let at = self.offset_str_table() + tbl_idx as usize;
                if at > self.data.len() {
                    return None;
                }
                Some(read_str(&self.data, at).0)
            }
        }
    }

    /// The numeric capability at `index` of the numeric table, if present.
    pub fn get_number(&self, index: usize) -> (r: Option<i32>)
        ensures
            r == number_capability(self@, index as int),
    {
        proof {
            use_type_invariant(self);
        }
        if index >= self.sec_number_size {
            None
        } else {
            let at = self.offset_number() + (index * self.int_size);
            if at + self.int_size > self.data.len() {
                return None;
            }
            Some(read_int(&self.data, at, self.read_i32))
        }
    }

    /// The boolean capability at `index` of the boolean table, if present.
    pub fn get_bool(&self, index: usize) -> (r: Option<bool>)
        ensures
            r == bool_capability(self@, index as int),
    {
        proof {
            use_type_invariant(self);
        }
        if index >= self.sec_bool_size {
            None
        } else {
            let at = self.offset_bool() + index;
            if at >= self.data.len() {
                return None;
            }
            Some(self.data[at] == 1)
        }
    }

    /// The extended boolean capability called `name`, if there is one.
    pub fn get_ext_bool(&self, name: &str) -> (r: Option<&bool>)
        ensures
            match r {
                Some(value) => ext_bools(self@).contains_key(name@) && *value == ext_bools(
                    self@,
                )[name@],
                None => !ext_bools(self@).contains_key(name@),
            },
    {
        proof {
            use_type_invariant(self);
        }
        self.ext_bool.get(name)
    }

    /// The extended numeric capability called `name`, if there is one.
    pub fn get_ext_number(&self, name: &str) -> (r: Option<&i32>)
        ensures
            match r {
                Some(value) => ext_numbers(self@).contains_key(name@) && *value == ext_numbers(
                    self@,
                )[name@],
                None => !ext_numbers(self@).contains_key(name@),
            },
    {
        proof {
            use_type_invariant(self);
        }
        self.ext_numbers.get(name)
    }

    /// The extended string capability called `name`, if there is one.
    pub fn get_ext_string(&self, name: &str) -> (r: Option<&String>)
        ensures
            match r {
                Some(value) => ext_strings(self@).contains_key(name@) && value@ == ext_strings(
                    self@,
                )[name@],
                None => !ext_strings(self@).contains_key(name@),
            },
    {
        proof {
            use_type_invariant(self);
        }
        self.ext_strings.get(name)
    }

    /// Decodes a database from its bytes.
    ///
    /// The buffer is rejected for its size, its magic number or a negative
    /// count in its header, in this order, and for nothing else. An extended
    /// section that is absent or inconsistent leaves the three extended
    /// dictionaries empty.
    pub fn from_data(data: Vec<u8>) -> (r: Result<TermInfo, TermInfoError>)
        ensures
            match r {
                Ok(info) => decode_error(data@) is None && info@ == data@,
                Err(e) => decode_error(data@) == Some(e),
            },
    {
        if data.len() < TERMINFO_HEADER_SIZE || data.len() > TERMINFO_MAX_SIZE {
            return Err(TermInfoError::InvalidDataSize);
        }
        let magic = read_i16(&data, 0);
        let read_i32 = if magic == MAGIC_LEGACY {
            false
        } else if magic == MAGIC_32BIT {
            true
        } else {
            return Err(TermInfoError::InvalidMagicNum);
        };
        let int_size: usize = if read_i32 {
            4
        } else {
            2
        };
        if read_i16(&data, 2) < 0 || read_i16(&data, 4) < 0 || read_i16(&data, 6) < 0 || read_i16(
            &data,
            8,
        ) < 0 || read_i16(&data, 10) < 0 {
            return Err(TermInfoError::InvalidData);
        }
        let sec_name_size = read_i16(&data, 2) as usize;
        let sec_bool_size = read_i16(&data, 4) as usize;
        let sec_number_size = read_i16(&data, 6) as usize;
        let sec_str_offsets_size = read_i16(&data, 8) as usize;
        let sec_str_table_size = read_i16(&data, 10) as usize;

        let str_table = round_up_even(NAMES_OFFSET + sec_name_size + sec_bool_size)
            + sec_number_size * int_size + sec_str_offsets_size * 2;
        let ext_offset = round_up_even(str_table + sec_str_table_size);

        let mut ext_bool: StringHashMap<bool> = StringHashMap::new();
        let mut ext_numbers: StringHashMap<i32> = StringHashMap::new();
        let mut ext_strings: StringHashMap<String> = StringHashMap::new();
        assert(text_values(ext_strings@) =~= Map::<Seq<char>, Seq<char>>::empty());

        match read_extended(&data, read_i32, ext_offset) {
            None => {},
            Some(found) => {
                let ghost names = texts(found.names@);
                let ext_bool_count = found.bools.len();
                let ext_number_count = found.numbers.len();
                let ext_str_count = found.strings.len();
                let name_count = found.names.len();
                assert(texts(found.strings@).len() == found.strings@.len());
                assert(names.len() == found.names@.len());

                let mut i: usize = 0;
                while i < ext_bool_count
                    invariant
                        i <= ext_bool_count == found.bools@.len(),
                        ext_bool_count <= name_count == found.names@.len(),
                        names == texts(found.names@),
                        ext_bool@ == bind(names, 0, found.bools@, i as int),
                    decreases ext_bool_count - i,
                {
                    ext_bool.insert(found.names[i].clone(), found.bools[i]);
                    i += 1;
                }

                let mut i: usize = 0;
                while i < ext_number_count
                    invariant
                        i <= ext_number_count == found.numbers@.len(),
                        ext_bool_count + ext_number_count <= name_count == found.names@.len(),
                        names == texts(found.names@),
                        ext_numbers@ == bind(
                            names,
                            ext_bool_count as int,
                            found.numbers@,
                            i as int,
                        ),
                    decreases ext_number_count - i,
                {
                    ext_numbers.insert(found.names[i + ext_bool_count].clone(), found.numbers[i]);
                    i += 1;
                }

                let mut i: usize = 0;
                while i < ext_str_count
                    invariant
                        i <= ext_str_count == found.strings@.len(),
                        ext_bool_count + ext_number_count + ext_str_count <= name_count
                            == found.names@.len(),
                        names == texts(found.names@),
                        text_values(ext_strings@) == bind(
                            names,
                            ext_bool_count + ext_number_count,
                            texts(found.strings@),
                            i as int,
                        ),
                    decreases ext_str_count - i,
                {
                    let ghost before = ext_strings@;
                    let name = found.names[i + ext_bool_count + ext_number_count].clone();
                    let value = found.strings[i].clone();
                    ext_strings.insert(name, value);
                    assert(text_values(ext_strings@) =~= text_values(before).insert(
                        name@,
                        value@,
                    ));
                    i += 1;
                }
            },
        }

        Ok(
            TermInfo {
                data,
                read_i32,
                int_size,
                sec_name_size,
                sec_bool_size,
                sec_number_size,
                sec_str_offsets_size,
                sec_str_table_size,
                ext_bool,
                ext_numbers,
                ext_strings,
            },
        )
    }

    /// The offset into the buffer at which the boolean table begins.
    fn offset_bool(&self) -> (r: usize)
        ensures
            r == bools_start(self.data@),
    {
        proof {
            use_type_invariant(self);
        }
        NAMES_OFFSET + self.sec_name_size
    }

    /// The offset into the buffer at which the numeric table begins.
    fn offset_number(&self) -> (r: usize)
        ensures
            r == numbers_start(self.data@),
    {
        proof {
            use_type_invariant(self);
        }
        round_up_even(self.offset_bool() + self.sec_bool_size)
    }

    /// The offset into the buffer at which the string-offset table begins.
    fn offset_str_offsets(&self) -> (r: usize)
        ensures
            r == offsets_start(self.data@),
    {
        proof {
            use_type_invariant(self);
        }
        self.offset_number() + (self.sec_number_size * self.int_size)
    }

    /// The offset into the buffer at which the string table begins.
    fn offset_str_table(&self) -> (r: usize)
        ensures
            r == table_start(self.data@),
    {
        proof {
            use_type_invariant(self);
        }
        self.offset_str_offsets() + (self.sec_str_offsets_size * 2)
    }
}

// ---------------------------------------------------------------------------
// What holds of every buffer

/// A database whose three tables are declared empty has no capability at any
/// index.
pub proof fn lemma_empty_tables_hold_nothing(data: Seq<u8>, index: int)
    requires
        bool_count(data) == 0,
        number_count(data) == 0,
        string_count(data) == 0,
    ensures
        bool_capability(data, index) is None,
        number_capability(data, index) is None,
        string_capability(data, index) is None,
{
}

/// From the declared count of a table on, its capabilities are absent.
pub proof fn lemma_absent_from_count_on(data: Seq<u8>, index: int)
    ensures
        index >= bool_count(data) ==> bool_capability(data, index) is None,
        index >= number_count(data) ==> number_capability(data, index) is None,
        index >= string_count(data) ==> string_capability(data, index) is None,
{
}

/// A buffer of less than 12 or more than 4096 bytes is rejected for its
/// size, whatever it holds.
pub proof fn lemma_size_is_judged_first(data: Seq<u8>)
    requires
        data.len() < 12 || data.len() > 4096,
    ensures
        decode_error(data) == Some(TermInfoError::InvalidDataSize),
{
}

/// In a buffer of accepted size the magic number decides: the legacy one
/// selects numbers of two bytes, the other one numbers of four bytes, and
/// with any other the buffer is rejected for its magic number. Neither of the
/// two is rejected for it.
pub proof fn lemma_magic_selects_width(data: Seq<u8>, index: int)
    requires
        12 <= data.len() <= 4096,
    ensures
        magic(data) == 0x11A ==> {
            &&& decode_error(data) != Some(TermInfoError::InvalidMagicNum)
            &&& (number_capability(data, index) matches Some(n) ==> n == i16_at(
                data,
                numbers_start(data) + index * 2,
            ))
            &&& (number_capability(data, index) is Some <==> 0 <= index < number_count(data)
                && numbers_start(data) + index * 2 + 2 <= data.len())
        },
        magic(data) == 0x21E ==> {
            &&& decode_error(data) != Some(TermInfoError::InvalidMagicNum)
            &&& (number_capability(data, index) matches Some(n) ==> n == i32_at(
                data,
                numbers_start(data) + index * 4,
            ))
            &&& (number_capability(data, index) is Some <==> 0 <= index < number_count(data)
                && numbers_start(data) + index * 4 + 4 <= data.len())
        },
        magic(data) != 0x11A && magic(data) != 0x21E ==> decode_error(data) == Some(
            TermInfoError::InvalidMagicNum,
        ),
{
}

/// Without a consistent extended section the three dictionaries are empty.
pub proof fn lemma_no_extended_no_names(data: Seq<u8>)
    requires
        extended(data) is None,
    ensures
        ext_bools(data) == Map::<Seq<char>, bool>::empty(),
        ext_numbers(data) == Map::<Seq<char>, i32>::empty(),
        ext_strings(data) == Map::<Seq<char>, Seq<char>>::empty(),
{
}

/// An extended header with a negative count, or one that declares a table
/// that runs over the end of the buffer, does not make the buffer invalid: it
/// leaves the extended section out, and so the three dictionaries empty.
pub proof fn lemma_extended_overrun_is_dropped(data: Seq<u8>)
    requires
        decode_error(data) is None,
        ext_present(data),
        ({
            ||| ext_bool_count(data) < 0
            ||| ext_number_count(data) < 0
            ||| ext_string_count(data) < 0
            ||| ext_bool_count(data) > 0 && ext_bools_base(data) + ext_bool_count(data) * 2
                > data.len()
            ||| ext_number_count(data) > 0 && ext_numbers_base(data) + ext_number_count(data) * 2
                > data.len()
            ||| ext_string_count(data) > 0 && ext_strings_base(data) + ext_string_count(data) * 2
                > data.len()
        }),
    ensures
        extended(data) is None,
        ext_bools(data) == Map::<Seq<char>, bool>::empty(),
        ext_numbers(data) == Map::<Seq<char>, i32>::empty(),
        ext_strings(data) == Map::<Seq<char>, Seq<char>>::empty(),
{
    if ext_bool_count(data) >= 0 && ext_number_count(data) >= 0 && ext_string_count(data) >= 0 {
        if ext_bool_count(data) > 0 && ext_bools_base(data) + ext_bool_count(data) * 2
            > data.len() {
            assert(ext_bool_at(data, ext_bool_count(data) - 1) is None);
        } else if ext_number_count(data) > 0 && ext_numbers_base(data) + ext_number_count(data)
            * 2 > data.len() {
            assert(ext_number_at(data, ext_number_count(data) - 1) is None);
        } else {
            assert(ext_string_start(data, ext_string_count(data) - 1) is None);
        }
    }
}

/// An extended value that its table places behind the end of the buffer
/// leaves the whole extended section out.
pub proof fn lemma_extended_value_out_of_range(data: Seq<u8>, i: int)
    requires
        ({
            ||| 0 <= i < ext_bool_count(data) && ext_bool_at(data, i) is None
            ||| 0 <= i < ext_number_count(data) && ext_number_at(data, i) is None
            ||| 0 <= i < ext_string_count(data) && ext_string_start(data, i) is None
        }),
    ensures
        extended(data) is None,
        ext_bools(data) == Map::<Seq<char>, bool>::empty(),
        ext_numbers(data) == Map::<Seq<char>, i32>::empty(),
        ext_strings(data) == Map::<Seq<char>, Seq<char>>::empty(),
{
}

} // verus!
