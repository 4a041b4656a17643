use cxterminfo::binary::{find_null_term, read_i16, read_i32, read_int, read_str, round_up_even};
use cxterminfo::terminfo::{TermInfo, TermInfoError};

fn le16(n: i16) -> [u8; 2] {
    n.to_le_bytes()
}

fn header(magic: i16, names: i16, bools: i16, numbers: i16, strings: i16, table: i16) -> Vec<u8> {
    let mut data = Vec::new();
    for field in [magic, names, bools, numbers, strings, table] {
        data.extend_from_slice(&le16(field));
    }
    data
}

/// A legacy database: names "xt\0" and a pad byte, two booleans, two numbers,
/// three strings of which the second is absent.
fn small_database(magic: i16) -> Vec<u8> {
    let mut data = header(magic, 3, 2, 2, 3, 6);
    data.extend_from_slice(b"xt\0");
    data.extend_from_slice(&[1, 0]);
    data.push(0);
    for n in [80i32, -2] {
        if magic == 0x21E {
            data.extend_from_slice(&n.to_le_bytes());
        } else {
            data.extend_from_slice(&le16(n as i16));
        }
    }
    for offset in [4i16, 0, 1] {
        data.extend_from_slice(&le16(offset));
    }
    data.extend_from_slice(b"\0ab\0\x9b\0");
    data
}

#[test]
fn empty_tables_hold_nothing() {
    let info = TermInfo::from_data(header(0x11A, 0, 0, 0, 0, 0)).unwrap();
    for index in [0usize, 1, 7, 500, usize::MAX] {
        assert_eq!(info.get_bool(index), None);
        assert_eq!(info.get_number(index), None);
        assert_eq!(info.get_string(index), None);
    }
    assert_eq!(info.get_ext_bool("AT"), None);
    assert_eq!(info.get_ext_number("AT"), None);
    assert_eq!(info.get_ext_string("AT"), None);
}

#[test]
fn legacy_tables_are_read() {
    let info = TermInfo::from_data(small_database(0x11A)).unwrap();
    assert_eq!(info.get_bool(0), Some(true));
    assert_eq!(info.get_bool(1), Some(false));
    assert_eq!(info.get_number(0), Some(80));
    assert_eq!(info.get_number(1), Some(-2));
    assert_eq!(info.get_string(0), Some("\u{9b}".to_string()));
    assert_eq!(info.get_string(1), None);
    assert_eq!(info.get_string(2), Some("ab".to_string()));
}

#[test]
fn wide_numbers_are_read() {
    let mut data = small_database(0x21E);
    let at = 12 + 3 + 2 + 1;
    data[at..at + 4].copy_from_slice(&70000i32.to_le_bytes());
    let info = TermInfo::from_data(data).unwrap();
    assert_eq!(info.get_number(0), Some(70000));
    assert_eq!(info.get_number(1), Some(-2));
    assert_eq!(info.get_string(2), Some("ab".to_string()));
}

#[test]
fn index_from_the_count_on_is_absent() {
    let info = TermInfo::from_data(small_database(0x11A)).unwrap();
    assert_eq!(info.get_bool(2), None);
    assert_eq!(info.get_number(2), None);
    assert_eq!(info.get_string(3), None);
    assert_eq!(info.get_bool(usize::MAX), None);
    assert_eq!(info.get_number(usize::MAX), None);
    assert_eq!(info.get_string(usize::MAX), None);
}

#[test]
fn size_is_checked_first() {
    assert_eq!(TermInfo::from_data(Vec::new()).err(), Some(TermInfoError::InvalidDataSize));
    assert_eq!(TermInfo::from_data(vec![0xFF; 11]).err(), Some(TermInfoError::InvalidDataSize));
    assert_eq!(TermInfo::from_data(vec![0xFF; 4097]).err(), Some(TermInfoError::InvalidDataSize));
    let mut long = header(0x11A, 0, 0, 0, 0, 0);
    long.resize(4097, 0);
    assert_eq!(TermInfo::from_data(long).err(), Some(TermInfoError::InvalidDataSize));
    let mut longest = header(0x11A, 0, 0, 0, 0, 0);
    longest.resize(4096, 0);
    assert!(TermInfo::from_data(longest).is_ok());
}

#[test]
fn other_magic_is_rejected() {
    assert_eq!(
        TermInfo::from_data(header(0x11B, 0, 0, 0, 0, 0)).err(),
        Some(TermInfoError::InvalidMagicNum)
    );
    assert_eq!(
        TermInfo::from_data(header(0, -1, 0, 0, 0, 0)).err(),
        Some(TermInfoError::InvalidMagicNum)
    );
    assert!(TermInfo::from_data(header(0o432, 0, 0, 0, 0, 0)).is_ok());
    assert!(TermInfo::from_data(header(0o1036, 0, 0, 0, 0, 0)).is_ok());
}

#[test]
fn negative_count_is_rejected() {
    for field in 1..6 {
        let mut counts = [0x11Ai16, 0, 0, 0, 0, 0];
        counts[field] = -1;
        let data = header(counts[0], counts[1], counts[2], counts[3], counts[4], counts[5]);
        assert_eq!(TermInfo::from_data(data).err(), Some(TermInfoError::InvalidData));
    }
}

#[test]
fn tables_behind_the_buffer_are_absent() {
    let info = TermInfo::from_data(header(0x11A, 0, 4, 4, 4, 100)).unwrap();
    assert_eq!(info.get_bool(0), None);
    assert_eq!(info.get_number(0), None);
    assert_eq!(info.get_string(0), None);
    let mut data = header(0x11A, 0, 2, 2, 0, 0);
    data.extend_from_slice(&[1, 1, 7]);
    let info = TermInfo::from_data(data).unwrap();
    assert_eq!(info.get_bool(1), Some(true));
    assert_eq!(info.get_number(0), None);
}

#[test]
fn string_offsets_out_of_range_are_absent() {
    let mut data = header(0x11A, 0, 0, 0, 3, 2);
    data.extend_from_slice(&le16(-1));
    data.extend_from_slice(&le16(2));
    data.extend_from_slice(&le16(3));
    data.extend_from_slice(b"a\0");
    let info = TermInfo::from_data(data).unwrap();
    assert_eq!(info.get_string(0), None);
    assert_eq!(info.get_string(1), Some(String::new()));
    assert_eq!(info.get_string(2), None);
}

#[test]
fn unterminated_string_runs_to_the_end() {
    let mut data = header(0x11A, 0, 0, 0, 1, 3);
    data.extend_from_slice(&le16(1));
    data.extend_from_slice(b"xyz");
    let info = TermInfo::from_data(data).unwrap();
    assert_eq!(info.get_string(0), Some("yz".to_string()));
}

/// An extended section with one boolean, one number and one string, whose
/// three tables lie on top of each other.
fn extended_database(magic: i16) -> Vec<u8> {
    let mut data = header(magic, 0, 0, 0, 0, 0);
    for field in [1i16, 1, 1, 0, 0] {
        data.extend_from_slice(&le16(field));
    }
    data.extend_from_slice(&le16(2));
    data.extend_from_slice(&[1, 0, 0, 0]);
    data.extend_from_slice(&[9, 9, 9, 9]);
    data.extend_from_slice(b"hi\0");
    data.extend_from_slice(b"b\0n\0s\0");
    data
}

#[test]
fn extended_names_are_bound() {
    let info = TermInfo::from_data(extended_database(0x11A)).unwrap();
    assert_eq!(info.get_ext_bool("b"), Some(&true));
    assert_eq!(info.get_ext_number("n"), Some(&1));
    assert_eq!(info.get_ext_string("s"), Some(&"hi".to_string()));
    assert_eq!(info.get_ext_bool("n"), None);
    assert_eq!(info.get_ext_number("s"), None);
    assert_eq!(info.get_ext_string("b"), None);
    assert_eq!(info.get_ext_string(""), None);
}

#[test]
fn extended_numbers_follow_the_magic() {
    let mut data = extended_database(0x21E);
    data[24..28].copy_from_slice(&(-70000i32).to_le_bytes());
    let info = TermInfo::from_data(data).unwrap();
    assert_eq!(info.get_ext_number("n"), Some(&-70000));
    assert_eq!(info.get_ext_bool("b"), Some(&false));
    let mut data = extended_database(0x11A);
    data[24..26].copy_from_slice(&le16(-3));
    let info = TermInfo::from_data(data).unwrap();
    assert_eq!(info.get_ext_number("n"), Some(&-3));
}

#[test]
fn later_name_wins() {
    let mut data = header(0x11A, 0, 0, 0, 0, 0);
    for field in [2i16, 0, 1, 0, 0] {
        data.extend_from_slice(&le16(field));
    }
    data.extend_from_slice(&le16(4));
    data.extend_from_slice(&le16(5));
    data.extend_from_slice(&[1, 0]);
    data.extend_from_slice(&[9; 9]);
    data.extend_from_slice(b"v\0");
    data.extend_from_slice(b"k\0k\0s\0");
    let info = TermInfo::from_data(data).unwrap();
    assert_eq!(info.get_ext_bool("k"), Some(&false));
    assert_eq!(info.get_ext_string("s"), Some(&"v".to_string()));
    assert_eq!(info.get_ext_bool("s"), None);
}

#[test]
fn names_without_strings_begin_at_the_second_byte() {
    let mut data = header(0x11A, 0, 0, 0, 0, 0);
    for field in [1i16, 0, 0, 0, 0] {
        data.extend_from_slice(&le16(field));
    }
    data.extend_from_slice(&le16(2));
    data.push(1);
    let info = TermInfo::from_data(data).unwrap();
    assert_eq!(info.get_ext_bool("\u{1}"), Some(&true));
}

#[test]
fn extended_overrun_leaves_dictionaries_empty() {
    let mut data = extended_database(0x11A);
    data[12..14].copy_from_slice(&le16(300));
    let info = TermInfo::from_data(data).unwrap();
    assert_eq!(info.get_ext_bool("b"), None);
    assert_eq!(info.get_ext_number("n"), None);
    assert_eq!(info.get_ext_string("s"), None);

    let mut data = extended_database(0x11A);
    data[22..24].copy_from_slice(&le16(3000));
    let info = TermInfo::from_data(data).unwrap();
    assert_eq!(info.get_ext_bool("b"), None);
    assert_eq!(info.get_ext_number("n"), None);
    assert_eq!(info.get_ext_string("s"), None);
}

#[test]
fn negative_extended_count_leaves_dictionaries_empty() {
    for at in [12usize, 14, 16] {
        let mut data = extended_database(0x11A);
        data[at..at + 2].copy_from_slice(&le16(-1));
        let info = TermInfo::from_data(data).unwrap();
        assert_eq!(info.get_ext_bool("b"), None);
        assert_eq!(info.get_ext_number("n"), None);
        assert_eq!(info.get_ext_string("s"), None);
    }
}

#[test]
fn missing_names_leave_dictionaries_empty() {
    let mut data = extended_database(0x11A);
    data.truncate(data.len() - 2);
    let info = TermInfo::from_data(data).unwrap();
    assert_eq!(info.get_ext_bool("b"), None);
    assert_eq!(info.get_ext_number("n"), None);
    assert_eq!(info.get_ext_string("s"), None);
}

#[test]
fn main_tables_stay_with_a_broken_extended_section() {
    let mut data = small_database(0x11A);
    for field in [5i16, 5, 5, 0, 0] {
        data.extend_from_slice(&le16(field));
    }
    data.push(0);
    let info = TermInfo::from_data(data).unwrap();
    assert_eq!(info.get_number(0), Some(80));
    assert_eq!(info.get_string(2), Some("ab".to_string()));
    assert_eq!(info.get_ext_bool("xt"), None);
}

#[test]
fn decoder_error_messages() {
    assert_eq!(
        TermInfoError::InvalidDataSize.message(),
        "file/data length is above 4096 bytes or under 12 bytes"
    );
    assert_eq!(TermInfoError::InvalidMagicNum.message(), "magic number mismatch");
    assert_eq!(TermInfoError::InvalidData.message(), "terminfo data is invalid or corrupt");
    assert_eq!(TermInfoError::InvalidName.message(), "terminfo not found");
}

#[test]
fn integers_are_little_endian() {
    let data = vec![0x34, 0x12, 0xFF, 0xFF, 0x00, 0x80, 0x78, 0x56, 0x34, 0x12];
    assert_eq!(read_i16(&data, 0), 0x1234);
    assert_eq!(read_i16(&data, 2), -1);
    assert_eq!(read_i16(&data, 4), i16::MIN);
    assert_eq!(read_i32(&data, 6), 0x12345678);
    assert_eq!(read_i32(&data, 0), -60876);
    assert_eq!(read_i32(&data, 2), i32::MIN + 0xFFFF);
    assert_eq!(read_int(&data, 0, false), 0x1234);
    assert_eq!(read_int(&data, 2, false), -1);
    assert_eq!(read_int(&data, 6, true), 0x12345678);
}

#[test]
fn strings_end_at_nul_or_at_the_end() {
    let data = b"ab\0cd".to_vec();
    assert_eq!(find_null_term(&data, 0), 2);
    assert_eq!(find_null_term(&data, 2), 2);
    assert_eq!(find_null_term(&data, 3), 5);
    assert_eq!(find_null_term(&data, 5), 5);
    assert_eq!(find_null_term(&data, 9), 9);
    assert_eq!(read_str(&data, 0), ("ab".to_string(), 2));
    assert_eq!(read_str(&data, 2), (String::new(), 2));
    assert_eq!(read_str(&data, 3), ("cd".to_string(), 5));
    assert_eq!(read_str(&data, 5), (String::new(), 5));
    assert_eq!(read_str(&vec![0xE9, 0], 0), ("é".to_string(), 1));
}

#[test]
fn rounding_up_to_even() {
    assert_eq!(round_up_even(0), 0);
    assert_eq!(round_up_even(1), 2);
    assert_eq!(round_up_even(12), 12);
    assert_eq!(round_up_even(13), 14);
}
