//! The places in which the database of a terminal is looked for.

use crate::formatter::{digits, push_digits};
use crate::terminfo::texts;
use vstd::prelude::*;
use vstd::string::StringExecFns;

verus! {

/// The letter under which a terminal is filed: the first character of its
/// name, and `X` for the empty name.
pub open spec fn filing_letter(name: Seq<char>) -> char {
    if name.len() > 0 {
        name[0]
    } else {
        'X'
    }
}

/// The directory of a terminal where directories are named by letters.
pub open spec fn letter_directory(name: Seq<char>) -> Seq<char> {
    seq![filing_letter(name)]
}

/// The directory of a terminal where directories are named by the code of
/// the letter, in capital hexadecimal digits; of the code its low byte counts.
pub open spec fn code_directory(name: Seq<char>) -> Seq<char> {
    digits((filing_letter(name) as nat) % 256, 16, true)
}

/// The path of the entry `name` in the directory `sub` of `base`.
pub open spec fn entry_path(base: Seq<char>, sub: Seq<char>, name: Seq<char>) -> Seq<char> {
    base + seq!['/'] + sub + seq!['/'] + name
}

/// The entry `name` under `base`, if there is a `base`.
pub open spec fn optional_path(base: Option<Seq<char>>, name: Seq<char>) -> Seq<Seq<char>> {
    match base {
        Some(dir) => seq![entry_path(dir, letter_directory(name), name)],
        None => Seq::empty(),
    }
}

/// The entry `name` in each of the four directories of the system, filed
/// under `sub`.
pub open spec fn system_paths(sub: Seq<char>, name: Seq<char>) -> Seq<Seq<char>> {
    seq![
        entry_path("/etc/terminfo"@, sub, name),
        entry_path("/lib/terminfo"@, sub, name),
        entry_path("/usr/share/terminfo"@, sub, name),
        entry_path("/usr/share/misc/terminfo"@, sub, name),
    ]
}

/// The files that may hold the database of the terminal `name`, in the order
/// in which they are tried: under the directory that the user has set, under
/// the home directory, then in the directories of the system, first filed by
/// letter and then by code.
pub open spec fn candidate_paths(
    name: Seq<char>,
    terminfo: Option<Seq<char>>,
    home: Option<Seq<char>>,
) -> Seq<Seq<char>> {
    optional_path(terminfo, name) + optional_path(home, name) + system_paths(
        letter_directory(name),
        name,
    ) + system_paths(code_directory(name), name)
}

/// The view of a string that may be missing.
pub open spec fn optional_text(text: Option<&str>) -> Option<Seq<char>> {
    match text {
        Some(s) => Some(s@),
        None => None,
    }
}

/// Builds the path of the entry `name` in the directory `sub` of `base`.
fn entry(base: &str, sub: &str, name: &str) -> (path: String)
    ensures
        path@ == entry_path(base@, sub@, name@),
{
    let mut path = base.to_owned();
    path.push('/');
    path.append(sub);
    path.push('/');
    path.append(name);
    assert(path@ =~= entry_path(base@, sub@, name@));
    path
}

/// Appends the entry `name` in each of the four directories of the system.
fn push_system_paths(paths: &mut Vec<String>, sub: &str, name: &str)
    ensures
        texts(final(paths)@) == texts(old(paths)@) + system_paths(sub@, name@),
{
    paths.push(entry("/etc/terminfo", sub, name));
    paths.push(entry("/lib/terminfo", sub, name));
    paths.push(entry("/usr/share/terminfo", sub, name));
    paths.push(entry("/usr/share/misc/terminfo", sub, name));
    assert(texts(paths@) =~= texts(old(paths)@) + system_paths(sub@, name@));
}

/// The files that may hold the database of the terminal `name`, where
/// `terminfo` is the directory that the user has set and `home` the home
/// directory, if there is one.
pub fn search_paths(name: &str, terminfo: Option<&str>, home: Option<&str>) -> (paths: Vec<String>)
    ensures
        texts(paths@) == candidate_paths(name@, optional_text(terminfo), optional_text(home)),
{
    let first_letter = if name.unicode_len() > 0 {
        name.get_char(0)
    } else {
        'X'
    };
    let mut letter = String::new();
    letter.push(first_letter);
    assert(letter@ =~= letter_directory(name@));
    let mut code = String::new();
    push_digits(&mut code, (first_letter as u32 % 256) as u64, 16, true);
    assert(code@ =~= code_directory(name@));

    let mut paths: Vec<String> = Vec::new();
    match terminfo {
        Some(dir) => {
            paths.push(entry(dir, letter.as_str(), name));
        },
        None => {},
    }
    assert(texts(paths@) =~= optional_path(optional_text(terminfo), name@));
    let ghost first = texts(paths@);
    match home {
        Some(dir) => {
            paths.push(entry(dir, letter.as_str(), name));
        },
        None => {},
    }
    assert(texts(paths@) =~= first + optional_path(optional_text(home), name@));
    push_system_paths(&mut paths, letter.as_str(), name);
    push_system_paths(&mut paths, code.as_str(), name);
    paths
}

} // verus!
