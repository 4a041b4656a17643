use cxterminfo::search::search_paths;

#[test]
fn all_places_in_order() {
    let paths = search_paths("xterm", Some("/t"), Some("/h"));
    assert_eq!(
        paths,
        vec![
            "/t/x/xterm",
            "/h/x/xterm",
            "/etc/terminfo/x/xterm",
            "/lib/terminfo/x/xterm",
            "/usr/share/terminfo/x/xterm",
            "/usr/share/misc/terminfo/x/xterm",
            "/etc/terminfo/78/xterm",
            "/lib/terminfo/78/xterm",
            "/usr/share/terminfo/78/xterm",
            "/usr/share/misc/terminfo/78/xterm",
        ]
    );
}

#[test]
fn system_places_alone() {
    let paths = search_paths("Eterm", None, None);
    assert_eq!(paths.len(), 8);
    assert_eq!(paths[0], "/etc/terminfo/E/Eterm");
    assert_eq!(paths[3], "/usr/share/misc/terminfo/E/Eterm");
    assert_eq!(paths[4], "/etc/terminfo/45/Eterm");
    assert_eq!(paths[7], "/usr/share/misc/terminfo/45/Eterm");
}

#[test]
fn one_directory_set() {
    let paths = search_paths("vt100", None, Some("/home/u"));
    assert_eq!(paths.len(), 9);
    assert_eq!(paths[0], "/home/u/v/vt100");
    assert_eq!(paths[5], "/etc/terminfo/76/vt100");
    let paths = search_paths("vt100", Some("/opt/ti"), None);
    assert_eq!(paths.len(), 9);
    assert_eq!(paths[0], "/opt/ti/v/vt100");
}

#[test]
fn code_is_the_low_byte_in_capital_hexadecimal() {
    let paths = search_paths("/x", None, None);
    assert_eq!(paths[4], "/etc/terminfo/2F//x");
    let paths = search_paths("\u{1}", None, None);
    assert_eq!(paths[4], "/etc/terminfo/1/\u{1}");
    let paths = search_paths("\u{141}b", None, None);
    assert_eq!(paths[0], "/etc/terminfo/\u{141}/\u{141}b");
    assert_eq!(paths[4], "/etc/terminfo/41/\u{141}b");
}

#[test]
fn empty_name_is_filed_under_x() {
    let paths = search_paths("", None, None);
    assert_eq!(paths[0], "/etc/terminfo/X/");
    assert_eq!(paths[4], "/etc/terminfo/58/");
}
