use creamlinux::text::{
    chars_vec, contains, ends_with, eq_ignore_ascii_case, is_white_space, path_file_name_of,
    starts_with, text_eq, to_lowercase, trim, trim_end_matches, utf8_str,
};

#[test]
fn prefixes_suffixes_infixes() {
    assert!(starts_with("eossdk-win64", "eossdk-win"));
    assert!(starts_with("abc", ""));
    assert!(!starts_with("ab", "abc"));
    assert!(ends_with("x_o.dll", "_o.dll"));
    assert!(!ends_with("x.dll", "_o.dll"));
    assert!(contains("win64", "64"));
    assert!(contains("abc", ""));
    assert!(!contains("win32", "64"));
    assert!(contains("ééx", "éx"));
}

#[test]
fn trimming_end_matches_repeats() {
    assert_eq!(trim_end_matches("a.dll.dll", ".dll"), "a");
    assert_eq!(trim_end_matches("a.dll", ""), "a.dll");
    assert_eq!(trim_end_matches(".dll", ".dll"), "");
    assert_eq!(trim_end_matches("aé.dll", ".dll"), "aé");
}

#[test]
fn ascii_case_blind_equality() {
    assert!(eq_ignore_ascii_case("DlL", "dll"));
    assert!(!eq_ignore_ascii_case("dll", "dl"));
    assert!(!eq_ignore_ascii_case("É", "é"));
}

#[test]
fn std_wrappers() {
    assert_eq!(to_lowercase("KERNEL32.DLL"), "kernel32.dll");
    assert_eq!(trim(" \t a b \n"), "a b");
    assert_eq!(utf8_str(b"abc"), Some("abc"));
    assert_eq!(utf8_str(b"\xff"), None);
    assert_eq!(chars_vec("aé"), vec!['a', 'é']);
    assert!(text_eq("a", "a"));
    assert!(!text_eq("a", "A"));
}

#[test]
fn white_space_is_the_unicode_set() {
    for u in 0u32..0x11_0000 {
        if let Some(c) = char::from_u32(u) {
            assert_eq!(is_white_space(c), c.is_whitespace(), "U+{:04X}", u);
        }
    }
}

#[test]
fn trimming_matches_std() {
    for s in ["", " ", "a", " a", "a ", "\u{3000}x\u{85}", " \t\n", "a b", "\u{200B}a"] {
        assert_eq!(trim(s), s.trim());
    }
}

#[test]
fn path_file_names_match_std() {
    for p in [
        "", "/", ".", "..", "./", "a", "a/b.dll", "dir/", "a/./", "a/..", "./x", "x/.", "a//b",
        "/abs/ScreamAPI64.dll", "a/../b", "...", "a/...", "./.", "/.", "a\\b.dll",
    ] {
        let expected = std::path::Path::new(p).file_name().map(|n| n.to_str().unwrap());
        assert_eq!(path_file_name_of(p), expected, "{:?}", p);
    }
}
