//! The text operations, held against those of `str`.

use xget::path::{file_name, is_path};
use xget::Platform;
use xget::text;

fn chars(s: &str) -> Vec<char> {
    s.chars().collect()
}

fn string(s: &[char]) -> String {
    s.iter().collect()
}

const SAMPLES: [&str; 9] = [
    "",
    "a",
    " \t plain \u{a0}",
    "a/b//c/",
    "one\ntwo\r\nthree\n",
    "no newline\r",
    "\u{2003}wide\u{3000} words  here ",
    "\"quoted\"",
    "xxxyxx",
];

#[test]
fn they_agree_with_the_standard_ones() {
    for sample in SAMPLES {
        let s = chars(sample);
        assert_eq!(string(text::trim(&s)), sample.trim());
        assert_eq!(string(text::trim_of(&s, 'x')), sample.trim_matches('x'));
        assert_eq!(string(text::trim_end_of(&s, '/')), sample.trim_end_matches('/'));
        let split: Vec<String> = text::split(&s, '/').iter().map(|p| string(p)).collect();
        assert_eq!(split, sample.split('/').collect::<Vec<_>>());
        let lines: Vec<String> = text::lines(&s).iter().map(|p| string(p)).collect();
        assert_eq!(lines, sample.lines().collect::<Vec<_>>());
        let words: Vec<String> = text::words(&s).iter().map(|p| string(p)).collect();
        assert_eq!(words, sample.split_whitespace().collect::<Vec<_>>());
        assert_eq!(string(&text::lower(&s)), sample.to_ascii_lowercase());
        assert_eq!(string(&text::upper(&s)), sample.to_ascii_uppercase());
        assert_eq!(text::contains(&s, "xy"), sample.contains("xy"));
        assert_eq!(string(text::after_last(&s, '/')), sample.rsplit('/').next().unwrap());
        assert_eq!(
            string(text::after_last_str(&s, "xx")),
            sample.rsplit("xx").next().unwrap()
        );
        let name = std::path::Path::new(sample).file_name().map(|n| n.to_str().unwrap().to_owned());
        assert_eq!(file_name(&s, Platform::Unix).map(|n| string(&n)), name);
        assert_eq!(
            text::split_once(&s, 'b').map(|(a, b)| (string(a), string(b))),
            sample.split_once('b').map(|(a, b)| (a.to_owned(), b.to_owned()))
        );
        assert_eq!(text::encode(sample), sample.as_bytes());
    }
}

#[test]
fn whitespace_is_the_unicode_property() {
    for c in (0..0x11_0000).filter_map(char::from_u32) {
        assert_eq!(text::is_whitespace(c), c.is_whitespace(), "{c:?}");
    }
}

#[test]
fn numbers_parse_as_they_do_elsewhere() {
    for s in ["", "0", "+7", "+", "-1", "007", "18446744073709551615", "18446744073709551616", "1 "] {
        assert_eq!(text::parse_u64(&chars(s)), s.parse().ok(), "{s}");
        assert_eq!(text::parse_u32(&chars(s)), s.parse().ok(), "{s}");
    }
    assert_eq!(text::decimal(0), "0");
    assert_eq!(text::decimal(u64::MAX), u64::MAX.to_string());
}

#[test]
fn file_names_are_the_last_component() {
    for s in ["a", "a/", "/", "..", "a/..", "./.", "a/.", "/x/y", "a//b//", ".hidden", "..."] {
        let expected = std::path::Path::new(s).file_name().map(|n| n.to_str().unwrap().to_owned());
        assert_eq!(file_name(&chars(s), Platform::Unix).map(|n| string(&n)), expected, "{s}");
    }
}

#[test]
fn windows_paths_are_cut_at_backslashes_too() {
    let name = |path: &str| file_name(&chars(path), Platform::Windows).map(|n| string(&n));
    let some = |text: &str| Some(text.to_owned());
    assert_eq!(name(r"..\x"), some("x"));
    assert_eq!(name(r"dir\sub/name.bin\.\"), some("name.bin"));
    assert_eq!(name(r"C:\dir\x"), some("x"));
    assert_eq!(name("c:x"), some("x"));
    assert_eq!(name("C:"), None);
    assert_eq!(name(r"C:\"), None);
    assert_eq!(name(r"dir\.."), None);
    assert_eq!(name(r"\\server\share\x"), some("x"));
    assert_eq!(name(r"\\server\share"), None);
    assert_eq!(name(r"\x"), some("x"));
    let unix = file_name(&chars(r"..\x"), Platform::Unix).map(|n| string(&n));
    assert_eq!(unix, some(r"..\x"), "a backslash is a character like any other");
}

#[test]
fn paths_are_compared_by_their_components() {
    assert!(is_path("a//b/", "a/./b", Platform::Unix));
    assert!(!is_path("/a", "a", Platform::Unix));
    assert!(!is_path("./a", "a", Platform::Unix));
    assert!(!is_path("a/b", "a/c", Platform::Unix));
    assert!(!is_path(r"a\b", "a/b", Platform::Unix));
    assert!(is_path(r"a\b", "a/b", Platform::Windows));
    assert!(is_path(r"C:\a", "c:/a/", Platform::Windows));
    assert!(!is_path(r"C:\a", "C:a", Platform::Windows));
    assert!(!is_path(r"\\a\b", "/a/b", Platform::Windows), "a share is no root");
}
