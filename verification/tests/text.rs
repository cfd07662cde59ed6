use libremeet::text::{
    characters, comes_before, decimal, followed_by, is_blank, join, same_text, signed_decimal,
    strip_prefix,
};

#[test]
fn blank_is_white_space_only() {
    for s in ["", " ", "\t\r\n", "\u{85}\u{a0}\u{1680}\u{2000}\u{200a}\u{2028}\u{3000}"] {
        assert!(is_blank(s), "{:?}", s);
    }
    for s in ["a", " a ", "\u{200b}", "\u{feff}", "\u{0}"] {
        assert!(!is_blank(s), "{:?}", s);
    }
}

#[test]
fn white_space_is_that_of_unicode() {
    for n in 0..=0x10ffff_u32 {
        if let Some(c) = char::from_u32(n) {
            let s = c.to_string();
            assert_eq!(is_blank(&s), c.is_whitespace(), "{:x}", n);
        }
    }
}

#[test]
fn prefixes() {
    assert_eq!(strip_prefix("PROGRESS: 5", "PROGRESS:"), Some(" 5"));
    assert_eq!(strip_prefix("PROGRESS:", "PROGRESS:"), Some(""));
    assert_eq!(strip_prefix("PROGRES", "PROGRESS:"), None);
    assert_eq!(strip_prefix("progress: 5", "PROGRESS:"), None);
    assert_eq!(strip_prefix("äöü", "ä"), Some("öü"));
    assert_eq!(strip_prefix("abc", ""), Some("abc"));
}

#[test]
fn order_is_that_of_strings() {
    let all = ["", "A", "a", "aa", "ab", "b", "SPEAKER_00", "SPEAKER_01", "SPEAKER_1", "é", "\u{ffff}", "\u{10000}"];
    for a in all {
        for b in all {
            assert_eq!(comes_before(a, b), a < b, "{:?} {:?}", a, b);
            assert_eq!(same_text(a, b), a == b);
        }
    }
}

#[test]
fn decimal_numbers() {
    for n in [0u64, 1, 9, 10, 99, 100, 1234567890, u64::MAX] {
        assert_eq!(decimal(n), n.to_string());
    }
    for n in [0i32, 1, -1, 10, -10, i32::MAX, i32::MIN] {
        assert_eq!(signed_decimal(n), n.to_string());
    }
}

#[test]
fn parts_in_a_row() {
    let parts: Vec<String> = vec!["a".into(), "".into(), "ß".into()];
    assert_eq!(join(&parts, "; "), "a; ; ß");
    assert_eq!(join(&vec![], "; "), "");
    assert_eq!(join(&vec!["x".to_string()], "; "), "x");
    assert_eq!(followed_by("ab", "cd"), "abcd");
    assert_eq!(characters("aß€"), vec!['a', 'ß', '€']);
}
