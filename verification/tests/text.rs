use skillstore::order::{sort_strings, str_less};
use skillstore::text::{char_is_whitespace, contains_whitespace, eq_ignore_ascii_case, join, str_eq, trim};

#[test]
fn whitespace_matches_std_for_every_char() {
    for u in 0u32..=0x10FFFF {
        if let Some(c) = char::from_u32(u) {
            assert_eq!(char_is_whitespace(c), c.is_whitespace(), "U+{u:04X}");
        }
    }
}

const SAMPLES: &[&str] = &[
    "", " ", "a", "A", " a ", "\t\n a b \r\n", "\u{3000}x\u{2029}", "abc", "abd", "ab", "ABC", "Straße",
    "STRASSE", "é", "É", "z", "\u{85}", "a\u{a0}", "demo", "Demo", "DEMO", "déMo",
];

#[test]
fn trim_matches_std() {
    for s in SAMPLES {
        assert_eq!(trim(s), s.trim(), "{s:?}");
    }
}

#[test]
fn order_matches_std() {
    for a in SAMPLES {
        for b in SAMPLES {
            assert_eq!(str_less(a, b), a < b, "{a:?} < {b:?}");
            assert_eq!(str_eq(a, b), a == b);
            assert_eq!(eq_ignore_ascii_case(a, b), a.eq_ignore_ascii_case(b), "{a:?} ~ {b:?}");
        }
    }
}

#[test]
fn sort_matches_std() {
    let v: Vec<String> = SAMPLES.iter().map(|s| s.to_string()).collect();
    let mut expected = v.clone();
    expected.sort();
    assert_eq!(sort_strings(&v), expected);
    assert_eq!(sort_strings(&vec![]), Vec::<String>::new());
}

#[test]
fn join_matches_std() {
    let v: Vec<String> = vec!["a".into(), "b".into(), "c".into()];
    assert_eq!(join(&v, ", "), "a, b, c");
    assert_eq!(join(&vec!["x".to_string()], ", "), "x");
    assert_eq!(join(&vec![], ", "), "");
}

#[test]
fn whitespace_inside() {
    assert!(contains_whitespace("a b"));
    assert!(!contains_whitespace("ab"));
}
