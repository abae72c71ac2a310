use lib::text::{trim_string, white_space};

#[test]
fn trim_removes_ascii_whitespace() {
    assert_eq!(trim_string("  name \t\n".to_string()), "name");
}

#[test]
fn trim_keeps_inner_whitespace() {
    assert_eq!(trim_string(" New York ".to_string()), "New York");
}

#[test]
fn trim_removes_unicode_whitespace() {
    assert_eq!(trim_string("\u{3000}\u{a0}clé\u{2003}\u{85}".to_string()), "clé");
}

#[test]
fn trim_all_whitespace_is_empty() {
    assert_eq!(trim_string(" \t ".to_string()), "");
    assert_eq!(trim_string(String::new()), "");
}

#[test]
fn trim_is_idempotent() {
    let once = trim_string("  x y  ".to_string());
    let twice = trim_string(once.clone());
    assert_eq!(once, twice);
}

#[test]
fn white_space_matches_std() {
    for u in 0u32..=0x10ffff {
        if let Some(c) = char::from_u32(u) {
            assert_eq!(white_space(c), c.is_whitespace(), "{:?}", c);
        }
    }
}

#[test]
fn trim_matches_std() {
    let samples = ["", " ", "a", " a ", "\u{2028}ab c\u{2029}", "\u{200b} x \u{200b}", "\t\r\n", "é \u{a0}"];
    for s in samples {
        assert_eq!(trim_string(s.to_string()), s.trim(), "{:?}", s);
    }
}
