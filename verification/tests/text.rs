use repo_status::order::Order;
use repo_status::text::{
    compare_text, contains, decimal_text, is_blank, is_white_space, same_text, trim,
};

#[test]
fn white_space_is_that_of_the_standard_library() {
    for code in 0..=0x10ffffu32 {
        if let Some(c) = char::from_u32(code) {
            assert_eq!(is_white_space(c), c.is_whitespace(), "{:x}", code);
        }
    }
}

#[test]
fn trim_takes_white_space_from_both_ends() {
    for text in ["", " ", "a", " a b\t\r\n", "\u{a0}x\u{3000}", "\u{200b} y"] {
        assert_eq!(trim(text), text.trim());
        assert_eq!(is_blank(text), text.trim().is_empty());
    }
}

#[test]
fn contains_finds_a_text_anywhere() {
    let hay = "error: could not find `x` in registry";
    for needle in ["", "error", "could not find", "registry", "Registry", "could  not"] {
        assert_eq!(contains(hay, needle), hay.contains(needle), "{}", needle);
    }
    assert!(contains("", ""));
    assert!(!contains("", "a"));
    assert!(contains("aab", "ab"));
    assert!(contains("naïve", "ïv"));
}

#[test]
fn texts_are_ordered_by_code_point() {
    let texts = ["", "a", "ab", "b", "é", "z", "\u{ffff}", "\u{10000}"];
    for x in texts {
        for y in texts {
            let expected = match x.cmp(y) {
                std::cmp::Ordering::Less => Order::Less,
                std::cmp::Ordering::Equal => Order::Equal,
                std::cmp::Ordering::Greater => Order::Greater,
            };
            assert_eq!(compare_text(x, y), expected);
            assert_eq!(same_text(x, y), x == y);
        }
    }
}

#[test]
fn decimal_has_no_leading_zeros() {
    for n in [0u64, 7, 10, 99, 100, 1_000_007, u64::MAX] {
        assert_eq!(decimal_text(n), n.to_string());
    }
}
