use patme::text::{chars_of, find_char, find_ws, push_decimal, to_ascii_lower, white_space};

#[test]
fn whitespace_matches_std() {
    for code in 0u32..=0x10ffff {
        if let Some(c) = char::from_u32(code) {
            assert_eq!(white_space(c), c.is_whitespace(), "char {:#x}", code);
        }
    }
}

#[test]
fn ascii_lowering_matches_std() {
    for code in 0u32..=0x3000 {
        if let Some(c) = char::from_u32(code) {
            assert_eq!(to_ascii_lower(c), c.to_ascii_lowercase(), "char {:#x}", code);
        }
    }
}

#[test]
fn decimals_match_display() {
    for n in [0u64, 1, 9, 10, 99, 100, 9001, 65535, 1234567890, u64::MAX] {
        let mut s = String::from("x=");
        push_decimal(&mut s, n);
        assert_eq!(s, format!("x={}", n));
    }
}

#[test]
fn scanning_finds_first_occurrence() {
    let s = chars_of("a?b?c d");
    assert_eq!(s, "a?b?c d".chars().collect::<Vec<char>>());
    assert_eq!(find_char(&s, '?', 0, s.len()), 1);
    assert_eq!(find_char(&s, '?', 2, s.len()), 3);
    assert_eq!(find_char(&s, '!', 0, s.len()), s.len());
    assert_eq!(find_char(&s, '?', 2, 3), 3);
    assert_eq!(find_ws(&s, true, 0, s.len()), 5);
    assert_eq!(find_ws(&s, false, 5, s.len()), 6);
}
