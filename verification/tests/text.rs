use hex_utils::text::{
    hex_digit_of, is_whitespace_char, push_hex_number, push_hex_pair, push_shown, push_spaces,
    push_zeros, trimmed,
};

#[test]
fn nibbles_have_lowercase_digits() {
    let digits: String = (0u8..16).map(hex_digit_of).collect();
    assert_eq!(digits, "0123456789abcdef");
}

#[test]
fn pushing_appends_to_what_is_there() {
    let mut s = String::from("x");
    push_hex_pair(&mut s, 0x3c);
    assert_eq!(s, "x3c");
    push_spaces(&mut s, 3);
    assert_eq!(s, "x3c   ");
    push_spaces(&mut s, 0);
    assert_eq!(s, "x3c   ");
    push_shown(&mut s, b'A', '.');
    push_shown(&mut s, 7, '.');
    push_shown(&mut s, 200, '\u{fffd}');
    assert_eq!(s, "x3c   A.\u{fffd}");
    push_zeros(&mut s, 2);
    assert_eq!(s, "x3c   A.\u{fffd}00");
}

#[test]
fn numbers_are_padded_with_zeros_to_the_width() {
    let cases =
        [(0usize, 0usize), (0, 1), (0, 6), (15, 1), (16, 1), (255, 6), (0xabcdef0, 6), (usize::MAX, 3)];
    for (n, width) in cases {
        let mut s = String::from(">");
        push_hex_number(&mut s, n, width);
        assert_eq!(s, format!(">{:0width$x}", n, width = width));
    }
}

#[test]
fn whitespace_is_what_std_calls_whitespace() {
    for code in 0u32..=0x11_0000 {
        if let Some(c) = char::from_u32(code) {
            assert_eq!(is_whitespace_char(c), c.is_whitespace(), "U+{:04X}", code);
        }
    }
}

#[test]
fn trimming_takes_whitespace_from_both_ends_only() {
    let cases =
        ["", " ", "a", " a", "a ", "  a b  ", "\t\n a\u{a0}b \u{3000}\r", "\u{2003}\u{2003}", "é x é"];
    for s in cases {
        assert_eq!(trimmed(s), s.trim());
    }
}
