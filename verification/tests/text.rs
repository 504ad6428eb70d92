use codebake::text::{
    chars_of, digit_to_char, format_decimal, format_radix, is_white, join2, join3, join_all,
    same_text, split_words, string_of, string_of_range,
};

#[test]
fn blanks_are_the_white_space_of_unicode() {
    for code in 0u32..=0x10ffff {
        if let Some(c) = char::from_u32(code) {
            assert_eq!(is_white(c), c.is_whitespace(), "U+{:04X}", code);
        }
    }
}

#[test]
fn words_are_what_stands_between_blanks() {
    for text in [
        "",
        " ",
        "a",
        " a ",
        "a b",
        "  a\tb\n\nc  ",
        "a\u{a0}b\u{2003}c\u{3000}d",
        "\u{e9}t\u{e9} 12 +3",
        "a\u{200b}b c",
    ] {
        let expected: Vec<Vec<char>> =
            text.split_whitespace().map(|w| w.chars().collect()).collect();
        assert_eq!(split_words(text), expected, "{:?}", text);
    }
}

#[test]
fn numbers_are_written_in_each_radix_as_the_formatter_writes_them() {
    for x in 0u64..=255 {
        assert_eq!(format_radix(x, 2), format!("{:b}", x));
        assert_eq!(format_radix(x, 8), format!("{:o}", x));
        assert_eq!(format_radix(x, 10), format!("{}", x));
        assert_eq!(format_radix(x, 16), format!("{:x}", x));
    }
    assert_eq!(format_radix(0, 36), "0");
    assert_eq!(format_radix(35, 36), "z");
    assert_eq!(format_radix(36, 36), "10");
    assert_eq!(format_radix(u64::MAX, 2), "1".repeat(64));
    assert_eq!(format_radix(u64::MAX, 10), u64::MAX.to_string());
    assert_eq!(format_decimal(0), "0");
    assert_eq!(format_decimal(1203), "1203");
    assert_eq!(format_decimal(usize::MAX), usize::MAX.to_string());
    for d in 0u8..36 {
        assert_eq!(digit_to_char(d), char::from_digit(d as u32, 36).unwrap());
    }
}

#[test]
fn strings_are_taken_apart_and_put_together() {
    let chars = chars_of("h\u{e9}llo");
    assert_eq!(chars, vec!['h', '\u{e9}', 'l', 'l', 'o']);
    assert_eq!(string_of(&chars), "h\u{e9}llo");
    assert_eq!(string_of_range(&chars, 1, 3), "\u{e9}l");
    assert_eq!(string_of_range(&chars, 2, 2), "");
    assert_eq!(chars_of(""), Vec::<char>::new());
    assert_eq!(join2("ab", "cd"), "abcd");
    assert_eq!(join3("a", "", "c"), "ac");
    assert_eq!(join_all(&vec![], ", "), "");
    assert_eq!(join_all(&vec!["a".to_string()], ", "), "a");
    assert_eq!(join_all(&vec!["a".to_string(), "".to_string(), "c".to_string()], ", "), "a, , c");
    assert!(same_text("abc", "abc"));
    assert!(!same_text("abc", "abd"));
    assert!(!same_text("abc", "ab"));
}
