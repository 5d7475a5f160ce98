use edgepacer::text::{
    decimal_of, eq_ignore_ascii_case, lines_of, octal_of, parse_u64, split_whitespace,
    to_ascii_lowercase, trim,
};

#[test]
fn white_space_is_that_of_unicode() {
    for c in (0u32..0x110000).filter_map(char::from_u32) {
        let text = format!("{c}a{c}");
        assert_eq!(trim(&text), text.trim(), "{c:?}");
    }
}

#[test]
fn texts_are_taken_apart_at_white_space() {
    for text in ["", "  ", "a", " a\u{3000}b\tc \n", "one  two"] {
        assert_eq!(split_whitespace(text), text.split_whitespace().collect::<Vec<_>>());
    }
}

#[test]
fn texts_are_taken_apart_at_line_ends() {
    for text in ["", "\n", "a", "a\n", "a\r\nb", "a\rb\n\nc", "a\r", "\r\n\r\n"] {
        assert_eq!(lines_of(text), text.lines().collect::<Vec<_>>(), "{text:?}");
    }
}

#[test]
fn numbers_are_read_and_written() {
    for text in ["", "0", "+7", "-7", "+", "007", "18446744073709551615", "18446744073709551616", "1x"] {
        assert_eq!(parse_u64(text), text.parse::<u64>().ok(), "{text:?}");
    }
    for n in [0, 7, 10, 99, 100, u64::MAX] {
        assert_eq!(decimal_of(n), n.to_string());
    }
    assert_eq!(octal_of(0o100644), "100644");
    assert_eq!(octal_of(0), "0");
}

#[test]
fn only_ascii_letters_change_their_case() {
    assert_eq!(to_ascii_lowercase("ABÇ1"), "abÇ1");
    assert!(eq_ignore_ascii_case("Security", "sECURITY"));
    assert!(!eq_ignore_ascii_case("É", "é"));
}
