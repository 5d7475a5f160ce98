use std::borrow::Cow;

use edgepacer::ansi::{strip_owned, strip_str};

#[test]
fn strips_sgr_colour_so_the_timestamp_leads_the_line() {
    let coloured = "\x1b[2m2026-08-06T15:03:17Z\x1b[0m \x1b[32m INFO\x1b[0m msg";
    let stripped = strip_str(coloured);

    assert_eq!(stripped, "2026-08-06T15:03:17Z  INFO msg");
    assert!(
        regex::Regex::new(r"^\d{4}-").unwrap().is_match(&stripped),
        "a mined start pattern must anchor the stripped line"
    );
    assert!(
        !regex::Regex::new(r"^\d{4}-").unwrap().is_match(coloured),
        "negative control: the same pattern cannot anchor the coloured line"
    );
}

#[test]
fn line_without_escapes_is_returned_unmoved() {
    let line = b"2026-08-06 INFO plain line with [brackets] and 0x1b spelled out".to_vec();
    let before = line.as_ptr();
    let expected = line.clone();

    let stripped = strip_owned(line);

    assert_eq!(stripped, expected);
    assert_eq!(stripped.as_ptr(), before, "no reallocation for a clean line");
    assert!(matches!(strip_str("plain text"), Cow::Borrowed(_)));
}

#[test]
fn strips_csi_cursor_and_erase_sequences() {
    assert_eq!(strip_str("before\x1b[2Kafter"), "beforeafter");
    assert_eq!(strip_str("\x1b[1;31;40mred\x1b[m"), "red");
    assert_eq!(strip_str("\x1b[H\x1b[Jcleared"), "cleared");
}

#[test]
fn strips_osc_terminated_by_bel_or_st() {
    assert_eq!(strip_str("\x1b]0;window title\x07body"), "body");
    assert_eq!(strip_str("\x1b]8;;https://example.com\x1b\\link"), "link");
}

#[test]
fn strips_two_byte_and_dangling_escapes() {
    assert_eq!(strip_str("\x1b(Btext"), "Btext");
    assert_eq!(strip_str("a\x1bMb"), "ab");
    assert_eq!(strip_str("tail\x1b"), "tail");
    assert_eq!(strip_str("tail\x1b[3"), "tail");
}

#[test]
fn preserves_multibyte_text_around_sequences() {
    assert_eq!(strip_str("\x1b[33m✔ héllo → done\x1b[0m"), "✔ héllo → done");
}

#[test]
fn stripping_is_idempotent() {
    let once = strip_str("\x1b[32mgreen\x1b[0m").into_owned();
    assert_eq!(strip_str(&once), once);
}

#[test]
fn invalid_utf8_bytes_survive_stripping() {
    let mut line = b"\x1b[32m".to_vec();
    line.extend_from_slice(&[0xC0, 0xFF, 0xFE]);
    assert_eq!(strip_owned(line), vec![0xC0, 0xFF, 0xFE]);
}

#[test]
fn an_escape_before_a_multibyte_character_leaves_it_whole() {
    assert_eq!(strip_str("a\x1bé"), "aé");
    assert_eq!(strip_owned("a\x1bé".as_bytes().to_vec()), "aé".as_bytes());
}

#[test]
fn text_and_bytes_are_stripped_alike() {
    for line in [
        "\x1b[1mb\x1b]0;t\x07c\x1b",
        "é\x1b[38;5;1mü\x1b(B\x1b\x1b[z",
        "\x1b]unterminated",
        "",
    ] {
        let text = strip_str(line).into_owned();
        assert_eq!(strip_owned(line.as_bytes().to_vec()), text.as_bytes());
        assert!(!text.contains('\x1b'));
        assert!(text.len() <= line.len());
    }
}
