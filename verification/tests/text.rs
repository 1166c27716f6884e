use customaio::text::{decimal, eq_ignore_ascii_case, strip_ansi, text_eq};

#[test]
fn colour_codes_are_stripped() {
    assert_eq!(strip_ansi("\x1b[92mOK\x1b[0m"), "OK");
    assert_eq!(strip_ansi("  \x1b[38;5;208mfan perf\x1b[0m   x"), "  fan perf   x");
    assert_eq!(strip_ansi("plain text"), "plain text");
    assert_eq!(strip_ansi(""), "");
}

#[test]
fn stray_escapes_take_the_next_character_with_them() {
    assert_eq!(strip_ansi("a\x1bXb"), "ab");
    assert_eq!(strip_ansi("tail\x1b"), "tail");
    assert_eq!(strip_ansi("\x1b[12"), "");
    assert_eq!(strip_ansi("\x1b\x1bAB"), "AB");
}

#[test]
fn stripping_twice_changes_nothing() {
    for s in ["\x1b[92mOK\x1b[0m", "a\x1b\x1b[1mb", "\x1b", "é\x1b[0mü"] {
        let once = strip_ansi(s);
        assert!(!once.contains('\x1b'));
        assert_eq!(strip_ansi(&once), once);
    }
}

#[test]
fn case_insensitive_serials() {
    assert!(eq_ignore_ascii_case("AbC123", "aBc123"));
    assert!(!eq_ignore_ascii_case("abc", "abcd"));
    assert!(!eq_ignore_ascii_case("é", "É"));
    assert!(eq_ignore_ascii_case("", ""));
    assert!(text_eq("auto", "auto"));
    assert!(!text_eq("auto", "Auto"));
}

#[test]
fn decimal_digits() {
    assert_eq!(decimal(0), "0");
    assert_eq!(decimal(409600), "409600");
    assert_eq!(decimal(u64::MAX), u64::MAX.to_string());
}

#[test]
fn stripping_only_leaves_characters_out() {
    let input = "\x1b[92mOK\x1b[0m fan \x1b[38;5;208mperf\x1b[0m";
    let out = strip_ansi(input);
    assert_eq!(out, "OK fan perf");
    // Every kept character appears in the input, in the same order.
    let mut rest = input.chars();
    for c in out.chars() {
        assert!(rest.any(|d| d == c));
    }
}
