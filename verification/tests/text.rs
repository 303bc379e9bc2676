use omp_relayd::hex::hex_lower;
use omp_relayd::text;

#[test]
fn white_space_and_control_characters_are_those_of_unicode() {
    for n in 0..=0x10_ffff_u32 {
        if let Some(c) = char::from_u32(n) {
            assert_eq!(text::char_is_white_space(c), c.is_whitespace(), "{n:x}");
            assert_eq!(text::char_is_control(c), c.is_control(), "{n:x}");
            assert_eq!(text::char_to_upper(c), c.to_ascii_uppercase(), "{n:x}");
            assert_eq!(text::char_to_lower(c), c.to_ascii_lowercase(), "{n:x}");
        }
    }
}

#[test]
fn letters_change_case_and_nothing_else() {
    assert_eq!(text::to_upper("aZ-09é"), "AZ-09é");
    assert_eq!(text::to_lower("aZ-09É"), "az-09É");
    assert!(text::eq_ignore_case("WebSocket", "websocket"));
    assert!(!text::eq_ignore_case("websockets", "websocket"));
    assert!(text::same_text("a", "a"));
    assert!(!text::same_text("a", "A"));
}

#[test]
fn white_space_is_trimmed_at_both_ends() {
    for s in ["", " ", "a", " a", "a ", "\u{2003}a b\u{85}\n", "  "] {
        assert_eq!(text::trim(s), s.trim());
    }
}

#[test]
fn texts_are_taken_apart() {
    assert_eq!(text::chars_of("aé"), vec!['a', 'é']);
    assert_eq!(text::text_of(&vec!['a', 'b', 'c'], 1, 3), "bc");
    assert_eq!(text::split_at_char("a:b:c", ':'), Some(("a".to_owned(), "b:c".to_owned())));
    assert_eq!(text::split_at_char("abc", ':'), None);
    assert_eq!(text::strip_prefix("Basic x", "Basic "), Some("x".to_owned()));
    assert_eq!(text::strip_prefix("Bearer x", "Basic "), None);
    assert_eq!(text::strip_prefix("Bas", "Basic "), None);
    assert!(text::has_suffix("x.localhost", ".localhost"));
    assert!(!text::has_suffix("localhost", ".localhost"));
}

#[test]
fn patterns_are_found_at_their_first_place() {
    assert_eq!(text::text_after("/u/h/a/h/b", "/h/"), Some("a/h/b".to_owned()));
    assert_eq!(text::text_after("/h/", "/h/"), Some(String::new()));
    assert_eq!(text::text_after("/h", "/h/"), None);
    assert_eq!(text::text_after("/a/b/c", "/h/"), None);
    assert_eq!(text::text_after_last("a:b:80", ':'), Some("80".to_owned()));
    assert_eq!(text::text_after_last("a:", ':'), Some(String::new()));
    assert_eq!(text::text_after_last("ab", ':'), None);
}

#[test]
fn brackets_are_trimmed() {
    assert_eq!(text::trim_brackets("[::1]"), "::1");
    assert_eq!(text::trim_brackets("]][a[b]"), "a[b");
    assert_eq!(text::trim_brackets("[]"), "");
    assert_eq!(text::trim_brackets("host"), "host");
}

#[test]
fn digits_are_ascii() {
    assert!(text::is_all_digits("0123456789"));
    assert!(text::is_all_digits(""));
    assert!(!text::is_all_digits("12a"));
    assert!(!text::is_all_digits("١٢"));
}

#[test]
fn numbers_are_written_in_decimal() {
    for n in [0_u64, 7, 10, 99, 100, 65_535, 1_000_000_007, u64::MAX] {
        assert_eq!(text::decimal_text(n), n.to_string());
    }
    assert_eq!(text::joined("ab", "cd"), "abcd");
}

#[test]
fn bytes_are_written_in_hexadecimal() {
    assert_eq!(hex_lower(&[]), "");
    assert_eq!(hex_lower(&[0x00, 0x0f, 0xa0, 0xff]), "000fa0ff");
    assert_ne!(hex_lower(&[0x01, 0x23]), hex_lower(&[0x12, 0x03]));
}
