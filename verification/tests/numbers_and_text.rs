use gantt_planner::text::{
    chars_of, decimal_text, parse_i64, parse_id_list, parse_u32, parse_u8, remove_last_word,
    same_text, signed_decimal_text, trimmed, whitespace,
};

fn text(s: &str) -> Vec<char> {
    s.chars().collect()
}

#[test]
fn integers_parse_as_std_parses_them() {
    let cases = [
        "", "+", "-", "0", "-0", "+0", "12", "+12", "-12", " 1", "1 ", "1_0", "9223372036854775807",
        "9223372036854775808", "-9223372036854775808", "-9223372036854775809", "4294967295",
        "4294967296", "255", "256", "007", "++1", "--1", "1e3", "١",
    ];
    for c in cases {
        assert_eq!(parse_i64(&text(c)), c.parse::<i64>().ok(), "i64 {c:?}");
        assert_eq!(parse_u32(&text(c)), c.parse::<u32>().ok(), "u32 {c:?}");
        assert_eq!(parse_u8(&text(c)), c.parse::<u8>().ok(), "u8 {c:?}");
    }
}

#[test]
fn numbers_print_as_to_string_prints_them() {
    for n in [0u64, 7, 10, 99, 100, 12345, u64::MAX] {
        assert_eq!(decimal_text(n), text(&n.to_string()));
    }
    for i in [0i64, -1, 42, -42, i64::MAX, i64::MIN] {
        assert_eq!(signed_decimal_text(i), text(&i.to_string()));
    }
}

#[test]
fn whitespace_is_what_std_calls_whitespace() {
    for c in (0u32..=0x10FFFF).filter_map(char::from_u32) {
        assert_eq!(whitespace(c), c.is_whitespace(), "{:x}", c as u32);
    }
}

#[test]
fn trimming_matches_str_trim() {
    for c in ["", "  ", " a b ", "\u{3000}x\t", "abc", "\n\u{a0}"] {
        assert_eq!(trimmed(&text(c)), text(c.trim()));
    }
}

#[test]
fn id_lists_read_as_comma_separated_numbers() {
    assert_eq!(parse_id_list(&text("1, 2,3")), vec![1, 2, 3]);
    assert_eq!(parse_id_list(&text("4,x, 5 ,,")), vec![4, 5]);
    assert_eq!(parse_id_list(&text("")), Vec::<u32>::new());
    assert_eq!(parse_id_list(&text("-1, 4294967296, 7")), vec![7]);
}

#[test]
fn ctrl_w_removes_the_last_word() {
    let cases = [("hello world", "hello "), ("hello world   ", "hello "), ("word", ""), ("", ""), ("a b c", "a b "), ("trail ", "")];
    for (before, after) in cases {
        let mut b = text(before);
        remove_last_word(&mut b);
        assert_eq!(b, text(after), "{before:?}");
        // the same as trimming and cutting after the last space
        let cut = before.trim_end().rfind(' ').map_or(0, |i| i + 1);
        assert_eq!(text(&before[..cut]), text(after));
    }
}

#[test]
fn literals_become_their_characters() {
    assert_eq!(chars_of("Ünïcode ✓"), text("Ünïcode ✓"));
    assert!(same_text(&text("abc"), &text("abc")));
    assert!(!same_text(&text("abc"), &text("abd")));
    assert!(!same_text(&text("abc"), &text("ab")));
}
