use aram_brawl::text::{
    blanks, center_in, chars_of, find_str, join_strs, pad_right, repeat_str, starts_with, str_eq,
    strip_ansi, usize_to_string, vw,
};
use aram_brawl::wrap::{split_words, wrap_text};

#[test]
fn strip_ansi_removes_colour_sequences() {
    assert_eq!(strip_ansi("\x1b[1mab\x1b[0mc"), "abc");
    assert_eq!(strip_ansi("\x1b[38;2;120;220;120m초록\x1b[0m"), "초록");
}

#[test]
fn strip_ansi_unterminated_sequence_drops_the_rest() {
    assert_eq!(strip_ansi("ab\x1b[12"), "ab");
}

#[test]
fn strip_ansi_law_idempotent_and_plain_text_unchanged() {
    let once = strip_ansi("x\x1b[2my\x1b[0mz");
    assert_eq!(strip_ansi(&once), once);
    assert_eq!(strip_ansi("plain text"), "plain text");
    assert!(!once.contains('\x1b'));
}

#[test]
fn visible_width_ignores_escapes_and_counts_wide_characters() {
    assert_eq!(vw("abc"), 3);
    assert_eq!(vw("\x1b[1m한글\x1b[0m"), 4);
    assert_eq!(vw(""), 0);
}

#[test]
fn pad_right_fills_to_the_width() {
    assert_eq!(pad_right("ab", 5), "ab   ");
    assert_eq!(pad_right("\x1b[1mab\x1b[0m", 4), "\x1b[1mab\x1b[0m  ");
    assert_eq!(pad_right("한", 3), "한 ");
}

#[test]
fn pad_right_keeps_wide_text() {
    assert_eq!(pad_right("abcdef", 3), "abcdef");
    assert_eq!(pad_right("abc", 3), "abc");
}

#[test]
fn center_in_puts_the_odd_blank_on_the_right() {
    assert_eq!(center_in("ab", 7), "  ab   ");
    assert_eq!(center_in("ab", 6), "  ab  ");
    assert_eq!(center_in("abcdef", 4), "abcdef");
}

#[test]
fn center_law_balance() {
    let c = center_in("xyz", 10);
    let left = c.len() - c.trim_start().len();
    let right = c.len() - c.trim_end().len();
    assert_eq!(left + right, 7);
    assert!(left <= right && right <= left + 1);
}

#[test]
fn blanks_and_repeat() {
    assert_eq!(blanks(3), "   ");
    assert_eq!(blanks(0), "");
    assert_eq!(repeat_str("─", 3), "───");
    assert_eq!(repeat_str("ab", 0), "");
}

#[test]
fn decimal_notation() {
    assert_eq!(usize_to_string(0), "0");
    assert_eq!(usize_to_string(1234), "1234");
    assert_eq!(usize_to_string(10), "10");
}

#[test]
fn find_and_join() {
    assert_eq!(find_str("◆ 시너지: 전환 : A", "전환 : "), Some(7));
    assert_eq!(find_str("abc", "d"), None);
    assert_eq!(find_str("ab", "abc"), None);
    assert_eq!(join_strs(&vec!["a", "b", "c"], ", "), "a, b, c");
    assert_eq!(join_strs(&vec!["solo"], ", "), "solo");
    assert_eq!(join_strs(&vec![], ", "), "");
}

#[test]
fn comparisons() {
    assert!(str_eq("gold", "gold"));
    assert!(!str_eq("gold", "golden"));
    assert!(starts_with("전환: 골드", "전환:"));
    assert!(!starts_with("전", "전환"));
    assert_eq!(chars_of("가a"), vec!['가', 'a']);
}

#[test]
fn split_words_splits_on_any_white_space() {
    assert_eq!(split_words("  a  b\tc\n"), vec!["a", "b", "c"]);
    assert_eq!(split_words("   "), Vec::<String>::new());
    assert_eq!(split_words("a\u{3000}b"), vec!["a", "b"]);
}

#[test]
fn wrap_text_greedy_by_width() {
    assert_eq!(wrap_text("hello world foo", 11), vec!["hello world", "foo"]);
    assert_eq!(wrap_text("hello world foo", 20), vec!["hello world foo"]);
    assert_eq!(wrap_text("a b c", 1), vec!["a", "b", "c"]);
}

#[test]
fn wrap_text_cuts_long_words() {
    assert_eq!(wrap_text("abcdefghij", 4), vec!["abcd", "efgh", "ij"]);
    assert_eq!(wrap_text("xy abcdefghij z", 4), vec!["xy", "abcd", "efgh", "ij z"]);
}

#[test]
fn wrap_text_counts_wide_characters() {
    assert_eq!(wrap_text("가나다 라", 6), vec!["가나다", "라"]);
    assert_eq!(wrap_text("가나다라", 5), vec!["가나", "다라"]);
}

#[test]
fn wrap_text_edge_cases() {
    assert_eq!(wrap_text("", 10), Vec::<String>::new());
    assert_eq!(wrap_text("   ", 10), Vec::<String>::new());
    // A character wider than the limit starts a new piece, leaving an empty one.
    assert_eq!(wrap_text("가", 1), vec!["", "가"]);
}

#[test]
fn wrap_law_keeps_the_text() {
    let text = "  적이 처치되면 \t 체력을 회복합니다. averyveryverylongword end ";
    let lines = wrap_text(text, 8);
    let joined: String = lines.concat().chars().filter(|c| !c.is_whitespace()).collect();
    let original: String = text.chars().filter(|c| !c.is_whitespace()).collect();
    assert_eq!(joined, original);
}

#[test]
fn split_words_on_unicode_white_space() {
    assert_eq!(split_words("ab"), vec!["ab"]);
    assert_eq!(split_words("a\u{3000}b\u{a0}c\td"), vec!["a", "b", "c", "d"]);
}

#[test]
fn strip_ansi_of_joined_text() {
    let x = "\x1b[1mab\x1b[0m";
    let y = "c\x1b[2md";
    assert_eq!(strip_ansi(&format!("{}{}", x, y)), format!("{}{}", strip_ansi(x), strip_ansi(y)));
    // A first part that ends inside an escape sequence swallows the start of the second.
    assert_eq!(strip_ansi(&format!("{}{}", "a\x1b[1", "xyz")), "ayz");
}

#[test]
fn strip_ansi_keeps_order() {
    let s = "\x1b[31mr\x1b[0mg\x1b[1mb";
    let t = strip_ansi(s);
    assert_eq!(t, "rgb");
    let mut rest = s.chars();
    assert!(t.chars().all(|c| rest.any(|d| d == c)));
}
