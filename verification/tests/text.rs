use chicago_data_bot::clock::long_date;
use chicago_data_bot::order::text_less;
use chicago_data_bot::text::{chars_of, lines, parts, replace, string_of, trim, words};

fn cs(s: &str) -> Vec<char> {
    s.chars().collect()
}

fn strings(v: Vec<Vec<char>>) -> Vec<String> {
    v.into_iter().map(|c| c.into_iter().collect()).collect()
}

#[test]
fn long_dates_read_like_chrono() {
    assert_eq!(long_date(2026, 5, 13), "May 13, 2026");
    assert_eq!(long_date(2026, 11, 2), "November 2, 2026");
    assert_eq!(long_date(987, 1, 1), "January 1, 0987");
}

#[test]
fn text_helpers_split_and_trim() {
    assert_eq!(string_of(&trim(&cs("  a b \n"))), "a b");
    assert_eq!(strings(lines(&cs("a\r\nb\n\nc"))), vec!["a", "b", "", "c"]);
    assert_eq!(strings(words(&cs(" a  b\tc "))), vec!["a", "b", "c"]);
    assert_eq!(strings(parts(&cs("a b  c"))), vec!["a ", "b ", " ", "c"]);
    assert_eq!(string_of(&replace(&cs("x\n\ny\n\n"), &cs("\n\n"), &cs("<br>"))), "x<br>y<br>");
    assert_eq!(chars_of("día"), vec!['d', 'í', 'a']);
}

#[test]
fn text_order_is_by_code_point() {
    assert!(text_less(&cs("a"), &cs("b")));
    assert!(text_less(&cs("ab"), &cs("abc")));
    assert!(!text_less(&cs("abc"), &cs("abc")));
    assert!(!text_less(&cs("b"), &cs("abc")));
    assert!(text_less(&cs("Z"), &cs("a")));
}
