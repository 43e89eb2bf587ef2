use pkg_history::text::chars_to_string;
use pkg_history::text::push_decimal;
use pkg_history::text::split_chars;
use pkg_history::text::str_chars;
use pkg_history::text::text_lines;

fn rows(v: Vec<Vec<char>>) -> Vec<String> {
    v.into_iter().map(|r| r.into_iter().collect()).collect()
}

#[test]
fn splitting_keeps_empty_pieces() {
    let pieces = rows(split_chars(&str_chars(" a  b "), ' '));
    let expected: Vec<String> = " a  b ".split(' ').map(|s| s.to_string()).collect();
    assert_eq!(pieces, expected);
    assert_eq!(rows(split_chars(&str_chars(""), ' ')), vec![String::new()]);
}

#[test]
fn lines_follow_str_lines() {
    for text in ["a\nb\n", "a\r\nb", "", "\n", "a\n\nb\r\n", "x\r", "\r\n\r\n"] {
        let lines = rows(text_lines(&str_chars(text)));
        let expected: Vec<String> = text.lines().map(|s| s.to_string()).collect();
        assert_eq!(lines, expected, "text {:?}", text);
    }
}

#[test]
fn strings_round_trip_through_characters() {
    let chars = str_chars("grüße");
    assert_eq!(chars.len(), 5);
    assert_eq!(chars_to_string(&chars), "grüße");
}

#[test]
fn numbers_are_written_in_decimal() {
    let mut s = String::from("n=");
    push_decimal(&mut s, 0);
    push_decimal(&mut s, 1907);
    assert_eq!(s, "n=01907");
    let mut t = String::new();
    push_decimal(&mut t, u128::MAX);
    assert_eq!(t, u128::MAX.to_string());
}
