use cargo_cult::text::{from_chars, has_match, split_chars, split_str, to_chars};

#[test]
fn characters_go_back_and_forth() {
    let text = "h\u{e9}llo \u{1f980}";
    let chars = to_chars(text);
    assert_eq!(chars, text.chars().collect::<Vec<char>>());
    assert_eq!(from_chars(&chars), text);
}

#[test]
fn a_text_is_cut_at_every_separator() {
    assert_eq!(split_str("a\r\nb\r\n", "\r\n"), vec!["a", "b", ""]);
    assert_eq!(split_str("", "\r\n"), vec![""]);
    assert_eq!(split_str("\r\n", "\r\n"), vec!["", ""]);
    assert_eq!(split_str("a\rb\nc", "\r\n"), vec!["a\rb\nc"]);
    assert_eq!(split_str("a\r\r\n\nb", "\r\n"), vec!["a\r", "\nb"]);
    assert_eq!(split_str("a b  c", " "), vec!["a", "b", "", "c"]);
}

#[test]
fn separators_are_found_left_to_right() {
    assert_eq!(split_str("aaa", "aa"), vec!["", "a"]);
}

#[test]
fn an_empty_separator_cuts_nowhere() {
    assert_eq!(split_str("abc", ""), vec!["abc"]);
}

#[test]
fn cutting_agrees_with_the_standard_library() {
    for text in ["", "x", "a,b", ",a,,b,", ",,", "abc,"] {
        let expected: Vec<String> = text.split(',').map(|p| p.to_string()).collect();
        assert_eq!(split_str(text, ","), expected);
    }
}

#[test]
fn pieces_of_characters() {
    let text: Vec<char> = "a-b".chars().collect();
    assert_eq!(split_chars(&text, &['-']), vec![vec!['a'], vec!['b']]);
    assert!(has_match(&text, &['-', 'b'], 1));
    assert!(!has_match(&text, &['-', 'b'], 2));
    assert!(!has_match(&text, &['-', 'b'], 7));
}
