use cargo_cult::wrap::{fixed_width, wrap_words};

fn lines_of(out: &str) -> Vec<String> {
    let mut lines: Vec<String> = out.split("\r\n").map(|l| l.to_string()).collect();
    assert_eq!(lines.pop(), Some(String::new()));
    lines
}

#[test]
fn wraps_three_words_at_five_columns() {
    let out = fixed_width("aa bb cc", 5);
    assert_eq!(out, "aa bb\r\ncc\r\n");
    assert_eq!(lines_of(&out), vec!["aa bb", "cc"]);
}

#[test]
fn a_word_wider_than_the_line_stands_alone() {
    assert_eq!(lines_of(&fixed_width("a abcdefgh b", 5)), vec!["a", "abcdefgh", "b"]);
}

#[test]
fn a_wide_first_word_leaves_the_first_line_empty() {
    assert_eq!(fixed_width("abcdefgh", 5), "\r\nabcdefgh\r\n");
}

#[test]
fn a_text_that_fits_stays_on_its_line() {
    assert_eq!(fixed_width("hello world", 11), "hello world\r\n");
    assert_eq!(fixed_width("hello world", 10), "hello\r\nworld\r\n");
}

#[test]
fn lines_of_the_input_are_wrapped_one_by_one() {
    assert_eq!(fixed_width("aa bb\r\ncc dd ee", 5), "aa bb\r\ncc dd\r\nee\r\n");
    assert_eq!(fixed_width("a\r\n\r\nb", 5), "a\r\n\r\nb\r\n");
}

#[test]
fn an_empty_text_is_one_empty_line() {
    assert_eq!(fixed_width("", 5), "\r\n");
}

#[test]
fn spaces_between_words_are_kept() {
    assert_eq!(fixed_width("a  b", 10), "a  b\r\n");
    assert_eq!(fixed_width(" a", 10), " a\r\n");
}

#[test]
fn at_width_zero_every_word_has_its_line() {
    assert_eq!(fixed_width("a b", 0), "\r\na\r\nb\r\n");
}

#[test]
fn no_line_is_wider_than_the_width_unless_it_is_one_word() {
    let text = "The quick brown fox jumps over the lazy dog and extraordinarily long words";
    for width in 0..40 {
        for line in lines_of(&fixed_width(text, width)) {
            assert!(line.chars().count() <= width || !line.contains(' '));
            if line.chars().count() > width {
                assert!(text.split(' ').any(|word| word == line));
            }
        }
    }
}

#[test]
fn wrapping_keeps_every_word_in_its_place() {
    let text = "one two  three four five six seven";
    for width in 0..40 {
        let lines = lines_of(&fixed_width(text, width));
        let words: Vec<&str> =
            lines.iter().skip(1).fold(lines[0].split(' ').collect(), |mut all, line| {
                all.extend(line.split(' '));
                all
            });
        let kept: Vec<&str> = words.into_iter().filter(|w| !w.is_empty()).collect();
        let given: Vec<&str> = text.split(' ').filter(|w| !w.is_empty()).collect();
        assert_eq!(kept, given);
    }
}

#[test]
fn widths_count_characters() {
    assert_eq!(fixed_width("\u{e9}\u{e9} \u{e9}\u{e9}", 5), "\u{e9}\u{e9} \u{e9}\u{e9}\r\n");
}

#[test]
fn words_of_a_line_are_laid_out() {
    let line: Vec<char> = "aa bb cc".chars().collect();
    let lines: Vec<String> =
        wrap_words(&line, 5).into_iter().map(|l| l.into_iter().collect()).collect();
    assert_eq!(lines, vec!["aa bb", "cc"]);
}
