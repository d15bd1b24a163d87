use cargo_cult::params::{TerminalParams, MAX_TEXT_WIDTH};

fn params(columns: u32, username: &str) -> TerminalParams {
    TerminalParams {
        term: "xterm".to_string(),
        col_width: columns,
        row_height: 24,
        modes: vec![(53, 1)],
        username: username.to_string(),
    }
}

#[test]
fn text_is_no_wider_than_the_terminal() {
    assert_eq!(params(80, "jane").text_width(), 80);
    assert_eq!(params(0, "jane").text_width(), 0);
}

#[test]
fn text_is_no_wider_than_a_hundred_columns() {
    assert_eq!(MAX_TEXT_WIDTH, 100);
    assert_eq!(params(100, "jane").text_width(), 100);
    assert_eq!(params(101, "jane").text_width(), 100);
    assert_eq!(params(u32::MAX, "jane").text_width(), 100);
}

#[test]
fn a_name_in_brackets_asks_for_a_backend() {
    assert_eq!(params(80, "[snake]").direct_run_target(), Some("snake".to_string()));
    assert_eq!(params(80, "[]").direct_run_target(), Some(String::new()));
    assert_eq!(params(80, "[[a]]").direct_run_target(), Some("[a]".to_string()));
}

#[test]
fn other_names_ask_for_the_menu() {
    for name in ["jane", "", "[", "]", "[jane", "jane]", "a[b]", "[b]c"] {
        assert_eq!(params(80, name).direct_run_target(), None);
    }
}
