use cargo_cult::select::{SelectState, SelectStep};
use cargo_cult::terminal::{channel_data_to_terminal_codes, TerminalCode};

fn key(bytes: &[u8]) -> TerminalCode {
    let mut codes = channel_data_to_terminal_codes(bytes);
    assert_eq!(codes.len(), 1);
    codes.remove(0)
}

fn options(n: usize) -> Vec<String> {
    (0..n).map(|i| format!("option {}", i)).collect()
}

#[test]
fn first_frame_draws_from_the_top() {
    let state = SelectState::new(vec!["one".to_string(), "two".to_string()], 24).unwrap();
    assert_eq!(state.viewport_rows(), 2);
    assert_eq!(
        state.render(true),
        "\x1b[?7l\x1b[1m> \x1b[0m\x1b[1mone\x1b[0m\r\n\x1b[1m> \x1b[0m\x1b[0mtwo\x1b[0m\x1b[2G\x1b[?7h"
    );
}

#[test]
fn later_frames_rewind_first() {
    let mut state = SelectState::new(vec!["one".to_string(), "two".to_string()], 24).unwrap();
    let step = state.handle(&key(&[27, 91, 66]));
    assert_eq!(state.selected_index(), 1);
    assert_eq!(
        step,
        SelectStep::Redraw(
            "\x1b[?7l\x1b[0m\x1b[0m\x1b[1G\x1b[1A\x1b[J\x1b[1m> \x1b[0m\x1b[0mone\x1b[0m\r\n\x1b[1m> \x1b[0m\x1b[1mtwo\x1b[0m\x1b[2G\x1b[?7h"
                .to_string()
        )
    );
}

#[test]
fn last_option_ends_the_viewport_and_first_option_scrolls_back() {
    let mut state = SelectState::new(options(10), 4).unwrap();
    assert_eq!(state.viewport_rows(), 4);
    assert_eq!(state.scroll_offset(), 0);
    for _ in 0..9 {
        state.handle(&key(&[27, 91, 66]));
    }
    assert_eq!(state.selected_index(), 9);
    assert_eq!(state.scroll_offset(), 6);
    let frame = state.render(false);
    let last_line = frame.split("\r\n").last().unwrap().to_string();
    assert!(last_line.starts_with("\x1b[1m> \x1b[0m\x1b[1moption 9\x1b[0m"));
    for _ in 0..9 {
        state.handle(&key(&[27, 91, 65]));
    }
    assert_eq!(state.selected_index(), 0);
    assert_eq!(state.scroll_offset(), 0);
}

fn chosen(entries: &[&str], chunk: &[u8]) -> Option<usize> {
    let entries: Vec<String> = entries.iter().map(|e| e.to_string()).collect();
    let mut state = SelectState::new(entries, 24).unwrap();
    for code in channel_data_to_terminal_codes(chunk) {
        if let SelectStep::Chosen(index, _) = state.handle(&code) {
            return Some(index);
        }
    }
    None
}

#[test]
fn keys_of_one_chunk_reach_the_list_one_by_one() {
    assert_eq!(
        chosen(&["a", "b", "c"], &[27, 91, 66, 27, 91, 66, 27, 91, 66, 27, 91, 65, 13]),
        Some(1)
    );
    assert_eq!(chosen(&["a", "b"], &[27, 91, 65, 13]), Some(0));
}

#[test]
fn arrows_stop_at_both_ends() {
    let mut state = SelectState::new(options(3), 24).unwrap();
    state.handle(&key(&[27, 91, 65]));
    assert_eq!(state.selected_index(), 0);
    for _ in 0..5 {
        state.handle(&key(&[27, 91, 66]));
    }
    assert_eq!(state.selected_index(), 2);
}

#[test]
fn enter_chooses_and_ctrl_c_exits() {
    let mut state = SelectState::new(options(3), 24).unwrap();
    state.handle(&key(&[27, 91, 66]));
    assert_eq!(
        state.handle(&key(&[13])),
        SelectStep::Chosen(1, "\x1b[0m\x1b[0m\r\n".to_string())
    );
    assert_eq!(state.handle(&key(&[3])), SelectStep::Exit);
}

#[test]
fn entries_of_several_lines_scroll_by_lines() {
    let entries = vec!["a\r\nb".to_string(), "c\r\nd\r\ne".to_string(), "f".to_string()];
    let mut state = SelectState::new(entries, 3).unwrap();
    assert_eq!(state.viewport_rows(), 3);
    assert_eq!(state.scroll_offset(), 0);
    state.handle(&key(&[27, 91, 66]));
    assert_eq!(state.scroll_offset(), 2);
    assert_eq!(
        state.render(true),
        "\x1b[?7l\x1b[1m> \x1b[0m\x1b[1mc\x1b[0m\r\n\x1b[1md\x1b[0m\r\n\x1b[1me\x1b[0m\x1b[2G\x1b[?7h"
    );
    state.handle(&key(&[27, 91, 66]));
    assert_eq!(state.scroll_offset(), 3);
    state.handle(&key(&[27, 91, 65]));
    assert_eq!(state.scroll_offset(), 2);
    state.handle(&key(&[27, 91, 65]));
    assert_eq!(state.scroll_offset(), 0);
}

#[test]
fn a_list_without_entries_cannot_be_made() {
    assert!(SelectState::new(Vec::new(), 24).is_none());
}

#[test]
fn a_terminal_without_rows_shows_nothing() {
    let state = SelectState::new(options(3), 0).unwrap();
    assert_eq!(state.viewport_rows(), 0);
    assert_eq!(state.render(true), "\x1b[?7l\x1b[2G\x1b[?7h");
}

#[test]
fn a_high_viewport_is_rewound_in_several_moves() {
    let mut state = SelectState::new(options(70000), 70000).unwrap();
    assert_eq!(state.viewport_rows(), 70000);
    match state.handle(&key(b"x")) {
        SelectStep::Redraw(out) => {
            assert!(out.starts_with("\x1b[?7l\x1b[0m\x1b[0m\x1b[1G\x1b[65535A\x1b[4464A\x1b[J"))
        }
        other => panic!("the list answered {:?}", other),
    }
}

#[test]
fn a_viewport_of_one_row_is_rewound_without_a_move() {
    let mut state = SelectState::new(options(3), 1).unwrap();
    assert_eq!(
        state.handle(&key(b"x")),
        SelectStep::Redraw(
            "\x1b[?7l\x1b[0m\x1b[0m\x1b[1G\x1b[J\x1b[1m> \x1b[0m\x1b[1moption 0\x1b[0m\x1b[2G\x1b[?7h"
                .to_string()
        )
    );
}

#[test]
fn an_entry_higher_than_the_viewport_shows_its_last_lines() {
    let entries = vec!["a\r\nb\r\nc".to_string(), "d".to_string()];
    let mut state = SelectState::new(entries, 2).unwrap();
    assert_eq!(state.viewport_rows(), 2);
    assert_eq!(state.scroll_offset(), 1);
    state.handle(&key(&[27, 91, 66]));
    assert_eq!(state.scroll_offset(), 2);
    state.handle(&key(&[27, 91, 65]));
    assert_eq!(state.selected_index(), 0);
    assert_eq!(state.scroll_offset(), 0);
    state.handle(&key(&[27, 91, 65]));
    assert_eq!(state.scroll_offset(), 1);
}
