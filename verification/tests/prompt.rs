use cargo_cult::prompt::{PromptState, PromptStep};
use cargo_cult::terminal::{channel_data_to_terminal_codes, TerminalCode};

fn keys(bytes: &[u8]) -> Vec<TerminalCode> {
    channel_data_to_terminal_codes(bytes)
}

#[test]
fn typed_name_is_entered() {
    let mut prompt = PromptState::new("Fiona Hackworth", true);
    let mut entered = None;
    for key in keys(b"Jane Doe\r") {
        if let PromptStep::Entered(text, _) = prompt.handle(&key) {
            entered = Some(text);
        }
    }
    assert_eq!(entered, Some("Jane Doe".to_string()));
}

#[test]
fn required_prompt_does_not_return_on_enter_alone() {
    let mut prompt = PromptState::new("City", true);
    for key in keys(&[13; 50]) {
        match prompt.handle(&key) {
            PromptStep::Redraw(out) => assert!(out.contains("This field is required!")),
            other => panic!("the prompt returned {:?}", other),
        }
        assert_eq!(prompt.entered_text(), "");
    }
}

#[test]
fn optional_prompt_takes_an_empty_line() {
    let mut prompt = PromptState::new("Address Line 2 (optional)", false);
    assert_eq!(
        prompt.handle(&keys(&[13])[0]),
        PromptStep::Entered(String::new(), "\x1b[0m\x1b[0m\r\n".to_string())
    );
}

#[test]
fn backspace_removes_the_last_character() {
    let mut prompt = PromptState::new("x", true);
    for key in keys(b"ab\x7fc\x08\x08\x08\x08d") {
        prompt.handle(&key);
    }
    assert_eq!(prompt.entered_text(), "d");
}

#[test]
fn bytes_of_a_character_are_put_together() {
    let mut prompt = PromptState::new("x", false);
    let mut entered = None;
    for key in keys(&[195, 169, 13]) {
        if let PromptStep::Entered(text, _) = prompt.handle(&key) {
            entered = Some(text);
        }
    }
    assert_eq!(entered.map(|text| text.into_bytes()), Some(vec![195, 169]));
}

#[test]
fn characters_of_every_width_are_typed() {
    let mut prompt = PromptState::new("x", true);
    let text = "a\u{e9}\u{20ac}\u{1f980}b";
    for key in keys(text.as_bytes()) {
        prompt.handle(&key);
    }
    assert_eq!(prompt.entered_text(), text);
}

#[test]
fn bytes_that_are_no_text_are_dropped() {
    let mut prompt = PromptState::new("x", true);
    for key in keys(&[b'a', 0xff, 0xa9, b'b', 0xc0, 0x80, b'c', 0xed, 0xa0, 0x80, b'd']) {
        prompt.handle(&key);
    }
    assert_eq!(prompt.entered_text(), "abcd");
}

#[test]
fn a_character_that_is_broken_off_is_dropped() {
    let mut prompt = PromptState::new("x", true);
    for key in keys(&[0xe2, 0x82, b'a', 0xc3, 0xc3, 0xa9, 0xe2, b'!', 0xac, b'b']) {
        prompt.handle(&key);
    }
    assert_eq!(prompt.entered_text(), "a\u{e9}!b");
}

#[test]
fn a_key_breaks_off_a_character() {
    let mut prompt = PromptState::new("x", true);
    for key in keys(&[b'a', 0xc3]) {
        prompt.handle(&key);
    }
    prompt.handle(&keys(&[27, 91, 65])[0]);
    for key in keys(&[0xa9, b'b', 0xc3, 0x7f, 0xa9]) {
        prompt.handle(&key);
    }
    assert_eq!(prompt.entered_text(), "a");
}

#[test]
fn keys_of_one_chunk_reach_the_prompt_one_by_one() {
    let mut prompt = PromptState::new("x", false);
    let steps: Vec<PromptStep> =
        keys(&[127, 97, 27, 91, 65, 13]).iter().map(|key| prompt.handle(key)).collect();
    assert_eq!(
        steps.last(),
        Some(&PromptStep::Entered("a".to_string(), "\x1b[0m\x1b[0m\r\n".to_string()))
    );
}

#[test]
fn placeholder_and_warning_without_colour() {
    crossterm::style::force_color_output(false);
    let mut prompt = PromptState::new("City", true);
    assert_eq!(prompt.render(), "\x1b[2K\x1b[1G\x1b[0m\x1b[1m> \x1b[0m\x1b[mCity\x1b[m\x1b[3G");
    assert_eq!(
        prompt.handle(&keys(&[13])[0]),
        PromptStep::Redraw(
            "\x1b[2K\x1b[1G\x1b[0m\x1b[1m> \x1b[0m\x1b[m\x1b[m\x1b[5mThis field is required!\x1b[0m"
                .to_string()
        )
    );
}

#[test]
fn placeholder_and_warning_in_colour() {
    crossterm::style::force_color_output(true);
    let mut prompt = PromptState::new("City", true);
    assert_eq!(
        prompt.render(),
        "\x1b[2K\x1b[1G\x1b[0m\x1b[1m> \x1b[0m\x1b[38;5;8mCity\x1b[39m\x1b[3G"
    );
    assert_eq!(
        prompt.handle(&keys(&[13])[0]),
        PromptStep::Redraw(
            "\x1b[2K\x1b[1G\x1b[0m\x1b[1m> \x1b[0m\x1b[48;5;1m\x1b[38;5;15m\x1b[5mThis field is required!\x1b[0m"
                .to_string()
        )
    );
}

#[test]
fn line_is_redrawn_in_place() {
    let mut prompt = PromptState::new("x", true);
    let step = prompt.handle(&keys(b"a")[0]);
    assert_eq!(step, PromptStep::Redraw("\x1b[2K\x1b[1G\x1b[0m\x1b[1m> \x1b[0ma".to_string()));
}

#[test]
fn empty_line_shows_the_placeholder() {
    let prompt = PromptState::new("City", false);
    let out = prompt.render();
    assert!(out.starts_with("\x1b[2K\x1b[1G\x1b[0m\x1b[1m> \x1b[0m"));
    assert!(out.contains("City"));
    assert!(out.ends_with("\x1b[3G"));
}

#[test]
fn ctrl_c_ends_the_session() {
    let mut prompt = PromptState::new("x", true);
    assert_eq!(prompt.handle(&keys(&[3])[0]), PromptStep::Exit);
}
