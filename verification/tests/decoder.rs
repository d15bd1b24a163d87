use cargo_cult::terminal::{channel_data_to_terminal_codes, AsciiCode, TerminalCode};

fn code(ascii_code: Option<AsciiCode>, raw: &[u8]) -> TerminalCode {
    TerminalCode { ascii_code, raw_bytes: raw.to_vec() }
}

#[test]
fn enter_is_decoded() {
    assert_eq!(channel_data_to_terminal_codes(&[13]), vec![code(Some(AsciiCode::Enter), &[13])]);
}

#[test]
fn two_deletes_are_two_backspaces() {
    assert_eq!(
        channel_data_to_terminal_codes(&[127, 127]),
        vec![code(Some(AsciiCode::Backspace), &[127]), code(Some(AsciiCode::Backspace), &[127])]
    );
}

#[test]
fn arrow_up_is_decoded() {
    assert_eq!(
        channel_data_to_terminal_codes(&[27, 91, 65]),
        vec![code(Some(AsciiCode::ArrowUp), &[27, 91, 65])]
    );
}

#[test]
fn arrow_down_is_decoded() {
    assert_eq!(
        channel_data_to_terminal_codes(&[27, 91, 66]),
        vec![code(Some(AsciiCode::ArrowDown), &[27, 91, 66])]
    );
}

#[test]
fn unknown_escape_is_unrecognized() {
    assert_eq!(channel_data_to_terminal_codes(&[27, 91, 67]), vec![code(None, &[27, 91, 67])]);
}

#[test]
fn empty_input_has_no_events() {
    assert_eq!(channel_data_to_terminal_codes(&[]), Vec::<TerminalCode>::new());
}

#[test]
fn control_c_and_control_h_have_meanings() {
    assert_eq!(
        channel_data_to_terminal_codes(&[3, 8]),
        vec![code(Some(AsciiCode::EoT), &[3]), code(Some(AsciiCode::Backspace), &[8])]
    );
}

#[test]
fn other_control_bytes_are_dropped() {
    assert_eq!(
        channel_data_to_terminal_codes(&[0, 1, 7, 9, 10, 27, 31, b'a']),
        vec![code(Some(AsciiCode::Char(b'a')), &[b'a'])]
    );
}

#[test]
fn escape_without_bracket_is_a_dropped_control_byte() {
    assert_eq!(
        channel_data_to_terminal_codes(&[27, b'A']),
        vec![code(Some(AsciiCode::Char(b'A')), &[b'A'])]
    );
    assert_eq!(channel_data_to_terminal_codes(&[27]), Vec::<TerminalCode>::new());
}

#[test]
fn every_plain_byte_gives_one_event_in_order() {
    let data: Vec<u8> = (32u8..=255).filter(|b| *b != 127).collect();
    let codes = channel_data_to_terminal_codes(&data);
    assert_eq!(codes.len(), data.len());
    for (byte, decoded) in data.iter().zip(codes.iter()) {
        assert_eq!(decoded, &code(Some(AsciiCode::Char(*byte)), &[*byte]));
    }
}

#[test]
fn an_arrow_ends_with_its_final_byte() {
    assert_eq!(
        channel_data_to_terminal_codes(&[27, 91, 65, 97]),
        vec![code(Some(AsciiCode::ArrowUp), &[27, 91, 65]), code(Some(AsciiCode::Char(97)), &[97])]
    );
    assert_eq!(
        channel_data_to_terminal_codes(&[27, 91, 65, 13, b'x']),
        vec![
            code(Some(AsciiCode::ArrowUp), &[27, 91, 65]),
            code(Some(AsciiCode::Enter), &[13]),
            code(Some(AsciiCode::Char(b'x')), &[b'x']),
        ]
    );
}

#[test]
fn keys_of_one_chunk_are_decoded_one_by_one() {
    let down = code(Some(AsciiCode::ArrowDown), &[27, 91, 66]);
    let up = code(Some(AsciiCode::ArrowUp), &[27, 91, 65]);
    assert_eq!(
        channel_data_to_terminal_codes(&[27, 91, 66, 27, 91, 66, 27, 91, 66, 27, 91, 65, 13]),
        vec![down.clone(), down.clone(), down, up.clone(), code(Some(AsciiCode::Enter), &[13])]
    );
    assert_eq!(
        channel_data_to_terminal_codes(&[127, 97, 27, 91, 65, 13]),
        vec![
            code(Some(AsciiCode::Backspace), &[127]),
            code(Some(AsciiCode::Char(97)), &[97]),
            up,
            code(Some(AsciiCode::Enter), &[13]),
        ]
    );
}

#[test]
fn the_last_byte_of_a_sequence_decides() {
    assert_eq!(
        channel_data_to_terminal_codes(&[27, 91, 49, 59, 53, 65]),
        vec![code(Some(AsciiCode::ArrowUp), &[27, 91, 49, 59, 53, 65])]
    );
    assert_eq!(
        channel_data_to_terminal_codes(&[27, 91, 51, 126, b'q']),
        vec![code(None, &[27, 91, 51, 126]), code(Some(AsciiCode::Char(b'q')), &[b'q'])]
    );
    assert_eq!(
        channel_data_to_terminal_codes(&[27, 91, 91, 65]),
        vec![code(None, &[27, 91, 91]), code(Some(AsciiCode::Char(65)), &[65])]
    );
}

#[test]
fn parameters_run_on_to_the_final_byte() {
    assert_eq!(
        channel_data_to_terminal_codes(&[27, 91, 49, 13, 127, 50, 66]),
        vec![code(Some(AsciiCode::ArrowDown), &[27, 91, 49, 13, 127, 50, 66])]
    );
}

#[test]
fn escape_ends_after_the_first_byte_outside_ascii() {
    assert_eq!(
        channel_data_to_terminal_codes(&[b'a', 27, 91, 49, 200, b'b', 13]),
        vec![
            code(Some(AsciiCode::Char(b'a')), &[b'a']),
            code(None, &[27, 91, 49, 200]),
            code(Some(AsciiCode::Char(b'b')), &[b'b']),
            code(Some(AsciiCode::Enter), &[13]),
        ]
    );
}

#[test]
fn a_sequence_without_an_end_runs_to_the_end_of_the_input() {
    assert_eq!(
        channel_data_to_terminal_codes(&[27, 91, 49, 59, 53]),
        vec![code(None, &[27, 91, 49, 59, 53])]
    );
}

#[test]
fn escape_at_the_end_of_the_input_is_unrecognized() {
    assert_eq!(channel_data_to_terminal_codes(&[27, 91]), vec![code(None, &[27, 91])]);
}

#[test]
fn an_arrow_is_not_changed_by_the_byte_behind_it() {
    assert_eq!(
        channel_data_to_terminal_codes(&[27, 91, 65, 200]),
        vec![code(Some(AsciiCode::ArrowUp), &[27, 91, 65]), code(Some(AsciiCode::Char(200)), &[200])]
    );
}

#[test]
fn raw_bytes_of_all_events_are_the_kept_input() {
    let data = b"ab\x7f\r\x1b[B\x1b[Zq\xc3";
    let codes = channel_data_to_terminal_codes(data);
    let raw: Vec<u8> = codes.iter().flat_map(|c| c.raw_bytes.clone()).collect();
    assert_eq!(raw, data.to_vec());
}

#[test]
fn a_dropped_byte_changes_nothing() {
    assert_eq!(
        channel_data_to_terminal_codes(&[b'a', 0, b'b']),
        channel_data_to_terminal_codes(&[b'a', b'b'])
    );
}
