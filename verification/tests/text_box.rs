use cargo_cult::ansi::{DARK_RED, WHITE};
use cargo_cult::text_box::{assemble_box, box_parts, text_box, BoxParts, TextStyle};
use crossterm::style::force_color_output;

const WHITE_BOLD: TextStyle = TextStyle { foreground: Some(WHITE), bold: true };
const PLAIN: TextStyle = TextStyle { foreground: None, bold: false };

fn parts() -> BoxParts {
    BoxParts {
        margin: "<m>".to_string(),
        fill: "<fill>".to_string(),
        line_end: "<e>\r\n".to_string(),
        pad: "<p>".to_string(),
        body: "text".to_string(),
    }
}

#[test]
fn a_box_has_rows_above_and_below_the_text() {
    assert_eq!(
        assemble_box(&parts(), 2),
        "<m><fill><e>\r\n<m><fill><e>\r\n<m><p>text<p>\r\n<m><fill><e>\r\n<m><fill><e>\r\n"
    );
}

#[test]
fn a_box_without_padding_rows_is_one_row() {
    assert_eq!(assemble_box(&parts(), 0), "<m><p>text<p>\r\n");
}

#[test]
fn pieces_are_coloured_by_the_terminal_library() {
    force_color_output(true);
    assert_eq!(
        box_parts("Hi", WHITE_BOLD, DARK_RED, 3, 2),
        BoxParts {
            margin: "\x1b[49m  \x1b[49m".to_string(),
            fill: "\x1b[48;5;1m        \x1b[49m".to_string(),
            line_end: "\x1b[49m\r\n\x1b[49m".to_string(),
            pad: "\x1b[48;5;1m   \x1b[49m".to_string(),
            body: "\x1b[48;5;1m\x1b[38;5;15m\x1b[1mHi\x1b[0m".to_string(),
        }
    );
}

#[test]
fn the_greeting_box() {
    force_color_output(true);
    let band = "\x1b[49m  \x1b[49m\x1b[48;5;1m        \x1b[49m\x1b[49m\r\n\x1b[49m";
    let middle = "\x1b[49m  \x1b[49m\x1b[48;5;1m   \x1b[49m\x1b[48;5;1m\x1b[38;5;15m\x1b[1mHi\x1b[0m\x1b[48;5;1m   \x1b[49m\r\n";
    assert_eq!(
        text_box("Hi", WHITE_BOLD, DARK_RED, 1, 3, 2),
        format!("{}{}{}", band, middle, band)
    );
}

#[test]
fn widths_of_a_box_count_characters() {
    force_color_output(true);
    let parts = box_parts("\u{e9}\u{e9}", PLAIN, 12, 1, 0);
    assert_eq!(parts.fill, "\x1b[48;5;12m    \x1b[49m");
    assert_eq!(parts.margin, "\x1b[49m\x1b[49m");
}

#[test]
fn the_box_without_colour() {
    force_color_output(false);
    let band = "\x1b[m \x1b[m\x1b[m       \x1b[m\x1b[m\r\n\x1b[m";
    let middle = "\x1b[m \x1b[m\x1b[m \x1b[m\x1b[mHello\x1b[m\x1b[m \x1b[m\r\n";
    assert_eq!(
        text_box("Hello", PLAIN, DARK_RED, 1, 1, 1),
        format!("{}{}{}", band, middle, band)
    );
}

#[test]
fn a_box_has_a_line_for_every_row() {
    for colour in [true, false] {
        force_color_output(colour);
        for padding_y in 0..4 {
            let bold = TextStyle { foreground: None, bold: true };
            let out = text_box("Hi", bold, 200, padding_y, 2, 3);
            let lines: Vec<&str> = out.split("\r\n").collect();
            assert_eq!(lines.len(), 2 * padding_y + 2);
            assert!(lines[padding_y].contains("Hi"));
        }
    }
}

#[test]
fn the_text_of_a_box_in_every_style() {
    force_color_output(true);
    let coloured = TextStyle { foreground: Some(3), bold: false };
    let bold = TextStyle { foreground: None, bold: true };
    assert_eq!(box_parts("x", PLAIN, 200, 0, 0).body, "\x1b[48;5;200mx\x1b[49m");
    assert_eq!(
        box_parts("x", coloured, 200, 0, 0).body,
        "\x1b[48;5;200m\x1b[38;5;3mx\x1b[49m\x1b[39m"
    );
    assert_eq!(box_parts("x", bold, 0, 0, 0).body, "\x1b[48;5;0m\x1b[1mx\x1b[0m");
    assert_eq!(
        box_parts("x", WHITE_BOLD, 255, 0, 0).body,
        "\x1b[48;5;255m\x1b[38;5;15m\x1b[1mx\x1b[0m"
    );
    force_color_output(false);
    assert_eq!(box_parts("x", coloured, 200, 0, 0).body, "\x1b[m\x1b[mx\x1b[m\x1b[m");
    assert_eq!(box_parts("x", WHITE_BOLD, 255, 0, 0).body, "\x1b[m\x1b[m\x1b[1mx\x1b[0m");
}
