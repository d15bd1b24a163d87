use cargo_cult::app::{Action, App, Screen};
use cargo_cult::database::FormData;
use cargo_cult::params::TerminalParams;
use cargo_cult::terminal::{channel_data_to_terminal_codes, TerminalCode};
use crossterm::style::force_color_output;

const DOWN: &[u8] = &[27, 91, 66];

fn keys(bytes: &[u8]) -> Vec<TerminalCode> {
    channel_data_to_terminal_codes(bytes)
}

fn app() -> App {
    let params = TerminalParams {
        term: "xterm".to_string(),
        col_width: 20,
        row_height: 24,
        modes: Vec::new(),
        username: "jane".to_string(),
    };
    App::new(
        params,
        "/\\\n\\/".to_string(),
        "All about the cargo cult programme.".to_string(),
        "Write an app and publish it.".to_string(),
    )
}

fn feed(app: &mut App, bytes: &[u8]) -> Vec<Action> {
    keys(bytes).iter().flat_map(|key| app.handle_key(key)).collect()
}

fn record(name: &str, package: Option<&str>, description: &str) -> FormData {
    let mut data = FormData::new();
    data.name = name.to_string();
    data.package_name = package.map(|p| p.to_string());
    data.description = description.to_string();
    data
}

const MENU_FIRST: &str = "\x1b[?7l\x1b[1m> \x1b[0m\x1b[1mWhat is this?\x1b[0m\r\n\
     \x1b[1m  (+ resources & criteria)\x1b[0m\r\n\
     \x1b[1m> \x1b[0m\x1b[0mHow do I start?\x1b[0m\r\n\
     \x1b[1m> \x1b[0m\x1b[0mSee the gallery\x1b[0m\r\n\
     \x1b[1m> \x1b[0m\x1b[0mSubmit your project\x1b[0m\x1b[2G\x1b[?7h";

#[test]
fn a_session_opens_with_title_picture_greeting_and_menu() {
    force_color_output(true);
    let app = app();
    let band = "\x1b[49m  \x1b[49m\x1b[48;5;1m                                \x1b[49m\x1b[49m\r\n\x1b[49m";
    let middle = "\x1b[49m  \x1b[49m\x1b[48;5;1m   \x1b[49m\x1b[48;5;1m\x1b[38;5;15m\x1b[1mWelcome to the Cargo Cult!\x1b[0m\x1b[48;5;1m   \x1b[49m\r\n";
    assert_eq!(
        app.run(),
        vec![
            Action::Print("\x1b]0;cargo cult\x07".to_string()),
            Action::Print("/\\\r\n".to_string()),
            Action::Pause(50),
            Action::Print("\\/\r\n".to_string()),
            Action::Pause(50),
            Action::Print("\r\n".to_string()),
            Action::Pause(50),
            Action::Print(format!("{}{}{}\r\n", band, middle, band)),
            Action::Print(MENU_FIRST.to_string()),
        ]
    );
}

#[test]
fn the_first_entry_prints_the_text_and_shows_the_menu_again() {
    let mut app = app();
    let actions = feed(&mut app, b"\r");
    assert_eq!(
        actions,
        vec![Action::Print(format!(
            "\x1b[0m\x1b[0m\r\nAll about the cargo\r\ncult programme.\r\n\r\n{}",
            MENU_FIRST
        ))]
    );
    assert!(matches!(app.screen(), Screen::Menu(_)));
}

#[test]
fn the_second_entry_prints_its_text_too() {
    let mut app = app();
    feed(&mut app, DOWN);
    let actions = feed(&mut app, b"\r");
    assert_eq!(
        actions,
        vec![Action::Print(format!(
            "\x1b[0m\x1b[0m\r\nWrite an app and\r\npublish it.\r\n\r\n{}",
            MENU_FIRST
        ))]
    );
    assert!(matches!(app.screen(), Screen::Menu(_)));
}

#[test]
fn a_failure_of_the_data_store_ends_the_session() {
    let mut app = app();
    assert_eq!(app.store_failed(), Vec::new());
    app.gallery();
    assert_eq!(app.store_failed(), vec![Action::Exit]);
    assert!(matches!(app.screen(), Screen::Done));
    assert_eq!(app.store_failed(), Vec::new());
}

#[test]
fn arrows_move_through_the_menu() {
    let mut app = app();
    let actions = feed(&mut app, DOWN);
    assert_eq!(
        actions,
        vec![Action::Print(
            "\x1b[?7l\x1b[0m\x1b[0m\x1b[1G\x1b[4A\x1b[J\
             \x1b[1m> \x1b[0m\x1b[0mWhat is this?\x1b[0m\r\n\
             \x1b[0m  (+ resources & criteria)\x1b[0m\r\n\
             \x1b[1m> \x1b[0m\x1b[1mHow do I start?\x1b[0m\r\n\
             \x1b[1m> \x1b[0m\x1b[0mSee the gallery\x1b[0m\r\n\
             \x1b[1m> \x1b[0m\x1b[0mSubmit your project\x1b[0m\x1b[2G\x1b[?7h"
                .to_string()
        )]
    );
}

#[test]
fn the_gallery_is_fetched_and_a_choice_starts_the_relay() {
    let mut app = app();
    feed(&mut app, DOWN);
    feed(&mut app, DOWN);
    let actions = feed(&mut app, b"\r");
    assert_eq!(
        actions,
        vec![Action::Print("\x1b[0m\x1b[0m\r\n".to_string()), Action::FetchGallery]
    );
    assert!(matches!(app.screen(), Screen::GalleryLoading));
    assert_eq!(feed(&mut app, b"x\r"), Vec::new());

    let records = vec![
        record("Ann", Some("snake"), "A game of snake."),
        record("Bob", Some("life"), "Conway's game."),
    ];
    let shown = app.gallery_loaded(records);
    assert_eq!(
        shown,
        vec![Action::Print(
            "\x1b[?7l\x1b[1m> \x1b[0m\x1b[1msnake\x1b[0m\r\n\x1b[1mA game of snake.\x1b[0m\r\n\x1b[1m\x1b[0m\r\n\
             \x1b[1m> \x1b[0m\x1b[0mlife\x1b[0m\r\n\x1b[0mConway's game.\x1b[0m\r\n\x1b[0m\x1b[0m\x1b[2G\x1b[?7h"
                .to_string()
        )]
    );
    feed(&mut app, DOWN);
    let chosen = feed(&mut app, b"\r");
    assert_eq!(
        chosen,
        vec![
            Action::Print("\x1b[0m\x1b[0m\r\n".to_string()),
            Action::Relay("docker run -it cargo-cult 'jane' 'life' 'Bob'".to_string()),
        ]
    );
    assert!(matches!(app.screen(), Screen::Relay));
    assert_eq!(feed(&mut app, b"ls\r"), Vec::new());
    assert_eq!(app.relay_finished(), vec![Action::Exit]);
    assert!(matches!(app.screen(), Screen::Done));
}

#[test]
fn a_gallery_that_cannot_be_shown_ends_the_session() {
    for records in [Vec::new(), vec![record("Ann", None, "no package")]] {
        let mut app = app();
        assert_eq!(app.gallery(), vec![Action::FetchGallery]);
        assert_eq!(app.gallery_loaded(records), vec![Action::Exit]);
        assert!(matches!(app.screen(), Screen::Done));
    }
}

#[test]
fn the_form_is_filled_and_handed_in() {
    force_color_output(true);
    let mut app = app();
    feed(&mut app, DOWN);
    feed(&mut app, DOWN);
    feed(&mut app, DOWN);
    let opened = feed(&mut app, b"\r");
    assert_eq!(
        opened,
        vec![Action::Print(
            "\x1b[0m\x1b[0m\r\n\
             \x1b[1mAre you submitting a new project or an update?\x1b[0m\r\n\
             \x1b[?7l\x1b[1m> \x1b[0m\x1b[1mSubmission\x1b[0m\r\n\
             \x1b[1m> \x1b[0m\x1b[0mUpdate\x1b[0m\x1b[2G\x1b[?7h"
                .to_string()
        )]
    );
    let actions = feed(
        &mut app,
        b"\rJane Doe\r@jane\rjane@example.com\r1 Main St\r\rShelburne\rVT\r05482\rUSA\r\
          https://crates.io/crates/x\rA thing.\r3\r",
    );
    let created = actions.iter().find_map(|action| match action {
        Action::Create(data) => Some(data.duplicate()),
        _ => None,
    });
    assert_eq!(created.map(|data| data.name), Some("Jane Doe".to_string()));
    assert!(matches!(actions.last(), Some(Action::Create(_))));
    assert!(matches!(app.screen(), Screen::Uploading));
    assert_eq!(feed(&mut app, b"x"), Vec::new());
    assert_eq!(
        app.submitted(),
        vec![
            Action::Print(
                "\x1b[48;5;4m\x1b[38;5;15m\x1b[1m   Wahoo! Thanks for submitting. \x1b[0m\r\n\r\n"
                    .to_string()
            ),
            Action::Exit,
        ]
    );
    assert!(matches!(app.screen(), Screen::Done));
}

#[test]
fn ctrl_c_ends_the_session_once() {
    let mut app = app();
    assert_eq!(feed(&mut app, &[3]), vec![Action::Exit]);
    assert!(matches!(app.screen(), Screen::Done));
    assert_eq!(feed(&mut app, &[3, 13, b'a']), Vec::new());
    assert_eq!(app.submitted(), Vec::new());
    assert_eq!(app.relay_finished(), Vec::new());
    assert_eq!(app.gallery_loaded(Vec::new()), Vec::new());
}

#[test]
fn the_gallery_can_be_asked_for_without_a_key() {
    let mut app = app();
    assert_eq!(app.gallery(), vec![Action::FetchGallery]);
    assert!(matches!(app.screen(), Screen::GalleryLoading));
    assert_eq!(app.gallery(), Vec::new());
}

#[test]
fn a_project_can_be_run_without_the_menu() {
    let mut app = app();
    assert_eq!(
        app.run_project("snake"),
        vec![Action::Relay("docker run -it cargo-cult 'jane' 'snake' ''".to_string())]
    );
    assert!(matches!(app.screen(), Screen::Relay));
    assert_eq!(app.run_project("snake"), Vec::new());
    assert_eq!(app.relay_finished(), vec![Action::Exit]);
}

#[test]
fn news_that_nobody_waits_for_is_ignored() {
    let mut app = app();
    assert_eq!(app.submitted(), Vec::new());
    assert_eq!(app.relay_finished(), Vec::new());
    assert_eq!(app.gallery_loaded(vec![record("Ann", Some("snake"), "x")]), Vec::new());
    assert!(matches!(app.screen(), Screen::Menu(_)));
    assert_eq!(app.params().username, "jane");
}
