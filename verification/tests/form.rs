use cargo_cult::database::FormData;
use cargo_cult::form::{submitted_notice, Field, FormStage, FormStep, SubmissionForm};
use cargo_cult::terminal::{channel_data_to_terminal_codes, TerminalCode};
use crossterm::style::force_color_output;

fn keys(bytes: &[u8]) -> Vec<TerminalCode> {
    channel_data_to_terminal_codes(bytes)
}

fn feed(form: &mut SubmissionForm, bytes: &[u8]) -> Vec<FormStep> {
    keys(bytes).iter().map(|key| form.handle(key)).collect()
}

#[test]
fn the_form_asks_for_the_kind_first() {
    let (form, first) = SubmissionForm::start(24);
    assert_eq!(form.stage(), FormStage::ChoosingKind);
    assert_eq!(form.data(), &FormData::new());
    assert_eq!(
        first,
        "\x1b[1mAre you submitting a new project or an update?\x1b[0m\r\n\
         \x1b[?7l\x1b[1m> \x1b[0m\x1b[1mSubmission\x1b[0m\r\n\
         \x1b[1m> \x1b[0m\x1b[0mUpdate\x1b[0m\x1b[2G\x1b[?7h"
    );
}

#[test]
fn the_kind_is_recorded() {
    let (mut form, _) = SubmissionForm::start(24);
    feed(&mut form, b"\x1b[B\r");
    assert_eq!(form.data().submission_type, "Update");
    assert_eq!(form.stage(), FormStage::Asking(Field::Name));
}

#[test]
fn typed_name_reaches_the_record() {
    let (mut form, _) = SubmissionForm::start(24);
    feed(&mut form, b"\r");
    assert_eq!(form.stage(), FormStage::Asking(Field::Name));
    feed(&mut form, b"Jane Doe\r");
    assert_eq!(form.data().name, "Jane Doe");
    assert_eq!(form.stage(), FormStage::Asking(Field::SlackHandle));
}

#[test]
fn the_first_question_follows_the_choice() {
    force_color_output(true);
    let (mut form, _) = SubmissionForm::start(24);
    let steps = feed(&mut form, b"\r");
    assert_eq!(
        steps,
        vec![FormStep::Print(
            "\x1b[0m\x1b[0m\r\n\
             \x1b[1m  First thing's first... what's your name?\x1b[0m\r\n\
             \x1b[2K\x1b[1G\x1b[0m\x1b[1m> \x1b[0m\x1b[38;5;8mFiona Hackworth\x1b[39m\x1b[3G"
                .to_string()
        )]
    );
}

#[test]
fn the_next_question_greets_by_name() {
    force_color_output(true);
    let (mut form, _) = SubmissionForm::start(24);
    feed(&mut form, b"\rJane");
    let steps = feed(&mut form, b"\r");
    assert_eq!(
        steps,
        vec![FormStep::Print(
            "\x1b[0m\x1b[0m\r\n\r\n\
             \x1b[1m  Hi, Jane! What's your Slack handle?\x1b[0m\r\n\
             \x1b[2K\x1b[1G\x1b[0m\x1b[1m> \x1b[0m\x1b[38;5;8m@fiona\x1b[39m\x1b[3G"
                .to_string()
        )]
    );
}

#[test]
fn a_required_entry_is_not_skipped() {
    force_color_output(true);
    let (mut form, _) = SubmissionForm::start(24);
    feed(&mut form, b"\r");
    let steps = feed(&mut form, b"\r\r");
    let warning = "\x1b[2K\x1b[1G\x1b[0m\x1b[1m> \x1b[0m\x1b[48;5;1m\x1b[38;5;15m\x1b[5mThis field is required!\x1b[0m";
    assert_eq!(
        steps,
        vec![FormStep::Print(warning.to_string()), FormStep::Print(warning.to_string())]
    );
    assert_eq!(form.stage(), FormStage::Asking(Field::Name));
    assert_eq!(form.data().name, "");
}

#[test]
fn address_lines_follow_each_other_without_a_blank_line() {
    force_color_output(true);
    let (mut form, _) = SubmissionForm::start(24);
    feed(&mut form, b"\rJane\r@jane\rjane@example.com\r");
    assert_eq!(form.stage(), FormStage::Asking(Field::AddressLine1));
    let steps = feed(&mut form, b"1 Main St\r");
    assert_eq!(
        steps.last(),
        Some(&FormStep::Print(
            "\x1b[0m\x1b[0m\r\n\
             \x1b[2K\x1b[1G\x1b[0m\x1b[1m> \x1b[0m\x1b[38;5;8mAddress Line 2 (optional)\x1b[39m\x1b[3G"
                .to_string()
        ))
    );
}

#[test]
fn the_question_for_the_package_shows_the_registry() {
    force_color_output(true);
    let (mut form, _) = SubmissionForm::start(24);
    feed(&mut form, b"\rJane\r@jane\rjane@example.com\r1 Main St\r\rShelburne\rVT\r05482\r");
    assert_eq!(form.stage(), FormStage::Asking(Field::Country));
    let steps = feed(&mut form, b"USA\r");
    assert_eq!(
        steps.last(),
        Some(&FormStep::Print(
            "\x1b[0m\x1b[0m\r\n\r\n\
             \x1b[1m  What's the link to your package on \x1b[48;5;5m\x1b[38;5;15mcrates.io\x1b[49m\x1b[39m?\x1b[0m\r\n\
             \x1b[2K\x1b[1G\x1b[0m\x1b[1m> \x1b[0m\x1b[38;5;8mhttps://crates.io/crates/hc-cargo-cult\x1b[39m\x1b[3G"
                .to_string()
        ))
    );
}

#[test]
fn a_complete_form_is_handed_in() {
    let (mut form, _) = SubmissionForm::start(24);
    let steps = feed(
        &mut form,
        b"\rJane Doe\r@jane\rjane@example.com\r1 Main St\r\rShelburne\rVT\r05482\rUSA\r\
          https://crates.io/crates/x\rA thing.\r3\r",
    );
    let mut expected = FormData::new();
    expected.name = "Jane Doe".to_string();
    expected.slack_handle = "@jane".to_string();
    expected.email = "jane@example.com".to_string();
    expected.address_line1 = "1 Main St".to_string();
    expected.city = "Shelburne".to_string();
    expected.state = "VT".to_string();
    expected.zip = "05482".to_string();
    expected.country = "USA".to_string();
    expected.package_link = "https://crates.io/crates/x".to_string();
    expected.description = "A thing.".to_string();
    expected.hours = "3".to_string();
    assert_eq!(
        steps.last(),
        Some(&FormStep::Submit("\x1b[0m\x1b[0m\r\n\r\n".to_string(), expected))
    );
    assert_eq!(form.stage(), FormStage::Complete);
    assert_eq!(feed(&mut form, b"x"), vec![FormStep::Print(String::new())]);
    assert_eq!(feed(&mut form, &[3]), vec![FormStep::Exit]);
}

#[test]
fn ctrl_c_leaves_the_form_at_any_time() {
    let (mut form, _) = SubmissionForm::start(24);
    assert_eq!(feed(&mut form, &[3]), vec![FormStep::Exit]);
    feed(&mut form, b"\rJa");
    assert_eq!(feed(&mut form, &[3]), vec![FormStep::Exit]);
    assert_eq!(form.stage(), FormStage::Asking(Field::Name));
}

#[test]
fn fields_come_in_the_order_of_the_form() {
    let mut order = vec![Field::first()];
    while let Some(next) = order.last().unwrap().next() {
        order.push(next);
    }
    assert_eq!(
        order,
        vec![
            Field::Name,
            Field::SlackHandle,
            Field::Email,
            Field::AddressLine1,
            Field::AddressLine2,
            Field::City,
            Field::State,
            Field::Zip,
            Field::Country,
            Field::PackageLink,
            Field::Description,
            Field::Hours,
        ]
    );
    for field in order {
        assert_eq!(field.required(), field != Field::AddressLine2);
    }
}

#[test]
fn placeholders_and_groups() {
    assert_eq!(Field::City.placeholder(), "City");
    assert_eq!(Field::Hours.placeholder(), "3 hours, plus 5 hours learning Rust");
    assert!(Field::Country.ends_group());
    assert!(!Field::City.ends_group());
    assert_eq!(Field::City.heading("Jane", "crates.io"), None);
    assert_eq!(
        Field::Email.heading("Jane", "crates.io"),
        Some("  Now, what's your email?".to_string())
    );
}

#[test]
fn badge_and_thanks_without_colour() {
    force_color_output(false);
    assert_eq!(
        submitted_notice(),
        "\x1b[m\x1b[m\x1b[1m   Wahoo! Thanks for submitting. \x1b[0m\r\n\r\n"
    );
    let (mut form, _) = SubmissionForm::start(24);
    feed(&mut form, b"\rJane\r@jane\rjane@example.com\r1 Main St\r\rShelburne\rVT\r05482\r");
    let steps = feed(&mut form, b"USA\r");
    match steps.last() {
        Some(FormStep::Print(out)) => assert!(out.contains(
            "\x1b[1m  What's the link to your package on \x1b[m\x1b[mcrates.io\x1b[m\x1b[m?\x1b[0m\r\n"
        )),
        other => panic!("the form answered {:?}", other),
    }
}

#[test]
fn thanks_after_a_submission() {
    force_color_output(true);
    assert_eq!(
        submitted_notice(),
        "\x1b[48;5;4m\x1b[38;5;15m\x1b[1m   Wahoo! Thanks for submitting. \x1b[0m\r\n\r\n"
    );
}
