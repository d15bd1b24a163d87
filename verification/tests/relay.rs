use cargo_cult::relay::{
    relay_command, relay_step, RelayAction, RelayEvent, RelayOutcome, RelaySession,
    RELAY_TIMEOUT_SECS,
};
use cargo_cult::terminal::channel_data_to_terminal_codes;

#[test]
fn keys_are_forwarded_as_they_were_typed() {
    for code in channel_data_to_terminal_codes(b"a\x03\x1b[A\x1b[Z\r") {
        let raw = code.raw_bytes.clone();
        assert_eq!(relay_step(RelayEvent::Input(code)), RelayAction::Forward(raw));
    }
}

#[test]
fn remote_output_is_shown() {
    assert_eq!(relay_step(RelayEvent::Data(b"$ ".to_vec())), RelayAction::Show(b"$ ".to_vec()));
}

#[test]
fn exit_status_ends_the_relay() {
    assert_eq!(relay_step(RelayEvent::ExitStatus(7)), RelayAction::Finish(7));
}

#[test]
fn other_events_are_waited_out() {
    assert_eq!(relay_step(RelayEvent::Other), RelayAction::Wait);
}

#[test]
fn a_closed_channel_and_a_timeout_abandon_the_relay() {
    assert_eq!(relay_step(RelayEvent::Closed), RelayAction::Abandon);
    assert_eq!(relay_step(RelayEvent::TimedOut), RelayAction::Abandon);
}

#[test]
fn a_relay_runs_until_the_program_exits() {
    let mut relay = RelaySession::new(RELAY_TIMEOUT_SECS);
    assert_eq!(relay.timeout_budget, 1800);
    assert_eq!(relay.handle(RelayEvent::Data(b"hi".to_vec())), RelayAction::Show(b"hi".to_vec()));
    assert_eq!(relay.handle(RelayEvent::Other), RelayAction::Wait);
    assert_eq!(relay.outcome, None);
    assert_eq!(relay.handle(RelayEvent::ExitStatus(0)), RelayAction::Finish(0));
    assert_eq!(relay.outcome, Some(RelayOutcome::Exited(0)));
}

#[test]
fn a_relay_that_has_ended_does_nothing() {
    let mut relay = RelaySession::new(1);
    assert_eq!(relay.handle(RelayEvent::TimedOut), RelayAction::Abandon);
    assert_eq!(relay.outcome, Some(RelayOutcome::TimedOut));
    assert_eq!(relay.handle(RelayEvent::Data(b"late".to_vec())), RelayAction::Wait);
    assert_eq!(relay.handle(RelayEvent::ExitStatus(3)), RelayAction::Wait);
    assert_eq!(relay.outcome, Some(RelayOutcome::TimedOut));
    let mut closed = RelaySession::new(1);
    assert_eq!(closed.handle(RelayEvent::Closed), RelayAction::Abandon);
    assert_eq!(closed.outcome, Some(RelayOutcome::Closed));
}

#[test]
fn command_names_user_package_and_author() {
    assert_eq!(
        relay_command("jane", "hc-cargo-cult", "Jane Doe"),
        "docker run -it cargo-cult 'jane' 'hc-cargo-cult' 'Jane Doe'"
    );
}

#[test]
fn a_relay_lasts_half_an_hour_at_most() {
    assert_eq!(RELAY_TIMEOUT_SECS, 30 * 60);
}
