//! The relay between a session and a program that runs elsewhere: keys go
//! to the program as they were typed, and what the program prints goes to
//! the terminal at once.

use vstd::prelude::*;
use vstd::string::StringExecFns;
use crate::terminal::{InputEvent, TerminalCode};

verus! {

/// How long a relay may last, in seconds: half an hour.
pub const RELAY_TIMEOUT_SECS: u64 = 1800;

/// What happened while the relay was waiting.
#[derive(Clone, Debug, PartialEq, Eq)]
pub enum RelayEvent {
    /// The user pressed a key.
    Input(TerminalCode),
    /// The remote program printed something.
    Data(Vec<u8>),
    /// The remote program ended with this status.
    ExitStatus(u32),
    /// The remote side closed the channel.
    Closed,
    /// The time of the relay has run out.
    TimedOut,
    /// Anything else the remote side reports.
    Other,
}

/// What the relay is to do next.
#[derive(Clone, Debug, PartialEq, Eq)]
pub enum RelayAction {
    /// Send these bytes to the remote program.
    Forward(Vec<u8>),
    /// Write these bytes to the terminal and flush.
    Show(Vec<u8>),
    /// Tell the remote side that no more input follows, and end the relay
    /// with this status.
    Finish(u32),
    /// Drop the connection and end the relay without a status.
    Abandon,
    /// Keep waiting.
    Wait,
}

/// The mathematical value of a [`RelayEvent`].
pub enum RelayEventView {
    Input(InputEvent),
    Data(Seq<u8>),
    ExitStatus(u32),
    Closed,
    TimedOut,
    Other,
}

/// The mathematical value of a [`RelayAction`].
pub enum RelayActionView {
    Forward(Seq<u8>),
    Show(Seq<u8>),
    Finish(u32),
    Abandon,
    Wait,
}

impl View for RelayEvent {
    type V = RelayEventView;

    open spec fn view(&self) -> RelayEventView {
        match self {
            RelayEvent::Input(code) => RelayEventView::Input(code@),
            RelayEvent::Data(bytes) => RelayEventView::Data(bytes@),
            RelayEvent::ExitStatus(status) => RelayEventView::ExitStatus(*status),
            RelayEvent::Closed => RelayEventView::Closed,
            RelayEvent::TimedOut => RelayEventView::TimedOut,
            RelayEvent::Other => RelayEventView::Other,
        }
    }
}

impl View for RelayAction {
    type V = RelayActionView;

    open spec fn view(&self) -> RelayActionView {
        match self {
            RelayAction::Forward(bytes) => RelayActionView::Forward(bytes@),
            RelayAction::Show(bytes) => RelayActionView::Show(bytes@),
            RelayAction::Finish(status) => RelayActionView::Finish(*status),
            RelayAction::Abandon => RelayActionView::Abandon,
            RelayAction::Wait => RelayActionView::Wait,
        }
    }
}

/// The answer to an event: a key is forwarded by the raw bytes that
/// produced it, whatever it means; output is shown as it came; an exit
/// status ends the relay; so do a closed channel and the end of the
/// relay's time, without a status; nothing else matters.
pub open spec fn relay_answer(event: RelayEventView) -> RelayActionView {
    match event {
        RelayEventView::Input(key) => RelayActionView::Forward(key.raw),
        RelayEventView::Data(bytes) => RelayActionView::Show(bytes),
        RelayEventView::ExitStatus(status) => RelayActionView::Finish(status),
        RelayEventView::Closed => RelayActionView::Abandon,
        RelayEventView::TimedOut => RelayActionView::Abandon,
        RelayEventView::Other => RelayActionView::Wait,
    }
}

/// How a relay ended.
#[derive(Clone, Copy, Debug, PartialEq, Eq, Structural)]
pub enum RelayOutcome {
    /// The remote program ended with this status.
    Exited(u32),
    /// The remote side closed the channel.
    Closed,
    /// The time of the relay ran out.
    TimedOut,
}

/// How the relay ends with an event, if it does.
pub open spec fn relay_end(event: RelayEventView) -> Option<RelayOutcome> {
    match event {
        RelayEventView::ExitStatus(status) => Some(RelayOutcome::Exited(status)),
        RelayEventView::Closed => Some(RelayOutcome::Closed),
        RelayEventView::TimedOut => Some(RelayOutcome::TimedOut),
        _ => None,
    }
}

/// A relay with its time budget, and how it ended once it has.
#[derive(Clone, Copy, Debug, PartialEq, Eq, Structural)]
pub struct RelaySession {
    /// How long the relay may last, in seconds.
    pub timeout_budget: u64,
    /// How the relay ended; `None` while it runs.
    pub outcome: Option<RelayOutcome>,
}

impl RelaySession {
    /// A running relay that may last `timeout_budget` seconds.
    pub fn new(timeout_budget: u64) -> (session: RelaySession)
        ensures
            session == (RelaySession { timeout_budget, outcome: None }),
    {
        RelaySession { timeout_budget, outcome: None }
    }

    /// Takes an event. A running relay answers it (see [`relay_answer`]) and
    /// ends with the first event that ends it; a relay that has ended does
    /// nothing any more.
    pub fn handle(&mut self, event: RelayEvent) -> (action: RelayAction)
        ensures
            final(self).timeout_budget == old(self).timeout_budget,
            match old(self).outcome {
                Some(_) => action@ == RelayActionView::Wait && *final(self) == *old(self),
                None => action@ == relay_answer(event@) && final(self).outcome == relay_end(
                    event@,
                ),
            },
    {
        if self.outcome.is_some() {
            return RelayAction::Wait;
        }
        match &event {
            RelayEvent::ExitStatus(status) => {
                self.outcome = Some(RelayOutcome::Exited(*status));
            },
            RelayEvent::Closed => {
                self.outcome = Some(RelayOutcome::Closed);
            },
            RelayEvent::TimedOut => {
                self.outcome = Some(RelayOutcome::TimedOut);
            },
            _ => {},
        }
        relay_step(event)
    }
}

/// Decides what the relay does about an event.
pub fn relay_step(event: RelayEvent) -> (action: RelayAction)
    ensures
        action@ == relay_answer(event@),
{
    match event {
        RelayEvent::Input(code) => RelayAction::Forward(code.raw_bytes),
        RelayEvent::Data(bytes) => RelayAction::Show(bytes),
        RelayEvent::ExitStatus(status) => RelayAction::Finish(status),
        RelayEvent::Closed => RelayAction::Abandon,
        RelayEvent::TimedOut => RelayAction::Abandon,
        RelayEvent::Other => RelayAction::Wait,
    }
}

/// The command that starts the demonstration of a package on the backend,
/// with the three values between single quotes.
pub open spec fn relay_command_text(
    username: Seq<char>,
    package: Seq<char>,
    author: Seq<char>,
) -> Seq<char> {
    "docker run -it cargo-cult '"@ + username + "' '"@ + package + "' '"@ + author + "'"@
}

/// Builds the command that the relay runs on the backend for a user, a
/// package and the package's author. The values are placed between single
/// quotes as they are.
pub fn relay_command(username: &str, package: &str, author: &str) -> (command: String)
    ensures
        command@ == relay_command_text(username@, package@, author@),
{
    let mut command = String::from_str("docker run -it cargo-cult '");
    command.append(username);
    command.append("' '");
    command.append(package);
    command.append("' '");
    command.append(author);
    command.append("'");
    command
}

} // verus!
