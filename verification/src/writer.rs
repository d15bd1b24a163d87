//! Output ordering: writes gather in a sink, a flush hands the sink to the
//! transport in one piece.

use vstd::prelude::*;
use vstd::string::{StrSliceExecFns, StringExecFns};
use vstd::utf8::{decode_utf8, encode_utf8, valid_utf8};
use crate::text::{crlf, crlf_str, join, split, split_str, strings_of};

verus! {

/// A request to the output side of a session.
#[derive(Clone, Debug, PartialEq, Eq)]
pub enum OutputCommand {
    /// Append these bytes to what is waiting.
    Write(Vec<u8>),
    /// Hand everything that is waiting to the transport.
    Flush,
}

/// The mathematical value of an [`OutputCommand`].
pub enum Command {
    Write(Seq<u8>),
    Flush,
}

impl View for OutputCommand {
    type V = Command;

    open spec fn view(&self) -> Command {
        match self {
            OutputCommand::Write(bytes) => Command::Write(bytes@),
            OutputCommand::Flush => Command::Flush,
        }
    }
}

/// The values of a sequence of commands.
pub open spec fn commands_of(commands: Seq<OutputCommand>) -> Seq<Command> {
    commands.map_values(|c: OutputCommand| c@)
}

/// The byte strings of a sequence of buffers.
pub open spec fn buffers_of(buffers: Seq<Vec<u8>>) -> Seq<Seq<u8>> {
    buffers.map_values(|b: Vec<u8>| b@)
}

/// What waits in the sink after one command.
pub open spec fn pending_after_one(pending: Seq<u8>, command: Command) -> Seq<u8> {
    match command {
        Command::Write(bytes) => pending + bytes,
        Command::Flush => Seq::empty(),
    }
}

/// What one command hands to the transport, if anything.
pub open spec fn delivery_of(pending: Seq<u8>, command: Command) -> Option<Seq<u8>> {
    match command {
        Command::Write(_) => None,
        Command::Flush => Some(pending),
    }
}

/// What waits in the sink after the commands were applied in order.
pub open spec fn pending_after(pending: Seq<u8>, commands: Seq<Command>) -> Seq<u8>
    decreases commands.len(),
{
    if commands.len() == 0 {
        pending
    } else {
        pending_after_one(pending_after(pending, commands.drop_last()), commands.last())
    }
}

/// What the transport receives, in order, while the commands are applied:
/// one delivery per flush, holding the writes since the flush before it.
pub open spec fn deliveries(pending: Seq<u8>, commands: Seq<Command>) -> Seq<Seq<u8>>
    decreases commands.len(),
{
    if commands.len() == 0 {
        Seq::empty()
    } else {
        let earlier = deliveries(pending, commands.drop_last());
        match delivery_of(pending_after(pending, commands.drop_last()), commands.last()) {
            Some(bytes) => earlier.push(bytes),
            None => earlier,
        }
    }
}

/// Draining does not depend on how the queue is cut: applying `first` and
/// then `second` delivers what applying both at once delivers, and leaves the
/// same bytes waiting.
pub proof fn lemma_drain_in_parts(pending: Seq<u8>, first: Seq<Command>, second: Seq<Command>)
    ensures
        pending_after(pending, first + second) == pending_after(
            pending_after(pending, first),
            second,
        ),
        deliveries(pending, first + second) == deliveries(pending, first) + deliveries(
            pending_after(pending, first),
            second,
        ),
    decreases second.len(),
{
    if second.len() == 0 {
        assert(first + second =~= first);
        assert(deliveries(pending, first) + Seq::<Seq<u8>>::empty() =~= deliveries(pending, first));
    } else {
        lemma_drain_in_parts(pending, first, second.drop_last());
        assert((first + second).drop_last() =~= first + second.drop_last());
        assert((first + second).last() == second.last());
        let middle = pending_after(pending, first);
        match delivery_of(pending_after(middle, second.drop_last()), second.last()) {
            Some(bytes) => {
                assert(deliveries(pending, first + second) =~= deliveries(pending, first)
                    + deliveries(middle, second));
            },
            None => {},
        }
    }
}

/// A write never reaches the transport by itself.
pub proof fn lemma_writes_alone_deliver_nothing(pending: Seq<u8>, commands: Seq<Command>)
    requires
        forall|i: int| 0 <= i < commands.len() ==> commands[i] is Write,
    ensures
        deliveries(pending, commands).len() == 0,
    decreases commands.len(),
{
    if commands.len() > 0 {
        lemma_writes_alone_deliver_nothing(pending, commands.drop_last());
    }
}

/// The queue does not take the command: the output side has stopped.
#[derive(Clone, Copy, Debug, PartialEq, Eq, Structural)]
pub struct SendError;

/// The single point through which a session's output passes.
#[derive(Debug)]
pub struct Multiplexer {
    sink: Vec<u8>,
    stopped: bool,
}

impl Multiplexer {
    /// The bytes written since the last flush.
    pub closed spec fn pending(&self) -> Seq<u8> {
        self.sink@
    }

    /// Whether the output side has stopped after a failure of the transport.
    pub closed spec fn stopped(&self) -> bool {
        self.stopped
    }

    /// A multiplexer with nothing waiting.
    pub fn new() -> (m: Multiplexer)
        ensures
            m.pending() == Seq::<u8>::empty(),
            !m.stopped(),
    {
        Multiplexer { sink: Vec::new(), stopped: false }
    }

    /// How many bytes are waiting.
    pub fn pending_len(&self) -> (n: usize)
        ensures
            n == self.pending().len(),
    {
        self.sink.len()
    }

    /// Whether the output side has stopped.
    pub fn is_stopped(&self) -> (stopped: bool)
        ensures
            stopped == self.stopped(),
    {
        self.stopped
    }

    /// Records that the transport has failed. From now on no command is
    /// taken; what was waiting stays where it is and is never delivered.
    pub fn stop(&mut self)
        ensures
            final(self).stopped(),
            final(self).pending() == old(self).pending(),
    {
        self.stopped = true;
    }

    /// Applies one command. A write is kept back; a flush returns everything
    /// kept back so far, as one buffer for the transport, and empties the
    /// sink. Once the output side has stopped, every command is refused and
    /// nothing changes.
    pub fn apply(&mut self, command: &OutputCommand) -> (delivery: Result<
        Option<Vec<u8>>,
        SendError,
    >)
        ensures
            final(self).stopped() == old(self).stopped(),
            match delivery {
                Ok(Some(bytes)) => {
                    &&& !old(self).stopped()
                    &&& delivery_of(old(self).pending(), command@) == Some(bytes@)
                    &&& final(self).pending() == pending_after_one(old(self).pending(), command@)
                },
                Ok(None) => {
                    &&& !old(self).stopped()
                    &&& delivery_of(old(self).pending(), command@) is None
                    &&& final(self).pending() == pending_after_one(old(self).pending(), command@)
                },
                Err(_) => old(self).stopped() && final(self).pending() == old(self).pending(),
            },
    {
        if self.stopped {
            return Err(SendError);
        }
        match command {
            OutputCommand::Write(bytes) => {
                let ghost before = self.sink@;
                self.sink.extend_from_slice(bytes.as_slice());
                assert(self.sink@ =~= before + bytes@);
                Ok(None)
            },
            OutputCommand::Flush => {
                let mut out: Vec<u8> = Vec::new();
                core::mem::swap(&mut self.sink, &mut out);
                Ok(Some(out))
            },
        }
    }

    /// Applies the commands in order and returns what the transport is to
    /// receive, one buffer per flush. Once the output side has stopped, the
    /// commands are refused and nothing changes.
    pub fn drain(&mut self, commands: &[OutputCommand]) -> (out: Result<Vec<Vec<u8>>, SendError>)
        ensures
            final(self).stopped() == old(self).stopped(),
            match out {
                Ok(buffers) => {
                    &&& !old(self).stopped()
                    &&& final(self).pending() == pending_after(
                        old(self).pending(),
                        commands_of(commands@),
                    )
                    &&& buffers_of(buffers@) == deliveries(
                        old(self).pending(),
                        commands_of(commands@),
                    )
                },
                Err(_) => old(self).stopped() && final(self).pending() == old(self).pending(),
            },
    {
        if self.stopped {
            return Err(SendError);
        }
        let ghost start = self.pending();
        let ghost all = commands_of(commands@);
        let mut out: Vec<Vec<u8>> = Vec::new();
        let mut i: usize = 0;
        while i < commands.len()
            invariant
                i <= commands.len(),
                !self.stopped(),
                all == commands_of(commands@),
                self.pending() == pending_after(start, all.take(i as int)),
                buffers_of(out@) == deliveries(start, all.take(i as int)),
            decreases commands.len() - i,
        {
            let ghost done = buffers_of(out@);
            proof {
                assert(all.take(i + 1).drop_last() =~= all.take(i as int));
                assert(all.take(i + 1).last() == commands@[i as int]@);
            }
            match self.apply(&commands[i]) {
                Ok(Some(bytes)) => {
                    out.push(bytes);
                    assert(buffers_of(out@) =~= done.push(bytes@));
                },
                _ => {},
            }
            i += 1;
        }
        proof {
            assert(all.take(commands.len() as int) =~= all);
        }
        Ok(out)
    }
}

/// A line feed.
pub open spec fn lf() -> Seq<char> {
    seq!['\n']
}

/// A text with every line feed replaced by the line break of a raw
/// terminal.
pub open spec fn expanded(text: Seq<char>) -> Seq<char> {
    join(split(text, lf()), crlf())
}

/// The commands that print a text: its bytes are written, then flushed.
pub open spec fn print_of(text: Seq<char>) -> Seq<Command> {
    seq![Command::Write(encode_utf8(text)), Command::Flush]
}

/// What `String::from_utf8_lossy` makes of a byte string.
pub uninterp spec fn utf8_lossy(bytes: Seq<u8>) -> Seq<char>;

/// `String::from_utf8_lossy` of the standard library: the text that the
/// bytes encode, with a replacement character wherever they encode none.
/// Bytes that are valid UTF-8 come back as the text they encode.
#[verifier::external_body]
fn from_utf8_lossy(bytes: &[u8]) -> (text: String)
    ensures
        text@ == utf8_lossy(bytes@),
        valid_utf8(bytes@) ==> text@ == decode_utf8(bytes@),
{
    String::from_utf8_lossy(bytes).into_owned()
}

/// Replaces every line feed of a text by the line break of a raw terminal.
pub fn expand_newlines(text: &str) -> (out: String)
    ensures
        out@ == expanded(text@),
{
    proof {
        reveal_strlit("\n");
    }
    assert("\n"@ =~= lf());
    let lines = split_str(text, "\n");
    let ghost texts = strings_of(lines@);
    let mut out = String::new();
    let mut i: usize = 0;
    assert(join(texts.take(0), crlf()) =~= Seq::<char>::empty());
    while i < lines.len()
        invariant
            i <= lines.len(),
            texts == strings_of(lines@),
            out@ == join(texts.take(i as int), crlf()),
        decreases lines.len() - i,
    {
        if i > 0 {
            out.append(crlf_str());
        }
        out.append(lines[i].as_str());
        proof {
            let now = texts.take(i + 1);
            assert(now.drop_last() =~= texts.take(i as int));
            assert(now.last() == lines@[i as int]@);
            assert(out@ =~= join(now, crlf()));
        }
        i += 1;
    }
    assert(texts.take(lines.len() as int) =~= texts);
    out
}

/// The write command for bytes that a program printed with plain line
/// feeds: the bytes are read as text, line feeds become line breaks of a
/// raw terminal, and the text is written as UTF-8.
pub fn write_command(buf: &[u8]) -> (command: OutputCommand)
    ensures
        command@ == Command::Write(encode_utf8(expanded(utf8_lossy(buf@)))),
{
    let text = from_utf8_lossy(buf);
    let shown = expand_newlines(text.as_str());
    OutputCommand::Write(shown.as_str().as_bytes_vec())
}

/// The commands that print a text: its bytes are written, then flushed.
pub fn print_commands(text: &str) -> (commands: Vec<OutputCommand>)
    ensures
        commands_of(commands@) == print_of(text@),
{
    let mut commands: Vec<OutputCommand> = Vec::new();
    commands.push(OutputCommand::Write(text.as_bytes_vec()));
    commands.push(OutputCommand::Flush);
    assert(commands_of(commands@) =~= print_of(text@));
    commands
}

/// Printing a text delivers exactly its bytes, after whatever was waiting,
/// and leaves nothing waiting.
pub proof fn lemma_print_delivers(pending: Seq<u8>, text: Seq<char>)
    ensures
        deliveries(pending, print_of(text)) == seq![pending + encode_utf8(text)],
        pending_after(pending, print_of(text)) == Seq::<u8>::empty(),
{
    let commands = print_of(text);
    let first = commands.drop_last();
    assert(first =~= seq![Command::Write(encode_utf8(text))]);
    assert(first.drop_last() =~= Seq::<Command>::empty());
    assert(pending_after(pending, first.drop_last()) == pending);
    assert(pending_after(pending, first) == pending + encode_utf8(text));
    assert(deliveries(pending, first.drop_last()) =~= Seq::<Seq<u8>>::empty());
    assert(deliveries(pending, first) =~= Seq::<Seq<u8>>::empty());
    assert(deliveries(pending, commands) =~= seq![pending + encode_utf8(text)]);
}

} // verus!
