//! Input decoding: raw terminal bytes become discrete key events.

use vstd::prelude::*;
use vstd::slice::{slice_subrange, slice_to_vec};

verus! {

/// The meaning of one decoded unit of input.
#[derive(Clone, Copy, Debug, PartialEq, Eq, Structural)]
pub enum AsciiCode {
    /// A byte that is neither a control byte nor DEL.
    Char(u8),
    Backspace,
    Enter,
    ArrowDown,
    ArrowUp,
    /// Ctrl-C: the user asks to end the session.
    EoT,
}

/// One decoded unit of input, together with the bytes that produced it.
///
/// `ascii_code` is `None` for an escape sequence the decoder does not know.
#[derive(Clone, Debug, PartialEq, Eq)]
pub struct TerminalCode {
    pub ascii_code: Option<AsciiCode>,
    pub raw_bytes: Vec<u8>,
}

/// The mathematical value of a [`TerminalCode`].
pub struct InputEvent {
    pub code: Option<AsciiCode>,
    pub raw: Seq<u8>,
}

impl View for TerminalCode {
    type V = InputEvent;

    open spec fn view(&self) -> InputEvent {
        InputEvent { code: self.ascii_code, raw: self.raw_bytes@ }
    }
}

/// The events of a sequence of codes.
pub open spec fn events_of(codes: Seq<TerminalCode>) -> Seq<InputEvent> {
    codes.map_values(|c: TerminalCode| c@)
}

pub const ESC: u8 = 27;

pub const LEFT_BRACKET: u8 = 91;

/// An escape sequence starts at `i` when ESC is followed directly by `[`.
pub open spec fn starts_escape(data: Seq<u8>, i: int) -> bool {
    0 <= i && i + 1 < data.len() && data[i] == ESC && data[i + 1] == LEFT_BRACKET
}

/// A byte that ends an escape sequence: the final byte of the sequence, from
/// `@` to `~`, or a byte outside ASCII, which no sequence can hold.
pub open spec fn ends_escape(b: u8) -> bool {
    64 <= b <= 126 || b >= 128
}

/// Where the escape sequence whose parameters begin at `from` ends: just past
/// the first byte that ends it, or at the end of the data when no such byte
/// follows.
pub open spec fn escape_end(data: Seq<u8>, from: int) -> int
    decreases data.len() - from,
{
    if from >= data.len() {
        data.len() as int
    } else if ends_escape(data[from]) {
        from + 1
    } else {
        escape_end(data, from + 1)
    }
}

/// The meaning of the bytes that follow `ESC [`: their last byte decides.
pub open spec fn escape_code(params: Seq<u8>) -> Option<AsciiCode> {
    if params.len() > 0 && params.last() == 65 {
        Some(AsciiCode::ArrowUp)
    } else if params.len() > 0 && params.last() == 66 {
        Some(AsciiCode::ArrowDown)
    } else {
        None
    }
}

/// The meaning of a byte that stands outside an escape sequence; `None` for
/// the control bytes that are dropped.
pub open spec fn byte_code(b: u8) -> Option<AsciiCode> {
    if b == 127 || b == 8 {
        Some(AsciiCode::Backspace)
    } else if b == 3 {
        Some(AsciiCode::EoT)
    } else if b == 13 {
        Some(AsciiCode::Enter)
    } else if b < 32 {
        None
    } else {
        Some(AsciiCode::Char(b))
    }
}

/// The events of a single byte outside an escape sequence: one, or none for a
/// dropped control byte.
pub open spec fn byte_events(b: u8) -> Seq<InputEvent> {
    match byte_code(b) {
        Some(code) => seq![InputEvent { code: Some(code), raw: seq![b] }],
        None => Seq::empty(),
    }
}

/// The events of `data` from index `i` on.
pub open spec fn decode_from(data: Seq<u8>, i: int) -> Seq<InputEvent>
    decreases data.len() - i,
{
    if i < 0 || i >= data.len() {
        Seq::empty()
    } else if starts_escape(data, i) {
        let end = escape_end(data, i + 2);
        proof {
            lemma_escape_end_bounds(data, i + 2);
        }
        seq![
            InputEvent {
                code: escape_code(data.subrange(i + 2, end)),
                raw: data.subrange(i, end),
            },
        ] + decode_from(data, end)
    } else {
        byte_events(data[i]) + decode_from(data, i + 1)
    }
}

/// The events of a chunk of input, left to right.
pub open spec fn decode(data: Seq<u8>) -> Seq<InputEvent> {
    decode_from(data, 0)
}

/// An escape sequence ends after its first two bytes and inside the data.
pub proof fn lemma_escape_end_bounds(data: Seq<u8>, from: int)
    requires
        0 <= from <= data.len(),
    ensures
        from <= escape_end(data, from) <= data.len(),
        from < data.len() ==> from < escape_end(data, from),
    decreases data.len() - from,
{
    if from < data.len() && !ends_escape(data[from]) {
        lemma_escape_end_bounds(data, from + 1);
    }
}

/// Behind a text `a`, an escape sequence of `a + b` ends where it ends in
/// `b`.
proof fn lemma_escape_end_behind(a: Seq<u8>, b: Seq<u8>, k: int)
    requires
        0 <= k <= b.len(),
    ensures
        escape_end(a + b, a.len() + k) == a.len() + escape_end(b, k),
    decreases b.len() - k,
{
    if k < b.len() {
        assert((a + b)[a.len() + k] == b[k]);
        if !ends_escape(b[k]) {
            lemma_escape_end_behind(a, b, k + 1);
        }
    }
}

/// Behind a text `a`, the events of `a + b` are the events of `b`.
proof fn lemma_decode_behind(a: Seq<u8>, b: Seq<u8>, k: int)
    requires
        0 <= k <= b.len(),
    ensures
        decode_from(a + b, a.len() + k) == decode_from(b, k),
    decreases b.len() - k,
{
    let s = a + b;
    if k < b.len() {
        assert(s[a.len() + k] == b[k]);
        if k + 1 < b.len() {
            assert(s[a.len() + k + 1] == b[k + 1]);
        }
        assert(starts_escape(s, a.len() + k) == starts_escape(b, k));
        if starts_escape(b, k) {
            lemma_escape_end_behind(a, b, k + 2);
            lemma_escape_end_bounds(b, k + 2);
            let end = escape_end(b, k + 2);
            assert(s.subrange(a.len() + k + 2, a.len() + end) =~= b.subrange(k + 2, end));
            assert(s.subrange(a.len() + k, a.len() + end) =~= b.subrange(k, end));
            lemma_decode_behind(a, b, end);
        } else {
            lemma_decode_behind(a, b, k + 1);
        }
    }
}

/// The bytes of an arrow key: ESC, `[`, and `A` for up or `B` for down.
pub open spec fn arrow_bytes(up: bool) -> Seq<u8> {
    seq![ESC, LEFT_BRACKET, if up { 65u8 } else { 66u8 }]
}

/// The event of an arrow key.
pub open spec fn arrow_event(up: bool) -> InputEvent {
    InputEvent {
        code: Some(if up { AsciiCode::ArrowUp } else { AsciiCode::ArrowDown }),
        raw: arrow_bytes(up),
    }
}

/// An arrow key is decoded by itself, whatever follows it in the same chunk:
/// the events of the chunk are the arrow and then the events of the rest.
pub proof fn lemma_arrow_then_rest(up: bool, rest: Seq<u8>)
    ensures
        decode(arrow_bytes(up) + rest) == seq![arrow_event(up)] + decode(rest),
{
    let keys = arrow_bytes(up);
    let data = keys + rest;
    assert(starts_escape(data, 0));
    assert(ends_escape(data[2]));
    assert(escape_end(data, 2) == 3);
    assert(data.subrange(0, 3) =~= keys);
    assert(data.subrange(2, 3).last() == data[2]);
    lemma_decode_behind(keys, rest, 0);
}

/// A key that is a single byte is decoded by itself, whatever follows it in
/// the same chunk, unless the byte is ESC and `[` follows.
pub proof fn lemma_byte_then_rest(b: u8, rest: Seq<u8>)
    requires
        !(b == ESC && rest.len() > 0 && rest[0] == LEFT_BRACKET),
    ensures
        decode(seq![b] + rest) == byte_events(b) + decode(rest),
{
    let data = seq![b] + rest;
    if rest.len() > 0 {
        assert(data[1] == rest[0]);
    }
    assert(!starts_escape(data, 0));
    lemma_decode_behind(seq![b], rest, 0);
}

/// No escape sequence opens anywhere in `data`.
pub open spec fn escape_free(data: Seq<u8>) -> bool {
    forall|i: int| !starts_escape(data, i)
}

/// No byte of `data` is a control byte that the decoder drops.
pub open spec fn all_kept(data: Seq<u8>) -> bool {
    forall|i: int| 0 <= i < data.len() ==> (#[trigger] byte_code(data[i])) is Some
}

/// The event of a byte that is kept.
pub open spec fn event_of_byte(b: u8) -> InputEvent {
    InputEvent { code: byte_code(b), raw: seq![b] }
}

/// From any index on, an input without escape sequences and without
/// dropped bytes gives one event per byte.
proof fn lemma_decode_from_one_per_byte(data: Seq<u8>, i: int)
    requires
        escape_free(data),
        all_kept(data),
        0 <= i <= data.len(),
    ensures
        decode_from(data, i).len() == data.len() - i,
        forall|k: int|
            0 <= k < data.len() - i ==> (#[trigger] decode_from(data, i)[k]) == event_of_byte(
                data[i + k],
            ),
    decreases data.len() - i,
{
    if i < data.len() {
        assert(!starts_escape(data, i));
        assert(byte_code(data[i]) is Some);
        lemma_decode_from_one_per_byte(data, i + 1);
        let head = byte_events(data[i]);
        let tail = decode_from(data, i + 1);
        assert(head =~= seq![event_of_byte(data[i])]);
        assert forall|k: int| 0 <= k < data.len() - i implies (#[trigger] decode_from(data, i)[k])
            == event_of_byte(data[i + k]) by {
            if k > 0 {
                assert((head + tail)[k] == tail[k - 1]);
            }
        }
    }
}

/// The events of every byte of `data` by itself, one after the other.
pub open spec fn bytewise(data: Seq<u8>) -> Seq<InputEvent> {
    data.map_values(|b: u8| byte_events(b)).flatten()
}

/// From any index on, an input without escape sequences is decoded byte
/// by byte.
proof fn lemma_decode_from_is_bytewise(data: Seq<u8>, i: int)
    requires
        escape_free(data),
        0 <= i <= data.len(),
    ensures
        decode_from(data, i) == bytewise(data.skip(i)),
    decreases data.len() - i,
{
    let rest = data.skip(i).map_values(|b: u8| byte_events(b));
    if i < data.len() {
        assert(!starts_escape(data, i));
        lemma_decode_from_is_bytewise(data, i + 1);
        assert(rest.first() == byte_events(data[i]));
        assert(rest.drop_first() =~= data.skip(i + 1).map_values(|b: u8| byte_events(b)));
    } else {
        assert(rest.len() == 0);
    }
}

/// Outside escape sequences every byte is decoded by itself: where no
/// `ESC [` occurs, the events of the input are the events of its bytes, in
/// the order of the bytes.
pub proof fn lemma_decode_is_bytewise(data: Seq<u8>)
    requires
        escape_free(data),
    ensures
        decode(data) == bytewise(data),
{
    lemma_decode_from_is_bytewise(data, 0);
    assert(data.skip(0) =~= data);
}

/// Outside escape sequences decoding goes byte by byte: where no `ESC [`
/// occurs and no byte is a dropped control byte, every byte gives exactly one
/// event, in order, and that event records the byte.
pub proof fn lemma_decode_one_event_per_byte(data: Seq<u8>)
    requires
        escape_free(data),
        all_kept(data),
    ensures
        decode(data).len() == data.len(),
        forall|k: int|
            0 <= k < data.len() ==> (#[trigger] decode(data)[k]) == event_of_byte(data[k]),
{
    lemma_decode_from_one_per_byte(data, 0);
}

/// Outside escape sequences decoding loses nothing: two inputs without
/// `ESC [` and without dropped control bytes that decode to the same events
/// are the same bytes.
pub proof fn lemma_decode_injective(a: Seq<u8>, b: Seq<u8>)
    requires
        escape_free(a),
        all_kept(a),
        escape_free(b),
        all_kept(b),
        decode(a) == decode(b),
    ensures
        a == b,
{
    lemma_decode_one_event_per_byte(a);
    lemma_decode_one_event_per_byte(b);
    assert forall|k: int| 0 <= k < a.len() implies a[k] == b[k] by {
        assert(decode(a)[k] == event_of_byte(a[k]));
        assert(decode(b)[k] == event_of_byte(b[k]));
        assert(event_of_byte(a[k]).raw[0] == a[k]);
        assert(event_of_byte(b[k]).raw[0] == b[k]);
    }
    assert(a =~= b);
}

/// A dropped control byte leaves no trace: decoding is the same with and
/// without it, as long as no `ESC [` occurs in the input.
pub proof fn lemma_dropped_byte_is_silent(before: Seq<u8>, b: u8, after: Seq<u8>)
    requires
        escape_free(before + seq![b] + after),
        escape_free(before + after),
        byte_code(b) is None,
    ensures
        decode(before + seq![b] + after) == decode(before + after),
{
    lemma_decode_skip(before + seq![b] + after, before + after, before.len() as int, 0);
}

/// Two escape-free inputs that agree up to `cut` and whose remainders agree
/// after a shift of one dropped byte decode alike from `i` on.
proof fn lemma_decode_skip(long: Seq<u8>, short: Seq<u8>, cut: int, i: int)
    requires
        escape_free(long),
        escape_free(short),
        0 <= i <= cut < long.len(),
        long.len() == short.len() + 1,
        byte_code(long[cut]) is None,
        forall|k: int| 0 <= k < cut ==> long[k] == short[k],
        forall|k: int| cut <= k < short.len() ==> long[k + 1] == short[k],
    ensures
        decode_from(long, i) == decode_from(short, i),
    decreases cut - i,
{
    assert(!starts_escape(long, i));
    if i < cut {
        assert(!starts_escape(short, i));
        lemma_decode_skip(long, short, cut, i + 1);
    } else {
        assert(byte_events(long[cut]) =~= Seq::empty());
        lemma_decode_shift(long, short, cut + 1);
        assert(decode_from(long, cut) =~= decode_from(long, cut + 1));
    }
}

/// Two escape-free inputs of which one is the other moved by one byte
/// decode alike from the matching indices on.
proof fn lemma_decode_shift(long: Seq<u8>, short: Seq<u8>, j: int)
    requires
        escape_free(long),
        escape_free(short),
        1 <= j <= long.len(),
        long.len() == short.len() + 1,
        forall|k: int| j - 1 <= k < short.len() ==> long[k + 1] == short[k],
    ensures
        decode_from(long, j) == decode_from(short, j - 1),
    decreases long.len() - j,
{
    if j < long.len() {
        assert(!starts_escape(long, j));
        assert(!starts_escape(short, j - 1));
        assert(long[j] == short[j - 1]);
        lemma_decode_shift(long, short, j + 1);
    }
}

/// Decodes one chunk of raw input into key events, left to right.
///
/// `ESC [` opens an escape sequence, which ends with the first byte from `@`
/// to `~` after it; a byte outside ASCII ends it too, and so does the end of
/// the input. The last byte of the sequence decides: `A` is the arrow up, `B`
/// the arrow down, and anything else is unrecognised. What follows the
/// sequence is decoded by itself. DEL and Ctrl-H are backspace, Ctrl-C ends
/// the session, CR is enter, every other control byte is dropped, and every
/// other byte stands for itself.
pub fn channel_data_to_terminal_codes(data: &[u8]) -> (result: Vec<TerminalCode>)
    ensures
        events_of(result@) == decode(data@),
{
    let mut result: Vec<TerminalCode> = Vec::new();
    let mut i: usize = 0;
    while i < data.len()
        invariant
            i <= data.len(),
            events_of(result@) + decode_from(data@, i as int) == decode(data@),
        decreases data.len() - i,
    {
        let ghost before = events_of(result@);
        let b: u8 = data[i];
        if b == ESC && i + 1 < data.len() && data[i + 1] == LEFT_BRACKET {
            let start: usize = i;
            i += 2;
            while i < data.len() && (data[i] < 64 || data[i] == 127)
                invariant
                    start + 2 <= i <= data.len(),
                    escape_end(data@, i as int) == escape_end(data@, start + 2),
                decreases data.len() - i,
            {
                i += 1;
            }
            if i < data.len() {
                i += 1;
            }
            proof {
                lemma_escape_end_bounds(data@, start + 2);
            }
            assert(i as int == escape_end(data@, start + 2));
            let ascii_code = if i - start > 2 && data[i - 1] == 65 {
                Some(AsciiCode::ArrowUp)
            } else if i - start > 2 && data[i - 1] == 66 {
                Some(AsciiCode::ArrowDown)
            } else {
                None
            };
            assert(ascii_code == escape_code(data@.subrange(start + 2, i as int))) by {
                let params = data@.subrange(start + 2, i as int);
                if i - start > 2 {
                    assert(params.last() == data@[i - 1]);
                }
            }
            let raw_bytes = slice_to_vec(slice_subrange(data, start, i));
            result.push(TerminalCode { ascii_code, raw_bytes });
            assert(events_of(result@) =~= before.push(
                InputEvent {
                    code: escape_code(data@.subrange(start + 2, i as int)),
                    raw: data@.subrange(start as int, i as int),
                },
            ));
        } else {
            let code = if b == 127 || b == 8 {
                Some(AsciiCode::Backspace)
            } else if b == 3 {
                Some(AsciiCode::EoT)
            } else if b == 13 {
                Some(AsciiCode::Enter)
            } else if b < 32 {
                None
            } else {
                Some(AsciiCode::Char(b))
            };
            if code.is_some() {
                let mut raw_bytes: Vec<u8> = Vec::new();
                raw_bytes.push(b);
                result.push(TerminalCode { ascii_code: code, raw_bytes });
                assert(raw_bytes@ =~= seq![b]);
            }
            assert(events_of(result@) =~= before + byte_events(b));
            i += 1;
        }
    }
    result
}

} // verus!
