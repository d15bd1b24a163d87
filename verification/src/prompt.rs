//! A one-line prompt: the user types, corrects with backspace and commits
//! with Enter. A required prompt does not take an empty line.

use vstd::prelude::*;
use vstd::string::StringExecFns;
use vstd::utf8::{
    decode_utf8, encode_scalar, encode_utf8, encode_utf8_decode_utf8, encode_utf8_first_scalar,
    encode_utf8_valid_utf8, is_ascii_chars, is_ascii_chars_encode_utf8, is_continuation_byte,
    is_leading_byte_width_1, is_leading_byte_width_2, is_leading_byte_width_3,
    is_leading_byte_width_4, valid_utf8,
};
use crate::text::text_of_utf8;
use crate::ansi::{
    clear_current_line, clear_line_seq, closing, closing_line, column_seq, write_blinking,
    write_plain, DARK_GREY, DARK_RED, WHITE,
    alarming, dimmed, move_to_column, reset_bold, reset_bold_text,
};
use crate::terminal::{AsciiCode, TerminalCode};

verus! {

/// The mathematical value of a [`PromptState`].
pub struct Prompt {
    /// What the user has typed so far.
    pub entered_text: Seq<char>,
    /// What the line suggests while nothing is typed.
    pub default_text: Seq<char>,
    /// Whether an empty line is refused.
    pub required: bool,
    /// The bytes of a character that is not complete yet.
    pub pending: Seq<u8>,
    /// The suggestion as it is drawn.
    pub placeholder: Seq<char>,
    /// The notice that an entry is required, as it is drawn.
    pub warning: Seq<char>,
}

/// The mark at the beginning of the line.
pub open spec fn prompt_marker() -> Seq<char> {
    reset_bold_text(seq!['>', ' '])
}

/// The line drawn in place with `shown` on it. An empty line shows the
/// placeholder instead, with the cursor put back behind the mark.
pub open spec fn prompt_line(shown: Seq<char>, placeholder: Seq<char>) -> Seq<char> {
    clear_line_seq() + column_seq(0) + prompt_marker() + (if shown.len() > 0 {
        shown
    } else {
        placeholder + column_seq(2)
    })
}

/// The notice that a required line was left empty.
pub open spec fn required_notice() -> Seq<char> {
    "This field is required!"@
}

/// How many bytes the character has that begins with `b`, as its first byte
/// says; 0 when no character begins with `b`.
pub open spec fn width_of(b: u8) -> nat {
    if is_leading_byte_width_1(b) {
        1
    } else if is_leading_byte_width_2(b) {
        2
    } else if is_leading_byte_width_3(b) {
        3
    } else if is_leading_byte_width_4(b) {
        4
    } else {
        0
    }
}

impl Prompt {
    /// Whether Enter commits the line.
    pub open spec fn accepts(self) -> bool {
        !self.required || self.entered_text.len() > 0
    }

    /// The prompt after one more byte of text. Bytes are put together as
    /// UTF-8: as soon as the bytes that wait, with the new one, are the
    /// encoding of a character, that character is appended. A byte that
    /// continues a character which is not complete yet waits with the others.
    /// Where the new byte does not go on with what waits, the waiting bytes
    /// are dropped and the byte is taken by itself: as a character, as the
    /// beginning of one, or, where it is neither, not at all.
    pub open spec fn with_byte(self, b: u8) -> Prompt {
        let bytes = self.pending.push(b);
        if valid_utf8(bytes) {
            Prompt {
                entered_text: self.entered_text + decode_utf8(bytes),
                pending: Seq::empty(),
                ..self
            }
        } else if self.pending.len() > 0 && is_continuation_byte(b) && bytes.len() < width_of(
            self.pending[0],
        ) {
            Prompt { pending: bytes, ..self }
        } else if valid_utf8(seq![b]) {
            Prompt {
                entered_text: self.entered_text + decode_utf8(seq![b]),
                pending: Seq::empty(),
                ..self
            }
        } else if width_of(b) >= 2 {
            Prompt { pending: seq![b], ..self }
        } else {
            Prompt { pending: Seq::empty(), ..self }
        }
    }

    /// The prompt after several bytes of text, one after the other.
    pub open spec fn with_bytes(self, bytes: Seq<u8>) -> Prompt
        decreases bytes.len(),
    {
        if bytes.len() == 0 {
            self
        } else {
            self.with_bytes(bytes.drop_last()).with_byte(bytes.last())
        }
    }

    /// The prompt after a key other than Enter and Ctrl-C. A byte of text is
    /// put together with the bytes before it (see [`Prompt::with_byte`]).
    /// Any other key breaks off a character that is not complete; backspace
    /// also removes the last character, and every other key leaves the text
    /// as it is.
    pub open spec fn typed(self, code: Option<AsciiCode>) -> Prompt {
        match code {
            Some(AsciiCode::Backspace) => Prompt {
                entered_text: if self.entered_text.len() > 0 {
                    self.entered_text.drop_last()
                } else {
                    self.entered_text
                },
                pending: Seq::empty(),
                ..self
            },
            Some(AsciiCode::Char(b)) => self.with_byte(b),
            _ => Prompt { pending: Seq::empty(), ..self },
        }
    }

    /// The line as it is drawn.
    pub open spec fn line(self) -> Seq<char> {
        prompt_line(self.entered_text, self.placeholder)
    }

    /// The line as it is drawn when Enter was refused.
    pub open spec fn warning_line(self) -> Seq<char> {
        prompt_line(self.warning, self.placeholder)
    }

    /// What the keys enter: the text at the first Enter that commits, or
    /// nothing when Ctrl-C comes first or the keys run out.
    pub open spec fn entered(self, keys: Seq<Option<AsciiCode>>) -> Option<Seq<char>>
        decreases keys.len(),
    {
        if keys.len() == 0 {
            None
        } else {
            match keys[0] {
                Some(AsciiCode::EoT) => None,
                Some(AsciiCode::Enter) => if self.accepts() {
                    Some(self.entered_text)
                } else {
                    self.entered(keys.drop_first())
                },
                key => self.typed(key).entered(keys.drop_first()),
            }
        }
    }
}

/// The keys that type a text of ASCII bytes.
pub open spec fn keys_of(text: Seq<u8>) -> Seq<Option<AsciiCode>> {
    text.map_values(|b: u8| Some(AsciiCode::Char(b)))
}

/// The characters of a text of ASCII bytes.
pub open spec fn chars_of(text: Seq<u8>) -> Seq<char> {
    text.map_values(|b: u8| b as char)
}

/// A required prompt that is empty does not return on Enter, however often
/// Enter is pressed.
pub proof fn lemma_required_prompt_waits(p: Prompt, keys: Seq<Option<AsciiCode>>)
    requires
        p.required,
        p.entered_text.len() == 0,
        forall|i: int| 0 <= i < keys.len() ==> keys[i] == Some(AsciiCode::Enter),
    ensures
        p.entered(keys) is None,
    decreases keys.len(),
{
    if keys.len() > 0 {
        lemma_required_prompt_waits(p, keys.drop_first());
    }
}

/// A committed line of a required prompt is never empty.
pub proof fn lemma_required_entry_is_not_empty(p: Prompt, keys: Seq<Option<AsciiCode>>)
    requires
        p.required,
    ensures
        p.entered(keys) matches Some(text) ==> text.len() > 0,
    decreases keys.len(),
{
    if keys.len() > 0 {
        match keys[0] {
            Some(AsciiCode::EoT) => {},
            Some(AsciiCode::Enter) => {
                lemma_required_entry_is_not_empty(p, keys.drop_first());
            },
            key => {
                lemma_required_entry_is_not_empty(p.typed(key), keys.drop_first());
            },
        }
    }
}

/// The encoding of a character tells its length by its first byte, goes on
/// with continuation bytes, and is not valid before it is complete.
proof fn lemma_encoding_of_a_character(c: char)
    ensures
        ({
            let e = encode_utf8(seq![c]);
            &&& 1 <= e.len() <= 4
            &&& width_of(e[0]) == e.len()
            &&& forall|k: int| 1 <= k < e.len() ==> is_continuation_byte(#[trigger] e[k])
            &&& forall|k: int| 1 <= k < e.len() ==> !valid_utf8(#[trigger] e.take(k))
            &&& valid_utf8(e)
            &&& decode_utf8(e) == seq![c]
        }),
{
    let chars = seq![c];
    let e = encode_utf8(chars);
    assert(chars.drop_first() =~= Seq::<char>::empty());
    assert(encode_utf8(chars.drop_first()) =~= Seq::<u8>::empty());
    assert(e =~= encode_scalar(c as u32));
    encode_utf8_first_scalar(chars);
    encode_utf8_valid_utf8(chars);
    encode_utf8_decode_utf8(chars);
    assert forall|k: int| 1 <= k < e.len() implies !valid_utf8(#[trigger] e.take(k)) by {
        assert(e.take(k)[0] == e[0]);
    }
}

/// Typing the bytes of a character enters that character, when no byte of
/// another character was waiting.
pub proof fn lemma_typed_character_is_entered(p: Prompt, c: char)
    requires
        p.pending.len() == 0,
    ensures
        p.with_bytes(encode_utf8(seq![c])) == (Prompt {
            entered_text: p.entered_text.push(c),
            ..p
        }),
{
    let e = encode_utf8(seq![c]);
    lemma_encoding_of_a_character(c);
    lemma_waiting_bytes(p, e, e.len() - 1);
    let before = p.with_bytes(e.drop_last());
    assert(e.drop_last() =~= e.take(e.len() - 1));
    assert(before.pending.push(e.last()) =~= e);
    assert(p.entered_text + seq![c] =~= p.entered_text.push(c));
    assert(p.pending =~= Seq::<u8>::empty());
}

/// The first bytes of an encoding wait until the encoding is complete.
proof fn lemma_waiting_bytes(p: Prompt, e: Seq<u8>, k: int)
    requires
        p.pending.len() == 0,
        1 <= e.len() <= 4,
        width_of(e[0]) == e.len(),
        forall|j: int| 1 <= j < e.len() ==> is_continuation_byte(#[trigger] e[j]),
        forall|j: int| 1 <= j < e.len() ==> !valid_utf8(#[trigger] e.take(j)),
        0 <= k < e.len(),
    ensures
        p.with_bytes(e.take(k)) == (Prompt { pending: e.take(k), ..p }),
    decreases k,
{
    if k == 0 {
        assert(e.take(0) =~= p.pending);
    } else {
        lemma_waiting_bytes(p, e, k - 1);
        let before = p.with_bytes(e.take(k - 1));
        assert(e.take(k).drop_last() =~= e.take(k - 1));
        assert(e.take(k).last() == e[k - 1]);
        assert(before.pending.push(e[k - 1]) =~= e.take(k));
        if k == 1 {
            assert(seq![e[0]] =~= e.take(1));
        } else {
            assert(before.pending[0] == e[0]);
        }
    }
}

/// An ASCII byte is the encoding of one character, the character with the
/// number of the byte.
pub proof fn lemma_ascii_byte_is_a_character(b: u8)
    requires
        b < 128,
    ensures
        valid_utf8(seq![b]),
        decode_utf8(seq![b]) == seq![b as char],
{
    let c = seq![b as char];
    assert(is_ascii_chars(c));
    is_ascii_chars_encode_utf8(c);
    assert(c[0] as u8 == b);
    assert(encode_utf8(c) =~= seq![b]);
    encode_utf8_valid_utf8(c);
    encode_utf8_decode_utf8(c);
}

/// Typing an ASCII text and pressing Enter enters that text after what was
/// there before, when no byte of a character was waiting.
pub proof fn lemma_typed_text_is_entered(p: Prompt, text: Seq<u8>)
    requires
        forall|i: int| 0 <= i < text.len() ==> (#[trigger] text[i]) < 128,
        p.pending.len() == 0,
        !p.required || p.entered_text.len() + text.len() > 0,
    ensures
        p.entered(keys_of(text).push(Some(AsciiCode::Enter))) == Some(
            p.entered_text + chars_of(text),
        ),
    decreases text.len(),
{
    let keys = keys_of(text).push(Some(AsciiCode::Enter));
    if text.len() == 0 {
        assert(keys[0] == Some(AsciiCode::Enter));
        assert(p.entered_text + chars_of(text) =~= p.entered_text);
    } else {
        let next = p.typed(keys[0]);
        assert(keys[0] == Some(AsciiCode::Char(text[0])));
        lemma_ascii_byte_is_a_character(text[0]);
        assert(p.pending.push(text[0]) =~= seq![text[0]]);
        assert(next.entered_text =~= p.entered_text.push(text[0] as char));
        assert(next.pending.len() == 0);
        lemma_typed_text_is_entered(next, text.drop_first());
        assert(keys.drop_first() =~= keys_of(text.drop_first()).push(Some(AsciiCode::Enter)));
        assert(next.entered_text + chars_of(text.drop_first()) =~= p.entered_text + chars_of(
            text,
        ));
    }
}

/// What the session is to do after a key reached the prompt.
#[derive(Debug, PartialEq, Eq)]
pub enum PromptStep {
    /// Write this and wait for the next key.
    Redraw(String),
    /// The line is committed with the first text; write the second and go on.
    Entered(String, String),
    /// Ctrl-C: the session ends.
    Exit,
}

/// A line that is being typed.
#[derive(Debug)]
pub struct PromptState {
    entered_text: String,
    default_text: String,
    required: bool,
    pending: Vec<u8>,
    placeholder: String,
    warning: String,
}

impl View for PromptState {
    type V = Prompt;

    closed spec fn view(&self) -> Prompt {
        Prompt {
            entered_text: self.entered_text@,
            default_text: self.default_text@,
            required: self.required,
            pending: self.pending@,
            placeholder: self.placeholder@,
            warning: self.warning@,
        }
    }
}

/// How many bytes the character has that begins with `b`; 0 when none does.
fn width(b: u8) -> (n: usize)
    ensures
        n == width_of(b),
{
    if b <= 0x7f {
        1
    } else if 0xc0 <= b && b <= 0xdf {
        2
    } else if 0xe0 <= b && b <= 0xef {
        3
    } else if 0xf0 <= b && b <= 0xf7 {
        4
    } else {
        0
    }
}

/// The line drawn in place with `shown` on it.
fn draw_prompt(shown: &str, placeholder: &str) -> (out: String)
    ensures
        out@ == prompt_line(shown@, placeholder@),
{
    proof {
        reveal_strlit("> ");
    }
    assert("> "@ =~= seq!['>', ' ']);
    let mut out = clear_current_line();
    let home = move_to_column(0);
    let mark = reset_bold("> ");
    out.append(home.as_str());
    out.append(mark.as_str());
    if !shown.is_empty() {
        out.append(shown);
    } else {
        let back = move_to_column(2);
        out.append(placeholder);
        out.append(back.as_str());
    }
    assert(out@ =~= prompt_line(shown@, placeholder@));
    out
}

impl PromptState {
    /// An empty line that suggests `default_text`. The suggestion is drawn
    /// in dark grey, and the notice for a refused Enter as an alarm, white on
    /// dark red and blinking.
    pub fn new(default_text: &str, required: bool) -> (state: PromptState)
        ensures
            state@.entered_text == Seq::<char>::empty(),
            state@.default_text == default_text@,
            state@.required == required,
            state@.pending == Seq::<u8>::empty(),
            dimmed(state@.placeholder, default_text@),
            alarming(state@.warning, required_notice()),
    {
        PromptState {
            entered_text: String::new(),
            default_text: String::from_str(default_text),
            required,
            pending: Vec::new(),
            placeholder: write_plain(default_text, Some(DARK_GREY), None),
            warning: write_blinking("This field is required!", Some(WHITE), Some(DARK_RED)),
        }
    }

    /// What the user has typed so far.
    pub fn entered_text(&self) -> (text: &String)
        ensures
            text@ == self@.entered_text,
    {
        &self.entered_text
    }

    /// What the line suggests while nothing is typed.
    pub fn default_text(&self) -> (text: &String)
        ensures
            text@ == self@.default_text,
    {
        &self.default_text
    }

    /// Whether an empty line is refused.
    pub fn required(&self) -> (required: bool)
        ensures
            required == self@.required,
    {
        self.required
    }

    /// Takes one more byte of text; see [`Prompt::with_byte`].
    fn take_byte(&mut self, b: u8)
        ensures
            final(self)@ == old(self)@.with_byte(b),
    {
        let waiting: usize = self.pending.len();
        let goes_on = if waiting > 0 && 128 <= b && b <= 191 {
            let whole: usize = width(self.pending[0]);
            whole > waiting && whole - waiting > 1
        } else {
            false
        };
        self.pending.push(b);
        match text_of_utf8(self.pending.as_slice()) {
            Some(text) => {
                self.entered_text.append(text.as_str());
                self.pending = Vec::new();
            },
            None => {
                if !goes_on {
                    let mut single: Vec<u8> = Vec::new();
                    single.push(b);
                    assert(single@ =~= seq![b]);
                    match text_of_utf8(single.as_slice()) {
                        Some(text) => {
                            self.entered_text.append(text.as_str());
                            self.pending = Vec::new();
                        },
                        None => {
                            if width(b) >= 2 {
                                self.pending = single;
                            } else {
                                self.pending = Vec::new();
                            }
                        },
                    }
                }
            },
        }
    }

    /// What is to be written to draw the line in place.
    pub fn render(&self) -> (out: String)
        ensures
            out@ == self@.line(),
    {
        draw_prompt(self.entered_text.as_str(), self.placeholder.as_str())
    }

    /// Takes one key. Ctrl-C ends the session. Enter commits the line, unless
    /// the prompt is required and the line is empty: then the notice is
    /// drawn and the prompt goes on. Any other key is answered by drawing the
    /// line again, after the key has done its work on the text.
    pub fn handle(&mut self, code: &TerminalCode) -> (step: PromptStep)
        ensures
            match code@.code {
                Some(AsciiCode::EoT) => step is Exit && final(self)@ == old(self)@,
                Some(AsciiCode::Enter) => if old(self)@.accepts() {
                    &&& step matches PromptStep::Entered(text, out)
                    &&& text@ == old(self)@.entered_text
                    &&& out@ == closing()
                    &&& final(self)@ == old(self)@
                } else {
                    &&& step matches PromptStep::Redraw(out)
                    &&& out@ == old(self)@.warning_line()
                    &&& final(self)@ == old(self)@
                },
                _ => {
                    &&& step matches PromptStep::Redraw(out)
                    &&& final(self)@ == old(self)@.typed(code@.code)
                    &&& out@ == final(self)@.line()
                },
            },
    {
        match code.ascii_code {
            Some(AsciiCode::EoT) => {
                return PromptStep::Exit;
            },
            Some(AsciiCode::Enter) => {
                if !self.required || !self.entered_text.as_str().is_empty() {
                    return PromptStep::Entered(self.entered_text.clone(), closing_line());
                }
                return PromptStep::Redraw(
                    draw_prompt(self.warning.as_str(), self.placeholder.as_str()),
                );
            },
            Some(AsciiCode::Backspace) => {
                let _ = self.entered_text.pop();
                self.pending = Vec::new();
            },
            Some(AsciiCode::Char(b)) => {
                self.take_byte(b);
            },
            _ => {
                self.pending = Vec::new();
            },
        }
        PromptStep::Redraw(self.render())
    }
}

} // verus!
