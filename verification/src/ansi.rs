//! Control sequences and text attributes, as the terminal library writes
//! them.
//!
//! What a sequence looks like is decided by `crossterm`; the functions here
//! call it and state, without proof, what it writes for a terminal that
//! takes control sequences. A sequence that carries a colour is written
//! without its number while colour is switched off, in the environment or by
//! the program, so every such sequence has two forms.

use vstd::prelude::*;
use crossterm::Command;
use crossterm::cursor::{MoveToColumn, MoveUp};
use crossterm::style::{
    Attribute, Attributes, Color, ContentStyle, PrintStyledContent, Stylize,
};
use crossterm::terminal::{Clear, ClearType, DisableLineWrap, EnableLineWrap, SetTitle};
use crate::text::{crlf, crlf_str, unbroken};
use vstd::string::StringExecFns;

verus! {

/// The two characters that open a control sequence: ESC and `[`.
pub open spec fn csi() -> Seq<char> {
    seq!['\x1b', '[']
}

/// The character of a decimal digit.
pub open spec fn digit(d: nat) -> char {
    seq!['0', '1', '2', '3', '4', '5', '6', '7', '8', '9'][d as int]
}

/// A number in decimal notation, without leading zeros.
pub open spec fn decimal(n: nat) -> Seq<char>
    decreases n,
{
    if n < 10 {
        seq![digit(n)]
    } else {
        decimal(n / 10).push(digit(n % 10))
    }
}

/// The sequence that turns one attribute on.
pub open spec fn sgr(code: nat) -> Seq<char> {
    csi() + decimal(code) + seq!['m']
}

/// Erase the line the cursor is on.
pub open spec fn clear_line_seq() -> Seq<char> {
    csi() + seq!['2', 'K']
}

/// Erase from the cursor to the end of the screen.
pub open spec fn clear_down_seq() -> Seq<char> {
    csi() + seq!['J']
}

/// Put the cursor in a column of its row; column 0 is the leftmost.
pub open spec fn column_seq(column: nat) -> Seq<char> {
    csi() + decimal(column + 1) + seq!['G']
}

/// Move the cursor up by a number of rows.
pub open spec fn up_seq(rows: nat) -> Seq<char> {
    csi() + decimal(rows) + seq!['A']
}

/// Stop the terminal from wrapping long lines.
pub open spec fn wrap_off_seq() -> Seq<char> {
    csi() + seq!['?', '7', 'l']
}

/// Let the terminal wrap long lines again.
pub open spec fn wrap_on_seq() -> Seq<char> {
    csi() + seq!['?', '7', 'h']
}

/// Set the title of the terminal window.
pub open spec fn title_seq(title: Seq<char>) -> Seq<char> {
    seq!['\x1b', ']', '0', ';'] + title + seq!['\x07']
}

/// Text in bold: the attribute, the text, and a reset of all attributes.
pub open spec fn bold_text(text: Seq<char>) -> Seq<char> {
    sgr(1) + text + sgr(0)
}

/// Text after a reset of all attributes, followed by another reset.
pub open spec fn reset_text(text: Seq<char>) -> Seq<char> {
    sgr(0) + text + sgr(0)
}

/// Text in bold after a reset of all attributes, followed by another reset.
pub open spec fn reset_bold_text(text: Seq<char>) -> Seq<char> {
    sgr(0) + sgr(1) + text + sgr(0)
}

/// A colour sequence as it is written while colour is switched off: without
/// its number.
pub open spec fn bare() -> Seq<char> {
    csi() + seq!['m']
}

/// A colour sequence as it is written: in full, or bare where colour is
/// switched off at that moment.
pub open spec fn tint(full: Seq<char>, coloured: bool) -> Seq<char> {
    if coloured {
        full
    } else {
        bare()
    }
}

/// The sequence that sets the colour of the text to a colour of the palette.
pub open spec fn foreground(colour: nat) -> Seq<char> {
    csi() + seq!['3', '8', ';', '5', ';'] + decimal(colour) + seq!['m']
}

/// The sequence that sets the colour behind the text to a colour of the
/// palette.
pub open spec fn background(colour: nat) -> Seq<char> {
    csi() + seq!['4', '8', ';', '5', ';'] + decimal(colour) + seq!['m']
}

/// The sequence that gives the text the terminal's own colour again.
pub open spec fn foreground_reset() -> Seq<char> {
    csi() + seq!['3', '9', 'm']
}

/// The sequence that gives the text the terminal's own background again.
pub open spec fn background_reset() -> Seq<char> {
    csi() + seq!['4', '9', 'm']
}

/// Dark grey in the palette.
pub const DARK_GREY: u8 = 8;

/// Dark red in the palette.
pub const DARK_RED: u8 = 1;

/// Dark blue in the palette.
pub const DARK_BLUE: u8 = 4;

/// Dark magenta in the palette.
pub const DARK_MAGENTA: u8 = 5;

/// White in the palette.
pub const WHITE: u8 = 15;

/// The number of the attribute that makes text bold.
pub const BOLD: u8 = 1;

/// The number of the attribute that makes text blink slowly.
pub const BLINK: u8 = 5;

/// The sequences that set the colours of a text, the background first;
/// `a` and `b` say which of them are written in full.
pub open spec fn colours_set(
    foreground: Option<u8>,
    background: Option<u8>,
    a: bool,
    b: bool,
) -> Seq<char> {
    (match background {
        Some(colour) => tint(self::background(colour as nat), a),
        None => Seq::empty(),
    }) + (match foreground {
        Some(colour) => tint(self::foreground(colour as nat), b),
        None => Seq::empty(),
    })
}

/// The sequences that give the colours of a text back, the background
/// first; `c` and `d` say which of them are written in full.
pub open spec fn colours_given_back(
    foreground: Option<u8>,
    background: Option<u8>,
    c: bool,
    d: bool,
) -> Seq<char> {
    (match background {
        Some(_) => tint(background_reset(), c),
        None => Seq::empty(),
    }) + (match foreground {
        Some(_) => tint(foreground_reset(), d),
        None => Seq::empty(),
    })
}

/// A text as the terminal library writes it in colours of the palette and,
/// at most, one attribute. The colours are set, then the attribute; behind
/// the text a reset of all attributes follows where there is an attribute,
/// and else the sequences that give the colours back. The four switches say
/// which colour sequences are written in full.
pub open spec fn written_as(
    text: Seq<char>,
    foreground: Option<u8>,
    background: Option<u8>,
    attribute: Option<nat>,
    a: bool,
    b: bool,
    c: bool,
    d: bool,
) -> Seq<char> {
    colours_set(foreground, background, a, b) + (match attribute {
        Some(code) => sgr(code) + text + sgr(0),
        None => text + colours_given_back(foreground, background, c, d),
    })
}

/// `out` is `text` as the terminal library writes it in these colours and
/// with this attribute, each colour sequence in one of its two forms.
pub open spec fn written(
    out: Seq<char>,
    text: Seq<char>,
    foreground: Option<u8>,
    background: Option<u8>,
    attribute: Option<nat>,
) -> bool {
    exists|a: bool, b: bool, c: bool, d: bool|
        out == #[trigger] written_as(text, foreground, background, attribute, a, b, c, d)
}

/// `out` is `text` in dark grey.
pub open spec fn dimmed(out: Seq<char>, text: Seq<char>) -> bool {
    written(out, text, Some(DARK_GREY), None, None)
}

/// `out` is `text` on the terminal's own background: the background is given
/// back before the text and after it.
pub open spec fn grounded(out: Seq<char>, text: Seq<char>) -> bool {
    exists|a: bool, b: bool|
        out == #[trigger] tint(background_reset(), a) + text + #[trigger] tint(
            background_reset(),
            b,
        )
}

/// `out` is `text` as an alarm: white on dark red and slowly blinking.
pub open spec fn alarming(out: Seq<char>, text: Seq<char>) -> bool {
    written(out, text, Some(WHITE), Some(DARK_RED), Some(BLINK as nat))
}

/// `out` is `text` as a badge: white on dark magenta.
pub open spec fn badged(out: Seq<char>, text: Seq<char>) -> bool {
    written(out, text, Some(WHITE), Some(DARK_MAGENTA), None)
}

/// `out` is `text` as a banner of success: white and bold on dark blue.
pub open spec fn celebrating(out: Seq<char>, text: Seq<char>) -> bool {
    written(out, text, Some(WHITE), Some(DARK_BLUE), Some(BOLD as nat))
}

/// `out` is `text` between two stretches that the terminal library writes
/// to style it, neither of which holds a carriage return or a line feed.
pub open spec fn dressed(out: Seq<char>, text: Seq<char>) -> bool {
    exists|before: Seq<char>, after: Seq<char>|
        unbroken(before) && unbroken(after) && out == #[trigger] around(before, text, after)
}

/// A text with one stretch before it and one after it.
pub open spec fn around(before: Seq<char>, text: Seq<char>, after: Seq<char>) -> Seq<char> {
    before + text + after
}

/// A colour sequence holds neither a carriage return nor a line feed,
/// whether it is written in full or bare.
pub proof fn lemma_tint_is_unbroken(full: Seq<char>, coloured: bool)
    requires
        unbroken(full),
    ensures
        unbroken(tint(full, coloured)),
{
    assert(bare() =~= seq!['\x1b', '[', 'm']);
}

/// A text on the terminal's own background is dressed.
pub proof fn lemma_grounded_is_dressed(out: Seq<char>, text: Seq<char>)
    requires
        grounded(out, text),
    ensures
        dressed(out, text),
{
    let (a, b) = choose|a: bool, b: bool|
        out == #[trigger] tint(background_reset(), a) + text + #[trigger] tint(
            background_reset(),
            b,
        );
    assert(background_reset() =~= seq!['\x1b', '[', '4', '9', 'm']);
    lemma_tint_is_unbroken(background_reset(), a);
    lemma_tint_is_unbroken(background_reset(), b);
    lemma_dressing(out, tint(background_reset(), a), text, tint(background_reset(), b));
}

/// A number in decimal notation holds neither a carriage return nor a line
/// feed.
pub proof fn lemma_decimal_is_unbroken(n: nat)
    ensures
        unbroken(decimal(n)),
    decreases n,
{
    if n >= 10 {
        lemma_decimal_is_unbroken(n / 10);
    }
}

/// Two texts that hold neither a carriage return nor a line feed hold none
/// together.
pub proof fn lemma_unbroken_together(a: Seq<char>, b: Seq<char>)
    requires
        unbroken(a),
        unbroken(b),
    ensures
        unbroken(a + b),
{
    assert forall|i: int| 0 <= i < (a + b).len() implies (a + b)[i] != '\r' && (a + b)[i]
        != '\n' by {
        if i < a.len() {
            assert((a + b)[i] == a[i]);
        } else {
            assert((a + b)[i] == b[i - a.len()]);
        }
    }
}

/// The sequence that turns an attribute on holds neither a carriage return
/// nor a line feed.
pub proof fn lemma_sgr_is_unbroken(code: nat)
    ensures
        unbroken(sgr(code)),
{
    lemma_decimal_is_unbroken(code);
    assert(unbroken(csi())) by {
        assert(csi() =~= seq!['\x1b', '[']);
    }
    assert(unbroken(seq!['m']));
    lemma_unbroken_together(csi(), decimal(code));
    lemma_unbroken_together(csi() + decimal(code), seq!['m']);
}

/// The sequences that set a colour hold neither a carriage return nor a
/// line feed.
pub proof fn lemma_colour_is_unbroken(colour: nat)
    ensures
        unbroken(foreground(colour)),
        unbroken(background(colour)),
{
    lemma_decimal_is_unbroken(colour);
    let front = csi() + seq!['3', '8', ';', '5', ';'];
    let back = csi() + seq!['4', '8', ';', '5', ';'];
    assert(unbroken(front)) by {
        assert(front =~= seq!['\x1b', '[', '3', '8', ';', '5', ';']);
    }
    assert(unbroken(back)) by {
        assert(back =~= seq!['\x1b', '[', '4', '8', ';', '5', ';']);
    }
    assert(unbroken(seq!['m']));
    lemma_unbroken_together(front, decimal(colour));
    lemma_unbroken_together(front + decimal(colour), seq!['m']);
    lemma_unbroken_together(back, decimal(colour));
    lemma_unbroken_together(back + decimal(colour), seq!['m']);
}

/// The sequences that give a colour back hold neither a carriage return nor
/// a line feed.
pub proof fn lemma_resets_are_unbroken()
    ensures
        unbroken(foreground_reset()),
        unbroken(background_reset()),
        unbroken(Seq::<char>::empty()),
{
    assert(background_reset() =~= seq!['\x1b', '[', '4', '9', 'm']);
    assert(foreground_reset() =~= seq!['\x1b', '[', '3', '9', 'm']);
}

/// What sets the colours of a text and what gives them back holds neither a
/// carriage return nor a line feed.
pub proof fn lemma_colours_are_unbroken(
    foreground: Option<u8>,
    background: Option<u8>,
    a: bool,
    b: bool,
)
    ensures
        unbroken(colours_set(foreground, background, a, b)),
        unbroken(colours_given_back(foreground, background, a, b)),
{
    lemma_resets_are_unbroken();
    let nothing = Seq::<char>::empty();
    let set_back = match background {
        Some(colour) => tint(self::background(colour as nat), a),
        None => nothing,
    };
    let set_front = match foreground {
        Some(colour) => tint(self::foreground(colour as nat), b),
        None => nothing,
    };
    let give_back = match background {
        Some(_) => tint(background_reset(), a),
        None => nothing,
    };
    let give_front = match foreground {
        Some(_) => tint(foreground_reset(), b),
        None => nothing,
    };
    if background is Some {
        lemma_colour_is_unbroken(background->0 as nat);
        lemma_tint_is_unbroken(self::background(background->0 as nat), a);
        lemma_tint_is_unbroken(background_reset(), a);
    }
    if foreground is Some {
        lemma_colour_is_unbroken(foreground->0 as nat);
        lemma_tint_is_unbroken(self::foreground(foreground->0 as nat), b);
        lemma_tint_is_unbroken(foreground_reset(), b);
    }
    lemma_unbroken_together(set_back, set_front);
    lemma_unbroken_together(give_back, give_front);
}

/// A text that is written in colours is dressed, whichever form its colour
/// sequences have.
proof fn lemma_written_as_is_dressed(
    text: Seq<char>,
    foreground: Option<u8>,
    background: Option<u8>,
    attribute: Option<nat>,
    a: bool,
    b: bool,
    c: bool,
    d: bool,
)
    ensures
        dressed(written_as(text, foreground, background, attribute, a, b, c, d), text),
{
    let out = written_as(text, foreground, background, attribute, a, b, c, d);
    let front = colours_set(foreground, background, a, b);
    let back = colours_given_back(foreground, background, c, d);
    lemma_colours_are_unbroken(foreground, background, a, b);
    lemma_colours_are_unbroken(foreground, background, c, d);
    match attribute {
        Some(code) => {
            lemma_sgr_is_unbroken(code);
            lemma_sgr_is_unbroken(0);
            lemma_unbroken_together(front, sgr(code));
            assert(out == front + (sgr(code) + text + sgr(0)));
            lemma_dressing(out, front + sgr(code), text, sgr(0));
        },
        None => {
            assert(out == front + (text + back));
            lemma_dressing(out, front, text, back);
        },
    }
}

/// A text that is written in colours is dressed: what stands around it holds
/// neither a carriage return nor a line feed.
pub proof fn lemma_written_is_dressed(
    out: Seq<char>,
    text: Seq<char>,
    foreground: Option<u8>,
    background: Option<u8>,
    attribute: Option<nat>,
)
    requires
        written(out, text, foreground, background, attribute),
    ensures
        dressed(out, text),
{
    let (a, b, c, d) = choose|a: bool, b: bool, c: bool, d: bool|
        out == #[trigger] written_as(text, foreground, background, attribute, a, b, c, d);
    lemma_written_as_is_dressed(text, foreground, background, attribute, a, b, c, d);
}

/// A text between two stretches that hold neither a carriage return nor a
/// line feed is dressed.
pub proof fn lemma_dressing(out: Seq<char>, before: Seq<char>, text: Seq<char>, after: Seq<char>)
    requires
        unbroken(before),
        unbroken(after),
        out =~= before + text + after,
    ensures
        dressed(out, text),
{
    assert(out == around(before, text, after));
}

/// `Clear(ClearType::CurrentLine)` of crossterm, as it writes itself: ESC `[2K`.
#[verifier::external_body]
pub(crate) fn clear_current_line() -> (out: String)
    ensures
        out@ == clear_line_seq(),
{
    let mut out = String::new();
    let _ = Clear(ClearType::CurrentLine).write_ansi(&mut out);
    out
}

/// `Clear(ClearType::FromCursorDown)` of crossterm, as it writes itself: ESC `[J`.
#[verifier::external_body]
pub(crate) fn clear_from_cursor_down() -> (out: String)
    ensures
        out@ == clear_down_seq(),
{
    let mut out = String::new();
    let _ = Clear(ClearType::FromCursorDown).write_ansi(&mut out);
    out
}

/// `MoveToColumn` of crossterm, as it writes itself: ESC `[`, the column
/// counted from one, `G`. The largest column is left out: crossterm adds one
/// to it in sixteen bits.
#[verifier::external_body]
pub(crate) fn move_to_column(column: u16) -> (out: String)
    requires
        column < u16::MAX,
    ensures
        out@ == column_seq(column as nat),
{
    let mut out = String::new();
    let _ = MoveToColumn(column).write_ansi(&mut out);
    out
}

/// `MoveUp` of crossterm, as it writes itself: ESC `[`, the number of rows, `A`.
#[verifier::external_body]
pub(crate) fn move_up(rows: u16) -> (out: String)
    ensures
        out@ == up_seq(rows as nat),
{
    let mut out = String::new();
    let _ = MoveUp(rows).write_ansi(&mut out);
    out
}

/// `DisableLineWrap` of crossterm, as it writes itself: ESC `[?7l`.
#[verifier::external_body]
pub(crate) fn disable_line_wrap() -> (out: String)
    ensures
        out@ == wrap_off_seq(),
{
    let mut out = String::new();
    let _ = DisableLineWrap.write_ansi(&mut out);
    out
}

/// `EnableLineWrap` of crossterm, as it writes itself: ESC `[?7h`.
#[verifier::external_body]
pub(crate) fn enable_line_wrap() -> (out: String)
    ensures
        out@ == wrap_on_seq(),
{
    let mut out = String::new();
    let _ = EnableLineWrap.write_ansi(&mut out);
    out
}

/// `SetTitle` of crossterm, as it writes itself: ESC `]0;`, the title, BEL.
#[verifier::external_body]
pub(crate) fn set_title(title: &str) -> (out: String)
    ensures
        out@ == title_seq(title@),
{
    let mut out = String::new();
    let _ = SetTitle(title).write_ansi(&mut out);
    out
}


/// `Stylize::reset` of crossterm on a text, written out: a reset of all
/// attributes, the text, then another reset. No colour is involved.
#[verifier::external_body]
pub(crate) fn reset(text: &str) -> (out: String)
    ensures
        out@ == reset_text(text@),
{
    let mut out = String::new();
    let _ = PrintStyledContent(text.reset()).write_ansi(&mut out);
    out
}

/// `Stylize::reset` and `Stylize::bold` of crossterm on a text, written out:
/// crossterm writes the attributes in the order of its own list, reset
/// before bold, then the text, then a reset.
#[verifier::external_body]
pub(crate) fn reset_bold(text: &str) -> (out: String)
    ensures
        out@ == reset_bold_text(text@),
{
    let mut out = String::new();
    let _ = PrintStyledContent(text.reset().bold()).write_ansi(&mut out);
    out
}

/// A text in colours of the palette, as crossterm writes it out: a style
/// with `Color::AnsiValue` for each colour that is given and no attribute.
/// Crossterm sets the background, then the foreground, writes the text, and
/// gives the colours back in the same order. It asks for each of these
/// sequences whether colour is switched off, and writes it bare then.
#[verifier::external_body]
pub(crate) fn write_plain(text: &str, foreground: Option<u8>, background: Option<u8>) -> (out:
    String)
    ensures
        written(out@, text@, foreground, background, None),
{
    let style = ContentStyle {
        foreground_color: foreground.map(Color::AnsiValue),
        background_color: background.map(Color::AnsiValue),
        underline_color: None,
        attributes: Attributes::default(),
    };
    let mut out = String::new();
    let _ = PrintStyledContent(style.apply(text)).write_ansi(&mut out);
    out
}

/// A bold text in colours of the palette, as crossterm writes it out: the
/// background, the foreground, the bold attribute, the text, and a reset of
/// all attributes in place of the sequences that give the colours back. A
/// colour sequence is bare where colour is switched off.
#[verifier::external_body]
pub(crate) fn write_bold(text: &str, foreground: Option<u8>, background: Option<u8>) -> (out:
    String)
    ensures
        written(out@, text@, foreground, background, Some(BOLD as nat)),
{
    let style = ContentStyle {
        foreground_color: foreground.map(Color::AnsiValue),
        background_color: background.map(Color::AnsiValue),
        underline_color: None,
        attributes: Attributes::from(Attribute::Bold),
    };
    let mut out = String::new();
    let _ = PrintStyledContent(style.apply(text)).write_ansi(&mut out);
    out
}

/// A slowly blinking text in colours of the palette, as crossterm writes it
/// out: the background, the foreground, the attribute, the text, and a
/// reset of all attributes. A colour sequence is bare where colour is
/// switched off.
#[verifier::external_body]
pub(crate) fn write_blinking(text: &str, foreground: Option<u8>, background: Option<u8>) -> (out:
    String)
    ensures
        written(out@, text@, foreground, background, Some(BLINK as nat)),
{
    let style = ContentStyle {
        foreground_color: foreground.map(Color::AnsiValue),
        background_color: background.map(Color::AnsiValue),
        underline_color: None,
        attributes: Attributes::from(Attribute::SlowBlink),
    };
    let mut out = String::new();
    let _ = PrintStyledContent(style.apply(text)).write_ansi(&mut out);
    out
}

/// A text on the terminal's own background, written out by crossterm with
/// `Color::Reset` for the background: the sequence that gives the
/// background back, the text, and the same sequence again. Each of the two
/// is bare where colour is switched off.
#[verifier::external_body]
pub(crate) fn on_default(text: &str) -> (out: String)
    ensures
        grounded(out@, text@),
{
    let mut out = String::new();
    let _ = PrintStyledContent(text.on(Color::Reset)).write_ansi(&mut out);
    out
}

/// A text in bold, in the terminal's own colours.
pub fn bold(text: &str) -> (out: String)
    ensures
        out@ == bold_text(text@),
{
    let out = write_bold(text, None, None);
    proof {
        let (a, b, c, d) = choose|a: bool, b: bool, c: bool, d: bool|
            out@ == #[trigger] written_as(text@, None, None, Some(BOLD as nat), a, b, c, d);
        assert(out@ =~= bold_text(text@));
    }
    out
}

/// What ends a line of the dialogue: a reset of the attributes and a line
/// break.
pub open spec fn closing() -> Seq<char> {
    reset_text(Seq::empty()) + crlf()
}

/// What ends a line of the dialogue, ready to be written.
pub fn closing_line() -> (out: String)
    ensures
        out@ == closing(),
{
    proof {
        reveal_strlit("");
    }
    assert(""@ =~= Seq::<char>::empty());
    let mut out = reset("");
    out.append(crlf_str());
    out
}

} // verus!
