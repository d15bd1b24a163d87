//! A block of background colour around one line of text.

use vstd::prelude::*;
use vstd::string::{StrSliceExecFns, StringExecFns};
use crate::ansi::{
    around, dressed, grounded, lemma_grounded_is_dressed, lemma_written_is_dressed, on_default, written,
    write_bold, write_plain, BOLD,
};
use crate::text::{
    crlf, crlf_str, free_of, lemma_framed_is_free, lemma_lines_of_rows, lemma_split_after_line,
    lemma_split_of_free, lemma_unbroken_is_free, push_repeated, push_spaces, repeated, spaces,
    split, unbroken,
};

verus! {

/// How a text is drawn: in a colour of the palette, or in the terminal's own
/// where none is given, and bold or not.
#[derive(Clone, Copy, Debug, PartialEq, Eq, Structural)]
pub struct TextStyle {
    pub foreground: Option<u8>,
    pub bold: bool,
}

/// The attribute of a style, if it has one.
pub open spec fn attribute_of(style: TextStyle) -> Option<nat> {
    if style.bold {
        Some(BOLD as nat)
    } else {
        None
    }
}

/// The pieces of a box, each as the terminal library displays it.
#[derive(Debug, PartialEq, Eq)]
pub struct BoxParts {
    /// The blank stretch to the left of the box.
    pub margin: String,
    /// A row of the box that holds no text.
    pub fill: String,
    /// The end of a row that holds no text.
    pub line_end: String,
    /// The blank stretch inside the box on either side of the text.
    pub pad: String,
    /// The text.
    pub body: String,
}

/// The mathematical value of [`BoxParts`].
pub struct BoxPieces {
    pub margin: Seq<char>,
    pub fill: Seq<char>,
    pub line_end: Seq<char>,
    pub pad: Seq<char>,
    pub body: Seq<char>,
}

impl View for BoxParts {
    type V = BoxPieces;

    open spec fn view(&self) -> BoxPieces {
        BoxPieces {
            margin: self.margin@,
            fill: self.fill@,
            line_end: self.line_end@,
            pad: self.pad@,
            body: self.body@,
        }
    }
}

/// A row of the box above or below the text.
pub open spec fn box_band(p: BoxPieces) -> Seq<char> {
    p.margin + p.fill + p.line_end
}

/// The box: `padding_y` rows without text, the row with the text between
/// its paddings, and `padding_y` rows without text again.
pub open spec fn box_text(p: BoxPieces, padding_y: nat) -> Seq<char> {
    repeated(box_band(p), padding_y) + p.margin + p.pad + p.body + p.pad + crlf() + repeated(
        box_band(p),
        padding_y,
    )
}

/// The pieces are those of a box around `text`: blank stretches of the
/// right widths and the text itself, each as the terminal library writes it.
/// The margin and the ends of the rows stand on the terminal's own
/// background; the rows without text and the paddings stand on the
/// background of the box, and so does the text, in its style.
pub open spec fn pieces_fit(
    p: BoxPieces,
    text: Seq<char>,
    style: TextStyle,
    background: u8,
    padding_x: nat,
    margin_x: nat,
) -> bool {
    &&& grounded(p.margin, spaces(margin_x))
    &&& written(
        p.fill,
        spaces(padding_x + text.len() + padding_x),
        None,
        Some(background),
        None,
    )
    &&& grounded(p.line_end, crlf())
    &&& written(p.pad, spaces(padding_x), None, Some(background), None)
    &&& written(p.body, text, style.foreground, Some(background), attribute_of(style))
}

/// A stretch that is dressed holds no line break if what it dresses holds
/// none, and holds neither a carriage return nor a line feed if what it
/// dresses is blank.
proof fn lemma_dressed_blank(out: Seq<char>, n: nat)
    requires
        dressed(out, spaces(n)),
    ensures
        unbroken(out),
{
    let (before, after) = choose|before: Seq<char>, after: Seq<char>|
        unbroken(before) && unbroken(after) && out == #[trigger] around(before, spaces(n), after);
    assert(unbroken(spaces(n)));
}

/// A box around a text without a line break has a line for every row: the
/// rows above the text, the row of the text and the rows below it, and
/// behind the last line break what ends the last row.
pub proof fn lemma_box_lines(
    p: BoxPieces,
    text: Seq<char>,
    style: TextStyle,
    background: u8,
    padding_y: nat,
    padding_x: nat,
    margin_x: nat,
)
    requires
        pieces_fit(p, text, style, background, padding_x, margin_x),
        free_of(text, crlf()),
    ensures
        split(box_text(p, padding_y), crlf()).len() == 2 * padding_y + 2,
{
    lemma_written_is_dressed(
        p.fill,
        spaces(padding_x + text.len() + padding_x),
        None,
        Some(background),
        None,
    );
    lemma_written_is_dressed(p.pad, spaces(padding_x), None, Some(background), None);
    lemma_written_is_dressed(
        p.body,
        text,
        style.foreground,
        Some(background),
        attribute_of(style),
    );
    lemma_grounded_is_dressed(p.margin, spaces(margin_x));
    lemma_grounded_is_dressed(p.line_end, crlf());
    lemma_dressed_box_lines(
        p,
        text,
        padding_y,
        margin_x,
        padding_x + text.len() + padding_x,
        padding_x,
    );
}

/// A box of dressed pieces around a text without a line break has a line
/// for every row.
proof fn lemma_dressed_box_lines(
    p: BoxPieces,
    text: Seq<char>,
    padding_y: nat,
    margin_x: nat,
    fill_x: nat,
    padding_x: nat,
)
    requires
        dressed(p.margin, spaces(margin_x)),
        dressed(p.fill, spaces(fill_x)),
        dressed(p.line_end, crlf()),
        dressed(p.pad, spaces(padding_x)),
        dressed(p.body, text),
        free_of(text, crlf()),
    ensures
        split(box_text(p, padding_y), crlf()).len() == 2 * padding_y + 2,
{
    lemma_dressed_blank(p.margin, margin_x);
    lemma_dressed_blank(p.fill, fill_x);
    lemma_dressed_blank(p.pad, padding_x);
    let (head, tail) = choose|before: Seq<char>, after: Seq<char>|
        unbroken(before) && unbroken(after) && p.line_end == #[trigger] around(
            before,
            crlf(),
            after,
        );
    let (front, back) = choose|before: Seq<char>, after: Seq<char>|
        unbroken(before) && unbroken(after) && p.body == #[trigger] around(before, text, after);
    let row = p.margin + p.fill + head;
    let band = row + crlf() + tail;
    assert(box_band(p) =~= band);
    let nothing = Seq::<char>::empty();
    let middle = p.margin + p.pad + p.body + p.pad;
    let below = middle + crlf() + repeated(band, padding_y);
    assert(box_text(p, padding_y) =~= nothing + repeated(band, padding_y) + below);
    lemma_lines_of_rows(nothing, row, tail, padding_y, below);
    let left = if padding_y == 0 {
        nothing
    } else {
        tail
    };
    let line = left + middle;
    assert(line =~= (left + p.margin + p.pad + front) + text + (back + p.pad));
    lemma_framed_is_free(left + p.margin + p.pad + front, text, back + p.pad);
    assert(left + below =~= line + crlf() + repeated(band, padding_y));
    lemma_split_after_line(line, repeated(band, padding_y));
    assert(repeated(band, padding_y) =~= nothing + repeated(band, padding_y) + nothing);
    lemma_lines_of_rows(nothing, row, tail, padding_y, nothing);
    assert(left + nothing =~= left);
    lemma_unbroken_is_free(left);
    lemma_split_of_free(left, crlf());
}

/// Puts the pieces of a box together.
pub fn assemble_box(parts: &BoxParts, padding_y: usize) -> (out: String)
    ensures
        out@ == box_text(parts@, padding_y as nat),
{
    let mut band = String::new();
    band.append(parts.margin.as_str());
    band.append(parts.fill.as_str());
    band.append(parts.line_end.as_str());
    assert(band@ =~= box_band(parts@));
    let mut out = String::new();
    push_repeated(&mut out, band.as_str(), padding_y);
    out.append(parts.margin.as_str());
    out.append(parts.pad.as_str());
    out.append(parts.body.as_str());
    out.append(parts.pad.as_str());
    out.append(crlf_str());
    push_repeated(&mut out, band.as_str(), padding_y);
    assert(out@ =~= box_text(parts@, padding_y as nat));
    out
}

/// The pieces of a box around `text`, written out by the terminal library:
/// the margin on the terminal's own background, everything else on
/// `background`, a colour of the palette, and the text in `style`. Widths
/// count characters.
pub fn box_parts(
    text: &str,
    style: TextStyle,
    background: u8,
    padding_x: usize,
    margin_x: usize,
) -> (parts: BoxParts)
    ensures
        pieces_fit(parts@, text@, style, background, padding_x as nat, margin_x as nat),
{
    let mut margin = String::new();
    push_spaces(&mut margin, margin_x);
    let mut pad = String::new();
    push_spaces(&mut pad, padding_x);
    let mut fill = String::new();
    push_spaces(&mut fill, padding_x);
    push_spaces(&mut fill, text.unicode_len());
    push_spaces(&mut fill, padding_x);
    assert(margin@ =~= spaces(margin_x as nat));
    assert(pad@ =~= spaces(padding_x as nat));
    assert(fill@ =~= spaces((padding_x + text@.len() + padding_x) as nat));
    let body = if style.bold {
        write_bold(text, style.foreground, Some(background))
    } else {
        write_plain(text, style.foreground, Some(background))
    };
    BoxParts {
        margin: on_default(margin.as_str()),
        fill: write_plain(fill.as_str(), None, Some(background)),
        line_end: on_default(crlf_str()),
        pad: write_plain(pad.as_str(), None, Some(background)),
        body,
    }
}

/// A block of background colour around one line of text: `padding_y` empty
/// rows above and below, `padding_x` blank columns on either side of the
/// text, and `margin_x` columns of margin to the left of every row.
///
/// Every colour sequence of the box has two forms, since the terminal
/// library writes it bare while colour is switched off. So the contract
/// states that there are pieces which fit the text, its style, the
/// background and the widths, each in one of its forms, and that the result
/// is the box made of them. For a text without a line break that is one line
/// for every row, and behind the last line break the sequence that ends the
/// last row.
pub fn text_box(
    text: &str,
    style: TextStyle,
    background: u8,
    padding_y: usize,
    padding_x: usize,
    margin_x: usize,
) -> (out: String)
    ensures
        exists|p: BoxPieces|
            pieces_fit(p, text@, style, background, padding_x as nat, margin_x as nat) && out@
                == box_text(p, padding_y as nat),
        free_of(text@, crlf()) ==> split(out@, crlf()).len() == 2 * padding_y + 2,
{
    let parts = box_parts(text, style, background, padding_x, margin_x);
    proof {
        if free_of(text@, crlf()) {
            lemma_box_lines(
                parts@,
                text@,
                style,
                background,
                padding_y as nat,
                padding_x as nat,
                margin_x as nat,
            );
        }
    }
    assemble_box(&parts, padding_y)
}

} // verus!
