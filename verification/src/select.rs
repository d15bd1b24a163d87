//! A scrollable list from which one entry is chosen with the arrow keys.
//!
//! Every entry may run over several lines. The list is drawn in a viewport
//! that is as high as the terminal allows; the viewport scrolls by whole
//! lines, and only as far as it must to show the highlighted entry.

use vstd::prelude::*;
use crate::ansi::{
    bold, bold_text, clear_down_seq, clear_from_cursor_down, closing, closing_line, column_seq,
    disable_line_wrap, enable_line_wrap, move_to_column, move_up, reset, reset_text, up_seq,
    wrap_off_seq, wrap_on_seq,
};
use crate::terminal::{AsciiCode, TerminalCode};
use crate::text::{
    all_free_of, crlf, crlf_str, free_of, join, lemma_framed_is_free,
    lemma_split_join, lemma_split_pieces_hold_no_separator, split, split_str, strings_of,
    unbroken,
};
use vstd::string::StringExecFns;

verus! {

/// The number of lines an entry takes.
pub open spec fn line_count(option: Seq<char>) -> nat {
    split(option, crlf()).len()
}

/// The number of lines that the entries before entry `i` take: the line on
/// which entry `i` begins.
pub open spec fn lines_before(options: Seq<Seq<char>>, i: int) -> nat
    decreases i,
{
    if i <= 0 {
        0
    } else {
        lines_before(options, i - 1) + line_count(options[i - 1])
    }
}

/// The number of lines that all entries take together.
pub open spec fn total_lines(options: Seq<Seq<char>>) -> nat {
    lines_before(options, options.len() as int)
}

/// The height of the viewport: all lines, or as many as the terminal has rows.
pub open spec fn viewport(total: nat, terminal_rows: nat) -> nat {
    if total <= terminal_rows {
        total
    } else {
        terminal_rows
    }
}

/// The first visible line after the viewport has followed the highlighted
/// entry, which takes `count` lines from line `first` on. Where the entry
/// reaches the bottom of the viewport or beyond, its last line becomes the
/// last visible line; else, where it begins above the viewport, its first
/// line becomes the first visible line; else nothing moves.
pub open spec fn scrolled(scroll: nat, first: nat, count: nat, rows: nat) -> nat {
    if first + count >= scroll + rows {
        (first + count - rows) as nat
    } else if first < scroll {
        first
    } else {
        scroll
    }
}

/// The entry that is highlighted after a key.
pub open spec fn moved(selected: nat, len: nat, code: Option<AsciiCode>) -> nat {
    match code {
        Some(AsciiCode::ArrowUp) => if selected > 0 {
            (selected - 1) as nat
        } else {
            0
        },
        Some(AsciiCode::ArrowDown) => if selected + 1 < len {
            selected + 1
        } else {
            selected
        },
        _ => selected,
    }
}

/// The mathematical value of a [`SelectState`].
pub struct Selection {
    pub options: Seq<Seq<char>>,
    pub selected_index: nat,
    pub scroll_offset: nat,
    pub viewport_rows: nat,
}

impl Selection {
    /// There is an entry to choose, the highlighted entry exists, the
    /// viewport lies within the lines of the list, and the highlighted entry
    /// does not begin below the viewport.
    pub open spec fn wf(self) -> bool {
        &&& self.options.len() > 0
        &&& self.selected_index < self.options.len()
        &&& self.viewport_rows <= total_lines(self.options)
        &&& self.scroll_offset + self.viewport_rows <= total_lines(self.options)
        &&& self.viewport_rows > 0 ==> lines_before(self.options, self.selected_index as int)
            < self.scroll_offset + self.viewport_rows
    }

    /// The selection after a key other than Enter and Ctrl-C: the highlight
    /// moves with the arrows and the viewport follows it.
    pub open spec fn after(self, code: Option<AsciiCode>) -> Selection {
        let selected = moved(self.selected_index, self.options.len(), code);
        Selection {
            selected_index: selected,
            scroll_offset: scrolled(
                self.scroll_offset,
                lines_before(self.options, selected as int),
                line_count(self.options[selected as int]),
                self.viewport_rows,
            ),
            ..self
        }
    }

    /// The lines of the whole list as they are drawn.
    pub open spec fn drawn_lines(self) -> Seq<Seq<char>> {
        list_lines(self.options, self.selected_index as int, self.options.len() as int)
    }

    /// The lines inside the viewport.
    pub open spec fn visible_lines(self) -> Seq<Seq<char>> {
        self.drawn_lines().subrange(
            self.scroll_offset as int,
            (self.scroll_offset + self.viewport_rows) as int,
        )
    }

    /// What is written to draw the list. The first drawing goes downward
    /// from the cursor; every later one first returns to the top line of the
    /// viewport and erases what was drawn before.
    pub open spec fn frame(self, first_time: bool) -> Seq<char> {
        wrap_off_seq() + (if first_time {
            Seq::empty()
        } else {
            rewind(self.viewport_rows)
        }) + join(self.visible_lines(), crlf()) + column_seq(1) + wrap_on_seq()
    }
}

/// The mark in front of every entry.
pub open spec fn marker() -> Seq<char> {
    bold_text(seq!['>', ' '])
}

/// One line of an entry as it is drawn: the mark on the entry's first line,
/// then the text, bold where the entry is highlighted.
pub open spec fn drawn_line(line: Seq<char>, leads: bool, highlighted: bool) -> Seq<char> {
    (if leads {
        marker()
    } else {
        Seq::empty()
    }) + (if highlighted {
        bold_text(line)
    } else {
        reset_text(line)
    })
}

/// The lines of one entry as they are drawn.
pub open spec fn entry_lines(option: Seq<char>, highlighted: bool) -> Seq<Seq<char>> {
    Seq::new(
        line_count(option),
        |k: int| drawn_line(split(option, crlf())[k], k == 0, highlighted),
    )
}

/// The drawn lines of the first `upto` entries.
pub open spec fn list_lines(options: Seq<Seq<char>>, selected: int, upto: int) -> Seq<Seq<char>>
    decreases upto,
{
    if upto <= 0 {
        Seq::empty()
    } else {
        list_lines(options, selected, upto - 1) + entry_lines(
            options[upto - 1],
            selected == upto - 1,
        )
    }
}

/// The largest number of rows that one cursor movement can take.
pub const MAX_MOVE: usize = 65535;

/// Moving the cursor up by `rows` rows, in as many movements as it takes.
pub open spec fn up_by(rows: nat) -> Seq<char>
    decreases rows,
{
    if rows == 0 {
        Seq::empty()
    } else if rows <= MAX_MOVE {
        up_seq(rows)
    } else {
        up_seq(MAX_MOVE as nat) + up_by((rows - MAX_MOVE) as nat)
    }
}

/// What is written before a list is drawn again: attributes are reset, the
/// cursor returns to the first column of the top line of the viewport, and
/// the screen is erased from there on.
pub open spec fn rewind(viewport_rows: nat) -> Seq<char> {
    reset_text(Seq::empty()) + column_seq(0) + up_by(
        if viewport_rows > 0 {
            (viewport_rows - 1) as nat
        } else {
            0
        },
    ) + clear_down_seq()
}

/// A drawn line holds no line break: what is drawn around the text of a
/// line holds neither a carriage return nor a line feed.
pub proof fn lemma_drawn_line_is_free(line: Seq<char>, leads: bool, highlighted: bool)
    requires
        free_of(line, crlf()),
    ensures
        free_of(drawn_line(line, leads, highlighted), crlf()),
{
    let on = if highlighted {
        crate::ansi::sgr(1)
    } else {
        crate::ansi::sgr(0)
    };
    let off = crate::ansi::sgr(0);
    let front = (if leads {
        marker()
    } else {
        Seq::empty()
    }) + on;
    assert(crate::ansi::decimal(0) =~= seq!['0']);
    assert(crate::ansi::decimal(1) =~= seq!['1']);
    assert(crate::ansi::sgr(0) =~= seq!['\x1b', '[', '0', 'm']);
    assert(crate::ansi::sgr(1) =~= seq!['\x1b', '[', '1', 'm']);
    assert(marker() =~= seq!['\x1b', '[', '1', 'm', '>', ' ', '\x1b', '[', '0', 'm']);
    assert(unbroken(off));
    assert(unbroken(front));
    lemma_framed_is_free(front, line, off);
    assert(drawn_line(line, leads, highlighted) =~= front + line + off);
}

/// No drawn line of the list holds a line break.
pub proof fn lemma_list_lines_are_free(options: Seq<Seq<char>>, selected: int, upto: int)
    requires
        0 <= upto <= options.len(),
    ensures
        all_free_of(list_lines(options, selected, upto), crlf()),
    decreases upto,
{
    if upto > 0 {
        lemma_list_lines_are_free(options, selected, upto - 1);
        let earlier = list_lines(options, selected, upto - 1);
        let entry = entry_lines(options[upto - 1], selected == upto - 1);
        let all = list_lines(options, selected, upto);
        assert forall|k: int| 0 <= k < all.len() implies free_of(#[trigger] all[k], crlf()) by {
            if k < earlier.len() {
                assert(all[k] == earlier[k]);
            } else {
                let j = k - earlier.len();
                assert(all[k] == entry[j]);
                lemma_split_pieces_hold_no_separator(options[upto - 1], crlf(), 0, j);
                lemma_drawn_line_is_free(
                    split(options[upto - 1], crlf())[j],
                    j == 0,
                    selected == upto - 1,
                );
            }
        }
    }
}

/// What is drawn has as many lines as the viewport has rows, and they are
/// the visible lines: taken apart at its line breaks, the drawn text falls
/// into the lines of the viewport again.
pub proof fn lemma_frame_fills_the_viewport(s: Selection)
    requires
        s.wf(),
        s.viewport_rows > 0,
    ensures
        split(join(s.visible_lines(), crlf()), crlf()) == s.visible_lines(),
        s.visible_lines().len() == s.viewport_rows,
{
    let n = s.options.len() as int;
    lemma_list_lines_len(s.options, s.selected_index as int, n);
    lemma_list_lines_are_free(s.options, s.selected_index as int, n);
    let all = s.drawn_lines();
    let visible = s.visible_lines();
    assert forall|k: int| 0 <= k < visible.len() implies free_of(#[trigger] visible[k], crlf()) by {
        assert(visible[k] == all[s.scroll_offset + k]);
    }
    lemma_split_join(visible);
}

/// The drawn list has one line for every line of every entry.
pub proof fn lemma_list_lines_len(options: Seq<Seq<char>>, selected: int, upto: int)
    ensures
        list_lines(options, selected, upto).len() == lines_before(options, upto),
    decreases upto,
{
    if upto > 0 {
        lemma_list_lines_len(options, selected, upto - 1);
    }
}

/// Entries begin in order: a later entry begins at or after the end of an
/// earlier one.
pub proof fn lemma_lines_before_monotonic(options: Seq<Seq<char>>, i: int, j: int)
    requires
        0 <= i <= j,
    ensures
        lines_before(options, i) <= lines_before(options, j),
    decreases j - i,
{
    if i < j {
        lemma_lines_before_monotonic(options, i, j - 1);
    }
}

/// The viewport stays within the list when it follows an entry of the list.
pub proof fn lemma_scrolled_stays_inside(s: Selection, selected: int)
    requires
        s.wf(),
        0 <= selected < s.options.len(),
    ensures
        scrolled(
            s.scroll_offset,
            lines_before(s.options, selected),
            line_count(s.options[selected]),
            s.viewport_rows,
        ) + s.viewport_rows <= total_lines(s.options),
{
    lemma_lines_before_monotonic(s.options, selected + 1, s.options.len() as int);
}

/// An entry that fits into the viewport is wholly visible once the viewport
/// has followed it: no line of it lies above the first visible line or below
/// the last.
pub proof fn lemma_highlighted_entry_is_visible(scroll: nat, first: nat, count: nat, rows: nat)
    requires
        count <= rows,
    ensures
        scrolled(scroll, first, count, rows) <= first,
        first + count <= scrolled(scroll, first, count, rows) + rows,
{
}

/// The viewport moves no further than it must: every position that shows the
/// whole entry is at least as far from where the viewport was.
pub proof fn lemma_scroll_is_minimal(scroll: nat, first: nat, count: nat, rows: nat, other: nat)
    requires
        count <= rows,
        other <= first,
        first + count <= other + rows,
    ensures
        ({
            let new = scrolled(scroll, first, count, rows);
            if new >= scroll {
                new - scroll <= (if other >= scroll {
                    other - scroll
                } else {
                    scroll - other
                })
            } else {
                scroll - new <= (if other >= scroll {
                    other - scroll
                } else {
                    scroll - other
                })
            }
        }),
{
}

/// A viewport that has followed an entry stays where it is when it is told
/// to follow the same entry again, as long as the entry fits into it: keys
/// that do not move the highlight leave the list as it is.
pub proof fn lemma_settled_viewport_stays(scroll: nat, first: nat, count: nat, rows: nat)
    requires
        count <= rows,
    ensures
        scrolled(scrolled(scroll, first, count, rows), first, count, rows) == scrolled(
            scroll,
            first,
            count,
            rows,
        ),
{
}

/// With the last entry highlighted the viewport ends on the last line of the
/// list: nothing past the end is shown, and the last visible line is the last
/// line of the last entry.
pub proof fn lemma_last_entry_shows_the_end(s: Selection, code: Option<AsciiCode>)
    requires
        s.wf(),
        s.after(code).selected_index == s.options.len() - 1,
    ensures
        s.after(code).scroll_offset + s.viewport_rows == total_lines(s.options),
        s.viewport_rows > 0 ==> s.after(code).visible_lines().last() == entry_lines(
            s.options.last(),
            true,
        ).last(),
{
    let t = s.after(code);
    let n = s.options.len() as int;
    assert(lines_before(s.options, n) == lines_before(s.options, n - 1) + line_count(
        s.options[n - 1],
    ));
    if s.viewport_rows > 0 {
        lemma_list_lines_len(s.options, n - 1, n);
        lemma_list_lines_len(s.options, n - 1, n - 1);
        crate::text::lemma_split_nonempty(s.options[n - 1], crlf(), 0);
        let all = t.drawn_lines();
        let tail = entry_lines(s.options[n - 1], true);
        assert(all == list_lines(s.options, n - 1, n - 1) + tail);
        assert(t.visible_lines().last() == all[all.len() - 1]);
        assert(all[all.len() - 1] == tail[tail.len() - 1]);
    }
}

/// When the highlight comes back to the first entry, the viewport begins on
/// the first line of the list, if the viewport has a row at all. The same
/// holds of any key that leaves the highlight on the first entry, as long as
/// that entry is no higher than the viewport.
pub proof fn lemma_first_entry_scrolls_to_top(s: Selection, code: Option<AsciiCode>)
    requires
        s.wf(),
        s.after(code).selected_index == 0,
        (s.selected_index > 0 && s.viewport_rows > 0) || line_count(s.options[0])
            <= s.viewport_rows,
    ensures
        s.after(code).scroll_offset == 0,
{
    assert(lines_before(s.options, 0) == 0);
    if s.selected_index > 0 && s.viewport_rows > 0 {
        assert(s.selected_index == 1);
        assert(lines_before(s.options, 1) == line_count(s.options[0]));
    }
}

/// A well-formed list stays well formed under every key.
pub proof fn lemma_after_is_wf(s: Selection, code: Option<AsciiCode>)
    requires
        s.wf(),
    ensures
        s.after(code).wf(),
{
    let selected = s.after(code).selected_index as int;
    lemma_lines_before_monotonic(s.options, selected + 1, s.options.len() as int);
    assert(lines_before(s.options, selected + 1) == lines_before(s.options, selected)
        + line_count(s.options[selected]));
    crate::text::lemma_split_nonempty(s.options[selected], crlf(), 0);
}

/// What the session is to do after a key reached the list.
#[derive(Debug, PartialEq, Eq)]
pub enum SelectStep {
    /// Write this and wait for the next key.
    Redraw(String),
    /// The entry with this index is chosen; write this and go on.
    Chosen(usize, String),
    /// Ctrl-C: the session ends.
    Exit,
}

/// A list with one entry highlighted, and the part of it that is in view.
#[derive(Debug)]
pub struct SelectState {
    options: Vec<String>,
    /// The line on which each entry begins, and after the last entry the
    /// number of all lines.
    starts: Vec<usize>,
    selected_index: usize,
    scroll_offset: usize,
    viewport_rows: usize,
}

impl View for SelectState {
    type V = Selection;

    closed spec fn view(&self) -> Selection {
        Selection {
            options: strings_of(self.options@),
            selected_index: self.selected_index as nat,
            scroll_offset: self.scroll_offset as nat,
            viewport_rows: self.viewport_rows as nat,
        }
    }
}

/// Appends to `out` what moves the cursor up by `rows` rows.
fn push_move_up(out: &mut String, rows: usize)
    ensures
        final(out)@ == old(out)@ + up_by(rows as nat),
{
    let mut left: usize = rows;
    while left > MAX_MOVE
        invariant
            out@ + up_by(left as nat) == old(out)@ + up_by(rows as nat),
        decreases left,
    {
        let ghost before = out@;
        let step = move_up(65535);
        out.append(step.as_str());
        assert(before + up_by(left as nat) =~= out@ + up_by((left - MAX_MOVE) as nat));
        left -= MAX_MOVE;
    }
    if left > 0 {
        let ghost before = out@;
        let step = move_up(left as u16);
        out.append(step.as_str());
    } else {
        assert(out@ + up_by(0) =~= out@);
    }
}

/// One line of an entry as it is drawn.
fn draw_line(line: &str, leads: bool, highlighted: bool) -> (out: String)
    ensures
        out@ == drawn_line(line@, leads, highlighted),
{
    let mut out = String::new();
    if leads {
        proof {
            reveal_strlit("> ");
        }
        assert("> "@ =~= seq!['>', ' ']);
        let mark = bold("> ");
        out.append(mark.as_str());
    }
    let body = if highlighted {
        bold(line)
    } else {
        reset(line)
    };
    out.append(body.as_str());
    assert(out@ =~= drawn_line(line@, leads, highlighted));
    out
}

impl SelectState {
    /// The state is well formed: its value is (see [`Selection::wf`]), and
    /// what it keeps about the lines of the entries is right.
    pub closed spec fn wf(&self) -> bool {
        &&& self@.wf()
        &&& self.starts@.len() == self.options@.len() + 1
        &&& forall|i: int|
            0 <= i <= self.options@.len() ==> #[trigger] self.starts@[i] == lines_before(
                strings_of(self.options@),
                i,
            )
    }

    /// A well-formed state has a well-formed value.
    pub proof fn lemma_wf(&self)
        requires
            self.wf(),
        ensures
            self@.wf(),
    {
    }

    /// A list with its first entry highlighted, in a viewport as high as the
    /// list or as the terminal, whichever is less.
    ///
    /// There is no such list without entries, nor when the lines of all
    /// entries cannot be counted in a `usize`.
    pub fn new(options: Vec<String>, terminal_rows: u32) -> (state: Option<SelectState>)
        ensures
            match state {
                Some(s) => {
                    &&& options@.len() > 0
                    &&& total_lines(strings_of(options@)) <= usize::MAX
                    &&& s.wf()
                    &&& s@.options == strings_of(options@)
                    &&& s@.selected_index == 0
                    &&& s@.viewport_rows == viewport(
                        total_lines(strings_of(options@)),
                        terminal_rows as nat,
                    )
                    &&& s@.scroll_offset == scrolled(
                        0,
                        0,
                        line_count(options@[0]@),
                        s@.viewport_rows,
                    )
                },
                None => options@.len() == 0 || total_lines(strings_of(options@)) > usize::MAX,
            },
    {
        if options.len() == 0 {
            return None;
        }
        let ghost texts = strings_of(options@);
        let mut starts: Vec<usize> = Vec::new();
        starts.push(0);
        let mut total: usize = 0;
        let mut i: usize = 0;
        while i < options.len()
            invariant
                i <= options.len(),
                texts == strings_of(options@),
                total == lines_before(texts, i as int),
                starts@.len() == i + 1,
                forall|k: int| 0 <= k <= i ==> #[trigger] starts@[k] == lines_before(texts, k),
            decreases options.len() - i,
        {
            let lines = split_str(options[i].as_str(), crlf_str());
            let count: usize = lines.len();
            assert(count == line_count(texts[i as int]));
            if count > usize::MAX - total {
                proof {
                    lemma_lines_before_monotonic(texts, i + 1, options@.len() as int);
                }
                return None;
            }
            total = total + count;
            starts.push(total);
            i += 1;
        }
        let rows: usize = terminal_rows as usize;
        let viewport_rows: usize = if total <= rows {
            total
        } else {
            rows
        };
        let count: usize = starts[1];
        assert(count == line_count(texts[0])) by {
            assert(lines_before(texts, 1) == lines_before(texts, 0) + line_count(texts[0]));
        }
        proof {
            lemma_lines_before_monotonic(texts, 1, options@.len() as int);
        }
        let scroll_offset: usize = if count >= viewport_rows {
            count - viewport_rows
        } else {
            0
        };
        Some(SelectState { options, starts, selected_index: 0, scroll_offset, viewport_rows })
    }

    /// The entries of the list.
    pub fn options(&self) -> (options: &Vec<String>)
        ensures
            strings_of(options@) == self@.options,
    {
        &self.options
    }

    /// The index of the highlighted entry.
    pub fn selected_index(&self) -> (index: usize)
        ensures
            index == self@.selected_index,
    {
        self.selected_index
    }

    /// The index of the first visible line.
    pub fn scroll_offset(&self) -> (offset: usize)
        ensures
            offset == self@.scroll_offset,
    {
        self.scroll_offset
    }

    /// The number of lines in view.
    pub fn viewport_rows(&self) -> (rows: usize)
        ensures
            rows == self@.viewport_rows,
    {
        self.viewport_rows
    }

    /// The lines of the whole list as they are drawn.
    fn draw_all(&self) -> (lines: Vec<String>)
        requires
            self.wf(),
        ensures
            strings_of(lines@) == self@.drawn_lines(),
    {
        let ghost texts = strings_of(self.options@);
        let ghost selected = self.selected_index as int;
        let mut lines: Vec<String> = Vec::new();
        let mut i: usize = 0;
        while i < self.options.len()
            invariant
                i <= self.options.len(),
                texts == strings_of(self.options@),
                selected == self.selected_index as int,
                strings_of(lines@) == list_lines(texts, selected, i as int),
            decreases self.options.len() - i,
        {
            let pieces = split_str(self.options[i].as_str(), crlf_str());
            let highlighted = i == self.selected_index;
            let ghost done = strings_of(lines@);
            let ghost entry = entry_lines(texts[i as int], highlighted);
            let mut k: usize = 0;
            while k < pieces.len()
                invariant
                    k <= pieces.len(),
                    strings_of(pieces@) == split(texts[i as int], crlf()),
                    entry == entry_lines(texts[i as int], highlighted),
                    strings_of(lines@) == done + entry.take(k as int),
                decreases pieces.len() - k,
            {
                let ghost before = strings_of(lines@);
                let line = draw_line(pieces[k].as_str(), k == 0, highlighted);
                lines.push(line);
                proof {
                    assert(pieces@[k as int]@ == strings_of(pieces@)[k as int]);
                    assert(strings_of(lines@) =~= before.push(entry[k as int]));
                    assert(entry.take(k + 1) =~= entry.take(k as int).push(entry[k as int]));
                }
                k += 1;
            }
            proof {
                assert(entry.take(pieces.len() as int) =~= entry);
            }
            i += 1;
        }
        lines
    }

    /// What is to be written to draw the list: the visible lines, between the
    /// sequences that stop the terminal from wrapping lines while they are
    /// drawn. See [`Selection::frame`].
    pub fn render(&self, first_time: bool) -> (out: String)
        requires
            self.wf(),
        ensures
            out@ == self@.frame(first_time),
    {
        let mut out = disable_line_wrap();
        if !first_time {
            let blank = reset("");
            let home = move_to_column(0);
            let erase = clear_from_cursor_down();
            out.append(blank.as_str());
            out.append(home.as_str());
            push_move_up(
                &mut out,
                if self.viewport_rows > 0 {
                    self.viewport_rows - 1
                } else {
                    0
                },
            );
            out.append(erase.as_str());
            assert(out@ =~= wrap_off_seq() + rewind(self@.viewport_rows)) by {
                assert(""@ =~= Seq::<char>::empty()) by {
                    reveal_strlit("");
                }
            }
        } else {
            assert(out@ =~= wrap_off_seq() + Seq::<char>::empty());
        }
        let ghost head = out@;
        let lines = self.draw_all();
        proof {
            lemma_list_lines_len(
                self@.options,
                self@.selected_index as int,
                self@.options.len() as int,
            );
        }
        let ghost visible = self@.visible_lines();
        let from: usize = self.scroll_offset;
        assert(lines@.len() == lines.len());
        let mut k: usize = 0;
        while k < self.viewport_rows
            invariant
                k <= self.viewport_rows,
                from == self.scroll_offset,
                from + self.viewport_rows <= lines@.len() <= usize::MAX,
                visible == strings_of(lines@).subrange(
                    from as int,
                    from + self.viewport_rows,
                ),
                out@ == head + join(visible.take(k as int), crlf()),
            decreases self.viewport_rows - k,
        {
            let ghost before = out@;
            if k > 0 {
                out.append(crlf_str());
            }
            out.append(lines[from + k].as_str());
            proof {
                let shown = visible.take(k + 1);
                assert(shown.drop_last() =~= visible.take(k as int));
                assert(shown.last() == lines@[from + k]@);
                if k == 0 {
                    assert(join(visible.take(0), crlf()) =~= Seq::<char>::empty());
                    assert(out@ =~= head + join(shown, crlf()));
                } else {
                    assert(out@ =~= head + join(shown, crlf()));
                }
            }
            k += 1;
        }
        proof {
            assert(visible.take(self.viewport_rows as int) =~= visible);
        }
        let right = move_to_column(1);
        let wrap = enable_line_wrap();
        out.append(right.as_str());
        out.append(wrap.as_str());
        assert(out@ =~= self@.frame(first_time));
        out
    }

    /// Takes one key. Ctrl-C ends the session and Enter chooses the
    /// highlighted entry; neither changes the list. Any other key is answered
    /// by drawing the list again: the arrows move the highlight by one entry,
    /// stopping at either end, and the viewport follows it.
    pub fn handle(&mut self, code: &TerminalCode) -> (step: SelectStep)
        requires
            old(self).wf(),
        ensures
            final(self).wf(),
            match code@.code {
                Some(AsciiCode::EoT) => step is Exit && final(self)@ == old(self)@,
                Some(AsciiCode::Enter) => {
                    &&& step matches SelectStep::Chosen(index, out)
                    &&& index == old(self)@.selected_index
                    &&& out@ == closing()
                    &&& final(self)@ == old(self)@
                },
                _ => {
                    &&& step matches SelectStep::Redraw(out)
                    &&& final(self)@ == old(self)@.after(code@.code)
                    &&& out@ == final(self)@.frame(false)
                },
            },
    {
        assert(self.selected_index < self.options.len()) by {
            assert(self@.selected_index < self@.options.len());
        }
        match code.ascii_code {
            Some(AsciiCode::EoT) => {
                return SelectStep::Exit;
            },
            Some(AsciiCode::Enter) => {
                return SelectStep::Chosen(self.selected_index, closing_line());
            },
            Some(AsciiCode::ArrowUp) => {
                if self.selected_index > 0 {
                    self.selected_index = self.selected_index - 1;
                }
            },
            Some(AsciiCode::ArrowDown) => {
                if self.selected_index + 1 < self.options.len() {
                    self.selected_index = self.selected_index + 1;
                }
            },
            _ => {},
        }
        let first: usize = self.starts[self.selected_index];
        let end: usize = self.starts[self.selected_index + 1];
        proof {
            let texts = strings_of(self.options@);
            let i = self.selected_index as int;
            assert(lines_before(texts, i + 1) == lines_before(texts, i) + line_count(texts[i]));
            lemma_lines_before_monotonic(texts, i + 1, texts.len() as int);
            assert(self.starts@[texts.len() as int] == lines_before(texts, texts.len() as int));
        }
        if end >= self.scroll_offset + self.viewport_rows {
            self.scroll_offset = end - self.viewport_rows;
        } else if first < self.scroll_offset {
            self.scroll_offset = first;
        }
        let out = self.render(false);
        SelectStep::Redraw(out)
    }
}

} // verus!
