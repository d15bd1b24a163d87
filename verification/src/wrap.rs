//! Fixed-width wrapping: words are laid out greedily on lines of a given
//! width and never split.

use vstd::prelude::*;
use crate::text::{
    all_free_of, append_chars, crlf, free_of, from_chars, join, lemma_joined_words_are_free,
    lemma_pieces_are_free, lemma_split_pieces_hold_no_separator, lemma_split_terminated,
    matches_at, space, split, split_chars, terminate_all, texts_of, to_chars,
};

verus! {

/// The columns that the words on a line take, each counted with the space
/// that follows it.
pub open spec fn used(line: Seq<Seq<char>>) -> nat
    decreases line.len(),
{
    if line.len() == 0 {
        0
    } else {
        used(line.drop_last()) + line.last().len() + 1
    }
}

/// The lines after one more word: the word goes on the last line if that
/// line stays within `width`, and starts a new line if not.
pub open spec fn place(lines: Seq<Seq<Seq<char>>>, word: Seq<char>, width: nat) -> Seq<
    Seq<Seq<char>>,
> {
    if used(lines.last()) + word.len() > width {
        lines.push(seq![word])
    } else {
        lines.drop_last().push(lines.last().push(word))
    }
}

/// The words laid out on lines, left to right. Each line is the sequence of
/// the words on it; the layout starts with one line that holds no word.
pub open spec fn layout(words: Seq<Seq<char>>, width: nat) -> Seq<Seq<Seq<char>>>
    decreases words.len(),
{
    if words.len() == 0 {
        seq![Seq::empty()]
    } else {
        place(layout(words.drop_last(), width), words.last(), width)
    }
}

/// The text of each line of a layout: its words with single spaces between.
pub open spec fn line_texts(lines: Seq<Seq<Seq<char>>>) -> Seq<Seq<char>> {
    lines.map_values(|words: Seq<Seq<char>>| join(words, space()))
}

/// One line of input, wrapped: the lines that its words fill.
pub open spec fn wrap_line(line: Seq<char>, width: nat) -> Seq<Seq<char>> {
    line_texts(layout(split(line, space()), width))
}

/// The wrapped lines of several input lines, one input line after the other.
pub open spec fn wrap_lines(paragraphs: Seq<Seq<char>>, width: nat) -> Seq<Seq<char>>
    decreases paragraphs.len(),
{
    if paragraphs.len() == 0 {
        Seq::empty()
    } else {
        wrap_lines(paragraphs.drop_last(), width) + wrap_line(paragraphs.last(), width)
    }
}

/// A text wrapped at `width` columns: its lines, taken apart at the line
/// breaks, each wrapped by itself, and every resulting line followed by a
/// line break.
pub open spec fn wrap_text(input: Seq<char>, width: nat) -> Seq<char> {
    terminate_all(wrapped_lines(input, width), crlf())
}

/// A layout always has a line.
pub proof fn lemma_layout_nonempty(words: Seq<Seq<char>>, width: nat)
    ensures
        layout(words, width).len() >= 1,
    decreases words.len(),
{
    if words.len() > 0 {
        lemma_layout_nonempty(words.drop_last(), width);
    }
}

/// The text of a line is one column shorter than what its words use, since
/// no space follows the last word.
pub proof fn lemma_used_is_text_length(line: Seq<Seq<char>>)
    ensures
        used(line) == join(line, space()).len() + (if line.len() > 0 {
            1nat
        } else {
            0nat
        }),
    decreases line.len(),
{
    assert(space().len() == 1);
    if line.len() > 1 {
        lemma_used_is_text_length(line.drop_last());
    } else if line.len() == 1 {
        assert(used(line.drop_last()) == 0);
        assert(line[0] == line.last());
    }
}

/// No line is wider than `width`, unless it holds a single word that is
/// itself wider; such a line is that word and nothing else.
pub proof fn lemma_lines_fit(words: Seq<Seq<char>>, width: nat, i: int)
    requires
        0 <= i < layout(words, width).len(),
    ensures
        ({
            let line = layout(words, width)[i];
            let text = line_texts(layout(words, width))[i];
            text.len() <= width || (line.len() == 1 && text == line[0] && words.contains(line[0]))
        }),
    decreases words.len(),
{
    if words.len() > 0 {
        let earlier = layout(words.drop_last(), width);
        let word = words.last();
        lemma_layout_nonempty(words.drop_last(), width);
        assert(words[words.len() - 1] == word);
        if i < earlier.len() - 1 || (i == earlier.len() - 1 && used(earlier.last()) + word.len()
            > width) {
            lemma_lines_fit(words.drop_last(), width, i);
            let line = earlier[i];
            if line.len() == 1 && words.drop_last().contains(line[0]) {
                let k = choose|k: int| 0 <= k < words.drop_last().len() && words.drop_last()[k] == line[0];
                assert(words[k] == line[0]);
            }
        } else if used(earlier.last()) + word.len() > width {
            assert(layout(words, width)[i] == seq![word]);
        } else {
            let line = earlier.last().push(word);
            assert(layout(words, width)[i] == line);
            lemma_used_is_text_length(line);
            assert(line.drop_last() =~= earlier.last());
        }
    }
}

/// Wrapping keeps every word whole and in its place: the words of all lines,
/// read line by line, are the words that were laid out.
pub proof fn lemma_words_kept(words: Seq<Seq<char>>, width: nat)
    ensures
        layout(words, width).flatten() == words,
    decreases words.len(),
{
    if words.len() == 0 {
        assert(layout(words, width) =~= seq![Seq::<Seq<char>>::empty()]);
        assert(seq![Seq::<Seq<char>>::empty()].drop_first() =~= Seq::<Seq<Seq<char>>>::empty());
        assert(layout(words, width).flatten() =~= words) by {
            reveal_with_fuel(Seq::flatten, 2);
        }
    } else {
        let earlier = layout(words.drop_last(), width);
        let word = words.last();
        lemma_layout_nonempty(words.drop_last(), width);
        lemma_words_kept(words.drop_last(), width);
        let body = earlier.drop_last();
        assert(earlier =~= body.push(earlier.last()));
        body.lemma_flatten_push(earlier.last());
        if used(earlier.last()) + word.len() > width {
            earlier.lemma_flatten_push(seq![word]);
            assert(words =~= words.drop_last().push(word));
            assert(earlier.flatten() + seq![word] =~= earlier.flatten().push(word));
        } else {
            body.lemma_flatten_push(earlier.last().push(word));
            assert(earlier.flatten() == body.flatten() + earlier.last());
            assert(words =~= words.drop_last().push(word));
            assert(body.flatten() + earlier.last().push(word) =~= (body.flatten()
                + earlier.last()).push(word));
        }
    }
}

/// `word` is one of the words of one of the lines of `input`.
pub open spec fn is_word_of(input: Seq<char>, word: Seq<char>) -> bool {
    exists|p: int, k: int|
        0 <= p < split(input, crlf()).len() && 0 <= k < split(
            split(input, crlf())[p],
            space(),
        ).len() && word == #[trigger] split(split(input, crlf())[p], space())[k]
}

/// The lines that a wrapped text is made of.
pub open spec fn wrapped_lines(input: Seq<char>, width: nat) -> Seq<Seq<char>> {
    wrap_lines(split(input, crlf()), width)
}

/// No wrapped line of several input lines is wider than `width`, unless it
/// is a single word of one of them.
proof fn lemma_wrap_lines_fit(paragraphs: Seq<Seq<char>>, width: nat, i: int)
    requires
        0 <= i < wrap_lines(paragraphs, width).len(),
    ensures
        ({
            let line = wrap_lines(paragraphs, width)[i];
            line.len() <= width || exists|p: int, k: int|
                0 <= p < paragraphs.len() && 0 <= k < split(paragraphs[p], space()).len() && line
                    == #[trigger] split(paragraphs[p], space())[k]
        }),
    decreases paragraphs.len(),
{
    if paragraphs.len() > 0 {
        let earlier = wrap_lines(paragraphs.drop_last(), width);
        let last = paragraphs.last();
        let line = wrap_lines(paragraphs, width)[i];
        if i < earlier.len() {
            lemma_wrap_lines_fit(paragraphs.drop_last(), width, i);
            if line.len() > width {
                let (p, k) = choose|p: int, k: int|
                    0 <= p < paragraphs.drop_last().len() && 0 <= k < split(
                        paragraphs.drop_last()[p],
                        space(),
                    ).len() && line == #[trigger] split(paragraphs.drop_last()[p], space())[k];
                assert(paragraphs[p] == paragraphs.drop_last()[p]);
                assert(line == split(paragraphs[p], space())[k]);
            }
        } else {
            let words = split(last, space());
            let j = i - earlier.len();
            assert(line == wrap_line(last, width)[j]);
            lemma_lines_fit(words, width, j);
            if line.len() > width {
                let word = layout(words, width)[j][0];
                let k = choose|k: int| 0 <= k < words.len() && words[k] == word;
                let p = paragraphs.len() - 1;
                assert(line == split(paragraphs[p], space())[k]);
            }
        }
    }
}

/// No line of a wrapped text is wider than `width`, unless it is a single
/// word of the input that is itself wider: then the line is that word,
/// unchanged, and so holds no space.
pub proof fn lemma_wrapped_lines_fit(input: Seq<char>, width: nat, i: int)
    requires
        0 <= i < wrapped_lines(input, width).len(),
    ensures
        wrapped_lines(input, width)[i].len() <= width || is_word_of(
            input,
            wrapped_lines(input, width)[i],
        ),
        wrapped_lines(input, width)[i].len() > width ==> !wrapped_lines(input, width)[i].contains(
            ' ',
        ),
{
    let paragraphs = split(input, crlf());
    let line = wrapped_lines(input, width)[i];
    lemma_wrap_lines_fit(paragraphs, width, i);
    if line.len() > width {
        let (p, k) = choose|p: int, k: int|
            0 <= p < paragraphs.len() && 0 <= k < split(paragraphs[p], space()).len() && line
                == #[trigger] split(paragraphs[p], space())[k];
        assert(is_word_of(input, line));
        lemma_split_pieces_hold_no_separator(paragraphs[p], space(), 0, k);
        if line.contains(' ') {
            let j = choose|j: int| 0 <= j < line.len() && line[j] == ' ';
            assert(line.subrange(j, j + 1) =~= space());
            assert(matches_at(line, space(), j));
        }
    }
}

/// Words that are free of line breaks are laid out on lines that are free of
/// them.
proof fn lemma_layout_is_free(words: Seq<Seq<char>>, width: nat)
    requires
        all_free_of(words, crlf()),
    ensures
        forall|i: int|
            0 <= i < layout(words, width).len() ==> all_free_of(
                #[trigger] layout(words, width)[i],
                crlf(),
            ),
    decreases words.len(),
{
    if words.len() > 0 {
        let earlier = layout(words.drop_last(), width);
        let word = words.last();
        lemma_layout_nonempty(words.drop_last(), width);
        assert forall|k: int| 0 <= k < words.drop_last().len() implies free_of(
            #[trigger] words.drop_last()[k],
            crlf(),
        ) by {
            assert(words.drop_last()[k] == words[k]);
        }
        lemma_layout_is_free(words.drop_last(), width);
        assert(free_of(words[words.len() - 1], crlf()));
        let now = layout(words, width);
        assert forall|i: int| 0 <= i < now.len() implies all_free_of(#[trigger] now[i], crlf()) by {
            if i < earlier.len() - 1 {
                assert(now[i] == earlier[i]);
            } else if used(earlier.last()) + word.len() > width {
                if i == earlier.len() - 1 {
                    assert(now[i] == earlier[i]);
                } else {
                    assert(now[i] =~= seq![word]);
                }
            } else {
                let line = earlier.last().push(word);
                assert(now[i] == line);
                assert(all_free_of(earlier[earlier.len() - 1], crlf()));
                assert forall|k: int| 0 <= k < line.len() implies free_of(
                    #[trigger] line[k],
                    crlf(),
                ) by {
                    if k < earlier.last().len() {
                        assert(line[k] == earlier.last()[k]);
                    }
                }
            }
        }
    }
}

/// The wrapped lines of input lines that are free of line breaks are free
/// of them.
proof fn lemma_wrap_lines_are_free(paragraphs: Seq<Seq<char>>, width: nat)
    requires
        all_free_of(paragraphs, crlf()),
    ensures
        all_free_of(wrap_lines(paragraphs, width), crlf()),
    decreases paragraphs.len(),
{
    if paragraphs.len() > 0 {
        let front = paragraphs.drop_last();
        let last = paragraphs.last();
        assert forall|k: int| 0 <= k < front.len() implies free_of(#[trigger] front[k], crlf()) by {
            assert(front[k] == paragraphs[k]);
        }
        lemma_wrap_lines_are_free(front, width);
        assert(free_of(paragraphs[paragraphs.len() - 1], crlf()));
        let words = split(last, space());
        lemma_pieces_are_free(last, space(), 0);
        lemma_layout_is_free(words, width);
        let earlier = wrap_lines(front, width);
        let fresh = wrap_line(last, width);
        let all = wrap_lines(paragraphs, width);
        assert forall|k: int| 0 <= k < all.len() implies free_of(#[trigger] all[k], crlf()) by {
            if k < earlier.len() {
                assert(all[k] == earlier[k]);
            } else {
                let j = k - earlier.len();
                assert(all[k] == fresh[j]);
                assert(all_free_of(layout(words, width)[j], crlf()));
                lemma_joined_words_are_free(layout(words, width)[j]);
            }
        }
    }
}

/// The lines of a wrapped text are the lines it was made of: taken apart at
/// its line breaks, the text falls into them, and into one empty piece
/// behind the last line break.
pub proof fn lemma_wrapped_text_has_its_lines(input: Seq<char>, width: nat)
    ensures
        split(wrap_text(input, width), crlf()) == wrapped_lines(input, width).push(Seq::empty()),
{
    let paragraphs = split(input, crlf());
    assert forall|k: int| 0 <= k < paragraphs.len() implies free_of(
        #[trigger] paragraphs[k],
        crlf(),
    ) by {
        lemma_split_pieces_hold_no_separator(input, crlf(), 0, k);
    }
    lemma_wrap_lines_are_free(paragraphs, width);
    lemma_split_terminated(wrapped_lines(input, width));
}

/// No line of a wrapped text, as it stands between the line breaks of the
/// text, is wider than `width`, unless it is a single word of the input that
/// is itself wider.
pub proof fn lemma_output_lines_fit(input: Seq<char>, width: nat, i: int)
    requires
        0 <= i < split(wrap_text(input, width), crlf()).len(),
    ensures
        ({
            let line = split(wrap_text(input, width), crlf())[i];
            line.len() <= width || (is_word_of(input, line) && !line.contains(' '))
        }),
{
    lemma_wrapped_text_has_its_lines(input, width);
    if i < wrapped_lines(input, width).len() {
        lemma_wrapped_lines_fit(input, width, i);
    }
}

/// Lays the words of one input line out on lines of `width` columns.
pub fn wrap_words(line: &[char], width: usize) -> (lines: Vec<Vec<char>>)
    ensures
        texts_of(lines@) == wrap_line(line@, width as nat),
{
    let sep: Vec<char> = vec![' '];
    assert(sep@ =~= space());
    let words = split_chars(line, sep.as_slice());
    let mut lines: Vec<Vec<char>> = Vec::new();
    let mut current: Vec<char> = Vec::new();
    let mut has_words = false;
    let ghost all = texts_of(words@);
    let ghost mut placed: Seq<Seq<Seq<char>>> = seq![Seq::empty()];
    let mut k: usize = 0;
    while k < words.len()
        invariant
            k <= words.len(),
            all == texts_of(words@),
            placed == layout(all.take(k as int), width as nat),
            placed.len() >= 1,
            texts_of(lines@) == line_texts(placed.drop_last()),
            current@ == join(placed.last(), space()),
            has_words == (placed.last().len() > 0),
        decreases words.len() - k,
    {
        let word = &words[k];
        proof {
            assert(all.take(k + 1).drop_last() =~= all.take(k as int));
            assert(all.take(k + 1).last() == word@);
            lemma_used_is_text_length(placed.last());
        }
        let breaks = if word.len() > width {
            true
        } else {
            has_words && current.len() >= width - word.len()
        };
        assert(breaks == (used(placed.last()) + word@.len() > width));
        if breaks {
            let ghost before = texts_of(lines@);
            lines.push(current);
            current = Vec::new();
            append_chars(&mut current, word.as_slice());
            proof {
                let next = placed.push(seq![word@]);
                assert(texts_of(lines@) =~= before.push(join(placed.last(), space())));
                assert(next.drop_last() =~= placed);
                assert(line_texts(placed) =~= line_texts(placed.drop_last()).push(
                    join(placed.last(), space()),
                ));
                assert(current@ =~= word@);
                placed = next;
            }
            has_words = true;
        } else {
            if has_words {
                current.push(' ');
            }
            append_chars(&mut current, word.as_slice());
            proof {
                let line = placed.last().push(word@);
                let next = placed.drop_last().push(line);
                assert(line.drop_last() =~= placed.last());
                assert(next.drop_last() =~= placed.drop_last());
                assert(current@ =~= join(line, space())) by {
                    if placed.last().len() > 0 {
                        assert(join(placed.last(), space()).push(' ') =~= join(
                            placed.last(),
                            space(),
                        ) + space());
                    } else {
                        assert(line.len() == 1);
                    }
                }
                placed = next;
            }
            has_words = true;
        }
        k += 1;
    }
    proof {
        assert(all.take(words.len() as int) =~= all);
    }
    let ghost before = texts_of(lines@);
    lines.push(current);
    proof {
        assert(texts_of(lines@) =~= before.push(join(placed.last(), space())));
        assert(line_texts(placed) =~= line_texts(placed.drop_last()).push(
            join(placed.last(), space()),
        ));
    }
    lines
}

/// Wraps a text at `width` columns.
///
/// The text is taken apart at its line breaks and each line is wrapped by
/// itself: its words, the stretches between single spaces, fill a line as
/// long as they fit with one space between them; a word that does not fit
/// starts a new line, so a word wider than `width` stands alone on its line.
/// Every line of the result ends in a line break.
pub fn fixed_width(input: &str, width: usize) -> (out: String)
    ensures
        out@ == wrap_text(input@, width as nat),
{
    let chars = to_chars(input);
    let sep: Vec<char> = vec!['\r', '\n'];
    assert(sep@ =~= crlf());
    let paragraphs = split_chars(chars.as_slice(), sep.as_slice());
    let ghost all = texts_of(paragraphs@);
    let mut out: Vec<char> = Vec::new();
    let ghost mut done: Seq<Seq<char>> = Seq::empty();
    let mut p: usize = 0;
    while p < paragraphs.len()
        invariant
            p <= paragraphs.len(),
            sep@ == crlf(),
            all == texts_of(paragraphs@),
            done == wrap_lines(all.take(p as int), width as nat),
            out@ == terminate_all(done, crlf()),
        decreases paragraphs.len() - p,
    {
        let lines = wrap_words(paragraphs[p].as_slice(), width);
        proof {
            assert(all.take(p + 1).drop_last() =~= all.take(p as int));
            assert(all.take(p + 1).last() == paragraphs@[p as int]@);
        }
        let ghost fresh = texts_of(lines@);
        let mut l: usize = 0;
        while l < lines.len()
            invariant
                l <= lines.len(),
                sep@ == crlf(),
                fresh == texts_of(lines@),
                out@ == terminate_all(done + fresh.take(l as int), crlf()),
            decreases lines.len() - l,
        {
            append_chars(&mut out, lines[l].as_slice());
            append_chars(&mut out, sep.as_slice());
            proof {
                let now = done + fresh.take(l + 1);
                assert(now.drop_last() =~= done + fresh.take(l as int));
                assert(now.last() == lines@[l as int]@);
            }
            l += 1;
        }
        proof {
            assert(fresh.take(lines.len() as int) =~= fresh);
            done = done + fresh;
        }
        p += 1;
    }
    proof {
        assert(all.take(paragraphs.len() as int) =~= all);
    }
    from_chars(out.as_slice())
}

} // verus!
