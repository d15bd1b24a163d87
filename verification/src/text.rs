//! Text as sequences of characters: conversions, splitting and joining.

use vstd::prelude::*;
use vstd::string::StringExecFns;
use vstd::utf8::{decode_utf8, valid_utf8};

verus! {

/// `String::push` appends one character.
pub assume_specification[ String::push ](s: &mut String, c: char)
    ensures
        final(s)@ == old(s)@.push(c),
;

/// `String::pop` removes the last character and returns it, or returns
/// `None` and changes nothing when the string is empty.
pub assume_specification[ String::pop ](s: &mut String) -> (c: Option<char>)
    ensures
        old(s)@.len() > 0 ==> c == Some(old(s)@.last()) && final(s)@ == old(s)@.drop_last(),
        old(s)@.len() == 0 ==> c.is_none() && final(s)@ == old(s)@,
;

/// `String::from_utf8` of the standard library: the text that the bytes
/// encode when they are valid UTF-8, and nothing when they are not.
#[verifier::external_body]
pub(crate) fn text_of_utf8(bytes: &[u8]) -> (text: Option<String>)
    ensures
        match text {
            Some(t) => valid_utf8(bytes@) && t@ == decode_utf8(bytes@),
            None => !valid_utf8(bytes@),
        },
{
    String::from_utf8(bytes.to_vec()).ok()
}

/// The characters of a string, one by one.
pub fn to_chars(text: &str) -> (chars: Vec<char>)
    ensures
        chars@ == text@,
{
    let mut chars: Vec<char> = Vec::new();
    let mut it = text.chars();
    for c in iter: it
        invariant
            chars@ == iter.seq().take(iter.index()),
    {
        chars.push(c);
    }
    chars
}

/// The string that holds these characters.
pub fn from_chars(chars: &[char]) -> (text: String)
    ensures
        text@ == chars@,
{
    let mut text = String::new();
    let mut i: usize = 0;
    while i < chars.len()
        invariant
            i <= chars.len(),
            text@ == chars@.take(i as int),
        decreases chars.len() - i,
    {
        text.push(chars[i]);
        assert(chars@.take(i + 1) =~= chars@.take(i as int).push(chars@[i as int]));
        i += 1;
    }
    assert(chars@.take(chars.len() as int) =~= chars@);
    text
}

/// The character sequences of a list of texts.
pub open spec fn texts_of(texts: Seq<Vec<char>>) -> Seq<Seq<char>> {
    texts.map_values(|t: Vec<char>| t@)
}

/// The line break of a raw terminal: carriage return, line feed.
pub open spec fn crlf() -> Seq<char> {
    seq!['\r', '\n']
}

/// A single space.
pub open spec fn space() -> Seq<char> {
    seq![' ']
}

/// `sep` stands in `s` at index `i`.
pub open spec fn matches_at(s: Seq<char>, sep: Seq<char>, i: int) -> bool {
    0 <= i && i + sep.len() <= s.len() && s.subrange(i, i + sep.len()) == sep
}

/// The first index from `from` on at which `sep` stands in `s`, or the
/// length of `s` when there is none.
pub open spec fn next_match(s: Seq<char>, sep: Seq<char>, from: int) -> int
    decreases s.len() - from,
{
    if from >= s.len() {
        s.len() as int
    } else if matches_at(s, sep, from) {
        from
    } else {
        next_match(s, sep, from + 1)
    }
}

/// What `next_match` returns lies at or after `from`, and is a place where
/// `sep` stands unless it is the end of `s`; `sep` stands nowhere before it.
pub proof fn lemma_next_match(s: Seq<char>, sep: Seq<char>, from: int)
    requires
        0 <= from <= s.len(),
    ensures
        from <= next_match(s, sep, from) <= s.len(),
        next_match(s, sep, from) < s.len() ==> matches_at(s, sep, next_match(s, sep, from)),
        forall|k: int| from <= k < next_match(s, sep, from) ==> !matches_at(s, sep, k),
    decreases s.len() - from,
{
    if from < s.len() && !matches_at(s, sep, from) {
        lemma_next_match(s, sep, from + 1);
    }
}

/// The pieces of `s` from index `from` on, cut at every place where `sep`
/// stands, left to right. An empty `sep` cuts nowhere.
pub open spec fn split_from(s: Seq<char>, sep: Seq<char>, from: int) -> Seq<Seq<char>>
    decreases s.len() - from,
{
    let cut = next_match(s, sep, from);
    if from < 0 || from > s.len() || sep.len() == 0 || cut >= s.len() {
        seq![s.subrange(from, s.len() as int)]
    } else {
        proof {
            lemma_next_match(s, sep, from);
        }
        seq![s.subrange(from, cut)] + split_from(s, sep, cut + sep.len())
    }
}

/// The pieces of `s` between the places where `sep` stands. There is always
/// at least one piece; a text that ends in `sep` has an empty last piece.
pub open spec fn split(s: Seq<char>, sep: Seq<char>) -> Seq<Seq<char>> {
    split_from(s, sep, 0)
}

/// The pieces put together again, with `sep` between each two.
pub open spec fn join(pieces: Seq<Seq<char>>, sep: Seq<char>) -> Seq<char>
    decreases pieces.len(),
{
    if pieces.len() == 0 {
        Seq::empty()
    } else if pieces.len() == 1 {
        pieces[0]
    } else {
        join(pieces.drop_last(), sep) + sep + pieces.last()
    }
}

/// The texts one after the other, each followed by `end`.
pub open spec fn terminate_all(pieces: Seq<Seq<char>>, end: Seq<char>) -> Seq<char>
    decreases pieces.len(),
{
    if pieces.len() == 0 {
        Seq::empty()
    } else {
        terminate_all(pieces.drop_last(), end) + pieces.last() + end
    }
}

/// Joining with a piece in front: the piece, the separator, the rest.
pub proof fn lemma_join_front(first: Seq<char>, rest: Seq<Seq<char>>, sep: Seq<char>)
    requires
        rest.len() > 0,
    ensures
        join(seq![first] + rest, sep) == first + sep + join(rest, sep),
    decreases rest.len(),
{
    let all = seq![first] + rest;
    assert(all.drop_last() =~= seq![first] + rest.drop_last());
    assert(all.last() == rest.last());
    if rest.len() == 1 {
        assert(all.drop_last() =~= seq![first]);
        assert(join(all.drop_last(), sep) == first);
        assert(rest[0] == rest.last());
    } else {
        lemma_join_front(first, rest.drop_last(), sep);
        assert(join(all, sep) =~= first + sep + join(rest, sep));
    }
}

/// Splitting always yields a piece.
pub proof fn lemma_split_nonempty(s: Seq<char>, sep: Seq<char>, from: int)
    requires
        0 <= from <= s.len(),
    ensures
        split_from(s, sep, from).len() >= 1,
    decreases s.len() - from,
{
    let cut = next_match(s, sep, from);
    if !(sep.len() == 0 || cut >= s.len()) {
        lemma_next_match(s, sep, from);
        lemma_split_nonempty(s, sep, cut + sep.len());
    }
}

/// A text has at most one piece more than it has characters.
pub proof fn lemma_split_len_bound(s: Seq<char>, sep: Seq<char>, from: int)
    requires
        0 <= from <= s.len(),
    ensures
        split_from(s, sep, from).len() <= s.len() - from + 1,
    decreases s.len() - from,
{
    let cut = next_match(s, sep, from);
    if !(sep.len() == 0 || cut >= s.len()) {
        lemma_next_match(s, sep, from);
        lemma_split_len_bound(s, sep, cut + sep.len());
    }
}

/// Splitting loses nothing: the pieces joined by the separator are the text.
pub proof fn lemma_join_split_from(s: Seq<char>, sep: Seq<char>, from: int)
    requires
        0 <= from <= s.len(),
    ensures
        join(split_from(s, sep, from), sep) == s.subrange(from, s.len() as int),
    decreases s.len() - from,
{
    let cut = next_match(s, sep, from);
    if !(sep.len() == 0 || cut >= s.len()) {
        lemma_next_match(s, sep, from);
        let rest = split_from(s, sep, cut + sep.len());
        lemma_split_nonempty(s, sep, cut + sep.len());
        lemma_join_split_from(s, sep, cut + sep.len());
        lemma_join_front(s.subrange(from, cut), rest, sep);
        assert(s.subrange(from, cut) + sep + s.subrange(cut + sep.len(), s.len() as int)
            =~= s.subrange(from, s.len() as int)) by {
            assert(s.subrange(cut, cut + sep.len()) == sep);
        }
    }
}

/// Splitting and joining on the same separator gives the text back.
pub proof fn lemma_join_split(s: Seq<char>, sep: Seq<char>)
    ensures
        join(split(s, sep), sep) == s,
{
    lemma_join_split_from(s, sep, 0);
    assert(s.subrange(0, s.len() as int) =~= s);
}

/// No piece of a split holds the separator.
pub proof fn lemma_split_pieces_hold_no_separator(s: Seq<char>, sep: Seq<char>, from: int, k: int)
    requires
        0 <= from <= s.len(),
        sep.len() > 0,
        0 <= k < split_from(s, sep, from).len(),
    ensures
        forall|i: int| !matches_at(#[trigger] split_from(s, sep, from)[k], sep, i),
    decreases s.len() - from,
{
    let cut = next_match(s, sep, from);
    lemma_next_match(s, sep, from);
    let end = if cut >= s.len() { s.len() as int } else { cut };
    if k == 0 {
        let piece = s.subrange(from, end);
        assert(split_from(s, sep, from)[0] == piece);
        assert forall|i: int| !matches_at(piece, sep, i) by {
            if matches_at(piece, sep, i) {
                assert(piece.subrange(i, i + sep.len()) =~= s.subrange(from + i, from + i + sep.len()));
                assert(matches_at(s, sep, from + i));
            }
        }
    } else {
        lemma_split_pieces_hold_no_separator(s, sep, cut + sep.len(), k - 1);
        assert(split_from(s, sep, from)[k] == split_from(s, sep, cut + sep.len())[k - 1]);
    }
}

/// `sep` stands nowhere in `s`.
pub open spec fn free_of(s: Seq<char>, sep: Seq<char>) -> bool {
    forall|i: int| !matches_at(s, sep, i)
}

/// `sep` stands in none of the texts.
pub open spec fn all_free_of(texts: Seq<Seq<char>>, sep: Seq<char>) -> bool {
    forall|k: int| 0 <= k < texts.len() ==> free_of(#[trigger] texts[k], sep)
}

/// The text holds neither a carriage return nor a line feed.
pub open spec fn unbroken(s: Seq<char>) -> bool {
    forall|i: int| 0 <= i < s.len() ==> s[i] != '\r' && s[i] != '\n'
}

/// A text that is free of line breaks stays so between two texts that hold
/// neither a carriage return nor a line feed.
pub proof fn lemma_framed_is_free(before: Seq<char>, text: Seq<char>, after: Seq<char>)
    requires
        unbroken(before),
        unbroken(after),
        free_of(text, crlf()),
    ensures
        free_of(before + text + after, crlf()),
{
    let s = before + text + after;
    assert forall|j: int| !matches_at(s, crlf(), j) by {
        if matches_at(s, crlf(), j) {
            let window = s.subrange(j, j + 2);
            assert(window[0] == s[j] && window[1] == s[j + 1]);
            let k = j - before.len();
            assert(0 <= k && k + 2 <= text.len());
            assert(text.subrange(k, k + 2) =~= window);
            assert(matches_at(text, crlf(), k));
        }
    }
}

/// A stretch of a text that is free of the separator is free of it too.
pub proof fn lemma_stretch_is_free(s: Seq<char>, sep: Seq<char>, from: int, to: int)
    requires
        0 <= from <= to <= s.len(),
        free_of(s, sep),
    ensures
        free_of(s.subrange(from, to), sep),
{
    let part = s.subrange(from, to);
    assert forall|j: int| !matches_at(part, sep, j) by {
        if matches_at(part, sep, j) {
            assert(part.subrange(j, j + sep.len()) =~= s.subrange(from + j, from + j + sep.len()));
            assert(matches_at(s, sep, from + j));
        }
    }
}

/// Every piece of a text is a stretch of it, so the pieces of a text that
/// is free of line breaks are free of them, whatever they were cut at.
pub proof fn lemma_pieces_are_free(s: Seq<char>, sep: Seq<char>, from: int)
    requires
        0 <= from <= s.len(),
        free_of(s, crlf()),
    ensures
        all_free_of(split_from(s, sep, from), crlf()),
    decreases s.len() - from,
{
    let cut = next_match(s, sep, from);
    let pieces = split_from(s, sep, from);
    if sep.len() == 0 || cut >= s.len() {
        lemma_stretch_is_free(s, crlf(), from, s.len() as int);
    } else {
        lemma_next_match(s, sep, from);
        lemma_stretch_is_free(s, crlf(), from, cut);
        lemma_pieces_are_free(s, sep, cut + sep.len());
        let rest = split_from(s, sep, cut + sep.len());
        assert forall|k: int| 0 <= k < pieces.len() implies free_of(#[trigger] pieces[k], crlf()) by {
            if k > 0 {
                assert(pieces[k] == rest[k - 1]);
            }
        }
    }
}

/// Texts that are free of line breaks stay so when they are joined by
/// single spaces.
pub proof fn lemma_joined_words_are_free(words: Seq<Seq<char>>)
    requires
        all_free_of(words, crlf()),
    ensures
        free_of(join(words, space()), crlf()),
    decreases words.len(),
{
    if words.len() == 0 {
    } else if words.len() == 1 {
    } else {
        let front = join(words.drop_last(), space());
        let last = words.last();
        assert forall|k: int| 0 <= k < words.drop_last().len() implies free_of(
            #[trigger] words.drop_last()[k],
            crlf(),
        ) by {
            assert(words.drop_last()[k] == words[k]);
        }
        lemma_joined_words_are_free(words.drop_last());
        let s = front + space() + last;
        assert forall|j: int| !matches_at(s, crlf(), j) by {
            if matches_at(s, crlf(), j) {
                let window = s.subrange(j, j + 2);
                assert(window[0] == s[j] && window[1] == s[j + 1]);
                if j + 2 <= front.len() {
                    assert(front.subrange(j, j + 2) =~= window);
                    assert(matches_at(front, crlf(), j));
                } else if j > front.len() {
                    let k = j - front.len() - 1;
                    assert(last.subrange(k, k + 2) =~= window);
                    assert(matches_at(last, crlf(), k));
                } else {
                    assert(s[front.len() as int] == ' ');
                }
            }
        }
    }
}

/// A text in which the separator stands nowhere is a single piece.
pub proof fn lemma_split_of_free(s: Seq<char>, sep: Seq<char>)
    requires
        free_of(s, sep),
    ensures
        split(s, sep) == seq![s],
{
    lemma_next_match(s, sep, 0);
    if next_match(s, sep, 0) < s.len() {
        assert(matches_at(s, sep, next_match(s, sep, 0)));
    }
    assert(s.subrange(0, s.len() as int) =~= s);
}

/// Behind a text `a`, the separator stands in `a + b` exactly where it stands
/// in `b`, and the next place is found there.
proof fn lemma_next_match_behind(a: Seq<char>, b: Seq<char>, sep: Seq<char>, k: int)
    requires
        0 <= k <= b.len(),
    ensures
        next_match(a + b, sep, a.len() + k) == a.len() + next_match(b, sep, k),
    decreases b.len() - k,
{
    if k < b.len() {
        let s = a + b;
        if k + sep.len() <= b.len() {
            assert(s.subrange(a.len() + k, a.len() + k + sep.len()) =~= b.subrange(
                k,
                k + sep.len(),
            ));
        }
        assert(matches_at(s, sep, a.len() + k) == matches_at(b, sep, k));
        if !matches_at(b, sep, k) {
            lemma_next_match_behind(a, b, sep, k + 1);
        }
    }
}

/// Behind a text `a`, the pieces of `a + b` are the pieces of `b`.
proof fn lemma_split_behind(a: Seq<char>, b: Seq<char>, sep: Seq<char>, k: int)
    requires
        0 <= k <= b.len(),
    ensures
        split_from(a + b, sep, a.len() + k) == split_from(b, sep, k),
    decreases b.len() - k,
{
    let s = a + b;
    lemma_next_match_behind(a, b, sep, k);
    lemma_next_match(b, sep, k);
    let cut = next_match(b, sep, k);
    if sep.len() == 0 || cut >= b.len() {
        assert(s.subrange(a.len() + k, s.len() as int) =~= b.subrange(k, b.len() as int));
    } else {
        assert(s.subrange(a.len() + k, a.len() + cut) =~= b.subrange(k, cut));
        lemma_split_behind(a, b, sep, cut + sep.len());
    }
}

/// A text that is free of line breaks, a line break and a second text fall
/// into the first text and the pieces of the second.
pub proof fn lemma_split_after_line(line: Seq<char>, rest: Seq<char>)
    requires
        free_of(line, crlf()),
    ensures
        split(line + crlf() + rest, crlf()) == seq![line] + split(rest, crlf()),
{
    let s = line + crlf() + rest;
    let n = line.len() as int;
    assert(s.subrange(n, n + 2) =~= crlf());
    assert(matches_at(s, crlf(), n));
    assert forall|j: int| 0 <= j < n implies !matches_at(s, crlf(), j) by {
        if matches_at(s, crlf(), j) {
            let window = s.subrange(j, j + 2);
            assert(window[0] == s[j] && window[1] == s[j + 1]);
            if j + 2 <= n {
                assert(line.subrange(j, j + 2) =~= window);
                assert(matches_at(line, crlf(), j));
            } else {
                assert(s[j + 1] == '\r');
            }
        }
    }
    lemma_next_match(s, crlf(), 0);
    assert(next_match(s, crlf(), 0) == n);
    assert(s.subrange(0, n) =~= line);
    lemma_split_behind(line + crlf(), rest, crlf(), 0);
}

/// Lines that are free of line breaks, joined by line breaks, fall into the
/// same lines again.
pub proof fn lemma_split_join(lines: Seq<Seq<char>>)
    requires
        lines.len() >= 1,
        all_free_of(lines, crlf()),
    ensures
        split(join(lines, crlf()), crlf()) == lines,
    decreases lines.len(),
{
    if lines.len() == 1 {
        lemma_split_of_free(lines[0], crlf());
        assert(lines =~= seq![lines[0]]);
    } else {
        let rest = lines.drop_first();
        assert(lines =~= seq![lines[0]] + rest);
        assert forall|k: int| 0 <= k < rest.len() implies free_of(#[trigger] rest[k], crlf()) by {
            assert(rest[k] == lines[k + 1]);
        }
        lemma_join_front(lines[0], rest, crlf());
        lemma_split_join(rest);
        lemma_split_after_line(lines[0], join(rest, crlf()));
    }
}

/// Ending every line with a line break is joining the lines and one empty
/// line behind them.
pub proof fn lemma_terminate_is_join(lines: Seq<Seq<char>>)
    ensures
        terminate_all(lines, crlf()) == join(lines.push(Seq::empty()), crlf()),
    decreases lines.len(),
{
    let all = lines.push(Seq::empty());
    assert(all.drop_last() =~= lines);
    if lines.len() == 0 {
    } else if lines.len() == 1 {
        assert(terminate_all(lines.drop_last(), crlf()) =~= Seq::<char>::empty());
        assert(lines[0] == lines.last());
        assert(terminate_all(lines, crlf()) =~= lines[0] + crlf());
        assert(join(lines, crlf()) == lines[0]);
        assert(all.last() =~= Seq::<char>::empty());
        assert(join(all, crlf()) =~= lines[0] + crlf());
    } else {
        lemma_terminate_is_join(lines.drop_last());
        assert(lines.drop_last().push(Seq::empty()).drop_last() =~= lines.drop_last());
        assert(join(lines, crlf()) == join(lines.drop_last(), crlf()) + crlf() + lines.last());
        assert(terminate_all(lines, crlf()) =~= join(all, crlf()));
    }
}

/// Lines that are free of line breaks, each ended by a line break, fall
/// into the same lines and one empty piece behind the last break.
pub proof fn lemma_split_terminated(lines: Seq<Seq<char>>)
    requires
        all_free_of(lines, crlf()),
    ensures
        split(terminate_all(lines, crlf()), crlf()) == lines.push(Seq::empty()),
{
    let all = lines.push(Seq::<char>::empty());
    lemma_terminate_is_join(lines);
    assert forall|k: int| 0 <= k < all.len() implies free_of(#[trigger] all[k], crlf()) by {
        if k < lines.len() {
            assert(all[k] == lines[k]);
        }
    }
    lemma_split_join(all);
}

/// Whether `sep` stands in `text` at index `i`.
pub fn has_match(text: &[char], sep: &[char], i: usize) -> (found: bool)
    ensures
        found == matches_at(text@, sep@, i as int),
{
    if sep.len() > text.len() || i > text.len() - sep.len() {
        return false;
    }
    let mut k: usize = 0;
    while k < sep.len()
        invariant
            k <= sep.len(),
            i + sep.len() <= text.len(),
            forall|j: int| 0 <= j < k ==> text@[i + j] == sep@[j],
        decreases sep.len() - k,
    {
        if text[i + k] != sep[k] {
            proof {
                let window = text@.subrange(i as int, i + sep.len());
                assert(window[k as int] == text@[i + k]);
            }
            return false;
        }
        k += 1;
    }
    assert(text@.subrange(i as int, i + sep.len()) =~= sep@);
    true
}

/// A copy of the characters of `text` from `from` up to `to`.
pub fn copy_range(text: &[char], from: usize, to: usize) -> (out: Vec<char>)
    requires
        from <= to <= text.len(),
    ensures
        out@ == text@.subrange(from as int, to as int),
{
    let mut out: Vec<char> = Vec::new();
    let mut i: usize = from;
    while i < to
        invariant
            from <= i <= to <= text.len(),
            out@ == text@.subrange(from as int, i as int),
        decreases to - i,
    {
        out.push(text[i]);
        assert(text@.subrange(from as int, i + 1) =~= text@.subrange(from as int, i as int).push(
            text@[i as int],
        ));
        i += 1;
    }
    out
}

/// Appends the characters of `more` to `out`.
pub fn append_chars(out: &mut Vec<char>, more: &[char])
    ensures
        final(out)@ == old(out)@ + more@,
{
    let mut i: usize = 0;
    while i < more.len()
        invariant
            i <= more.len(),
            out@ == old(out)@ + more@.take(i as int),
        decreases more.len() - i,
    {
        out.push(more[i]);
        assert(more@.take(i + 1) =~= more@.take(i as int).push(more@[i as int]));
        i += 1;
    }
    assert(more@.take(more.len() as int) =~= more@);
}

/// Cuts `text` at every place where `sep` stands, left to right.
pub fn split_chars(text: &[char], sep: &[char]) -> (pieces: Vec<Vec<char>>)
    ensures
        texts_of(pieces@) == split(text@, sep@),
        pieces@.len() >= 1,
{
    let mut pieces: Vec<Vec<char>> = Vec::new();
    if sep.len() == 0 {
        let whole = copy_range(text, 0, text.len());
        pieces.push(whole);
        assert(texts_of(pieces@) =~= seq![text@.subrange(0, text@.len() as int)]);
        return pieces;
    }
    let mut start: usize = 0;
    let mut i: usize = 0;
    while i < text.len()
        invariant
            sep.len() > 0,
            start <= i <= text.len(),
            next_match(text@, sep@, start as int) == next_match(text@, sep@, i as int),
            texts_of(pieces@) + split_from(text@, sep@, start as int) == split(text@, sep@),
        decreases text.len() - i,
    {
        if has_match(text, sep, i) {
            let ghost before = texts_of(pieces@);
            let piece = copy_range(text, start, i);
            pieces.push(piece);
            assert(texts_of(pieces@) =~= before.push(text@.subrange(start as int, i as int)));
            assert(before + split_from(text@, sep@, start as int) =~= before.push(
                text@.subrange(start as int, i as int),
            ) + split_from(text@, sep@, i + sep.len()));
            i += sep.len();
            start = i;
        } else {
            i += 1;
        }
    }
    let ghost before = texts_of(pieces@);
    let piece = copy_range(text, start, text.len());
    pieces.push(piece);
    assert(texts_of(pieces@) =~= before.push(text@.subrange(start as int, text.len() as int)));
    assert(texts_of(pieces@) =~= before + split_from(text@, sep@, start as int));
    pieces
}

/// The line break, as a string.
pub fn crlf_str() -> (s: &'static str)
    ensures
        s@ == crlf(),
{
    proof {
        reveal_strlit("\r\n");
    }
    let s = "\r\n";
    assert(s@ =~= crlf());
    s
}

/// The character sequences of a list of strings.
pub open spec fn strings_of(strings: Seq<String>) -> Seq<Seq<char>> {
    strings.map_values(|s: String| s@)
}

/// Cuts a string at every place where `sep` stands, left to right.
pub fn split_str(text: &str, sep: &str) -> (pieces: Vec<String>)
    ensures
        strings_of(pieces@) == split(text@, sep@),
        pieces@.len() >= 1,
{
    let chars = to_chars(text);
    let sep_chars = to_chars(sep);
    let parts = split_chars(chars.as_slice(), sep_chars.as_slice());
    let mut pieces: Vec<String> = Vec::new();
    let mut i: usize = 0;
    while i < parts.len()
        invariant
            i <= parts.len(),
            strings_of(pieces@) == texts_of(parts@).take(i as int),
        decreases parts.len() - i,
    {
        let ghost before = strings_of(pieces@);
        let piece = from_chars(parts[i].as_slice());
        pieces.push(piece);
        assert(strings_of(pieces@) =~= before.push(parts@[i as int]@));
        assert(texts_of(parts@).take(i + 1) =~= texts_of(parts@).take(i as int).push(
            parts@[i as int]@,
        ));
        i += 1;
    }
    assert(texts_of(parts@).take(parts.len() as int) =~= texts_of(parts@));
    pieces
}

/// A run of `n` spaces.
pub open spec fn spaces(n: nat) -> Seq<char> {
    Seq::new(n, |i: int| ' ')
}

/// `n` copies of a text, one after the other.
pub open spec fn repeated(text: Seq<char>, n: nat) -> Seq<char>
    decreases n,
{
    if n == 0 {
        Seq::empty()
    } else {
        repeated(text, (n - 1) as nat) + text
    }
}

/// A text that holds neither a carriage return nor a line feed holds no
/// line break.
pub proof fn lemma_unbroken_is_free(s: Seq<char>)
    requires
        unbroken(s),
    ensures
        free_of(s, crlf()),
{
    assert forall|j: int| !matches_at(s, crlf(), j) by {
        if matches_at(s, crlf(), j) {
            assert(s.subrange(j, j + 2)[0] == s[j]);
        }
    }
}

/// Copies of a text can be counted from the front as well as from the back.
pub proof fn lemma_repeated_front(text: Seq<char>, n: nat)
    requires
        n > 0,
    ensures
        repeated(text, n) == text + repeated(text, (n - 1) as nat),
    decreases n,
{
    if n == 1 {
        assert(repeated(text, 0) =~= Seq::<char>::empty());
        assert(repeated(text, 1) =~= text + repeated(text, 0));
    } else {
        lemma_repeated_front(text, (n - 1) as nat);
        assert(repeated(text, n) =~= text + repeated(text, (n - 1) as nat));
    }
}

/// Rows that each hold one line break add one line each to what stands
/// around them: where `head`, `row` and `tail` hold neither a carriage return
/// nor a line feed, `n` copies of `row`, line break, `tail` between `head`
/// and `rest` make `n` lines more than the rest has behind what the last
/// line break left over.
pub proof fn lemma_lines_of_rows(
    head: Seq<char>,
    row: Seq<char>,
    tail: Seq<char>,
    n: nat,
    rest: Seq<char>,
)
    requires
        unbroken(head),
        unbroken(row),
        unbroken(tail),
    ensures
        split(head + repeated(row + crlf() + tail, n) + rest, crlf()).len() == n + split(
            (if n == 0 {
                head
            } else {
                tail
            }) + rest,
            crlf(),
        ).len(),
    decreases n,
{
    let band = row + crlf() + tail;
    if n == 0 {
        assert(head + repeated(band, 0) + rest =~= head + rest);
    } else {
        let fewer = (n - 1) as nat;
        lemma_repeated_front(band, n);
        let first = head + row;
        let behind = tail + repeated(band, fewer) + rest;
        assert(head + repeated(band, n) + rest =~= first + crlf() + behind);
        lemma_unbroken_is_free(first);
        lemma_split_after_line(first, behind);
        lemma_lines_of_rows(tail, row, tail, fewer, rest);
    }
}

/// Appends `n` spaces to `out`.
pub fn push_spaces(out: &mut String, n: usize)
    ensures
        final(out)@ == old(out)@ + spaces(n as nat),
{
    let mut i: usize = 0;
    while i < n
        invariant
            i <= n,
            out@ == old(out)@ + spaces(i as nat),
        decreases n - i,
    {
        let ghost before = out@;
        out.push(' ');
        assert(out@ =~= old(out)@ + spaces((i + 1) as nat));
        i += 1;
    }
}

/// Appends `n` copies of `text` to `out`.
pub fn push_repeated(out: &mut String, text: &str, n: usize)
    ensures
        final(out)@ == old(out)@ + repeated(text@, n as nat),
{
    let mut i: usize = 0;
    assert(out@ =~= old(out)@ + repeated(text@, 0));
    while i < n
        invariant
            i <= n,
            out@ == old(out)@ + repeated(text@, i as nat),
        decreases n - i,
    {
        out.append(text);
        assert(out@ =~= old(out)@ + repeated(text@, (i + 1) as nat));
        i += 1;
    }
}

} // verus!
