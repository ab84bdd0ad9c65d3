//! The text rope behind a buffer: what it holds, and how it counts lines and
//! UTF-16 code units.

use ropey::Rope;
use vstd::prelude::*;

verus! {

broadcast use vstd::string::group_string_axioms;

use crate::text::texts;

/// A rope of text.
#[verifier::external_type_specification]
#[verifier::external_body]
pub struct ExRope(ropey::Rope);

/// The characters that a rope holds.
pub uninterp spec fn rope_text(rope: Rope) -> Seq<char>;

/// Whether a line break ends with the character at `i`: a line feed, vertical
/// tab, form feed, next line, line or paragraph separator, or a carriage return
/// that no line feed follows.
pub open spec fn break_ends_at(s: Seq<char>, i: int) -> bool {
    ||| s[i] == '\u{a}' || s[i] == '\u{b}' || s[i] == '\u{c}'
    ||| s[i] == '\u{85}' || s[i] == '\u{2028}' || s[i] == '\u{2029}'
    ||| s[i] == '\u{d}' && !(i + 1 < s.len() && s[i + 1] == '\u{a}')
}

/// The line that position `i` is on: how many line breaks end before it.
pub open spec fn line_of(s: Seq<char>, i: int) -> int
    decreases i,
{
    if i <= 0 {
        0
    } else if break_ends_at(s, i - 1) {
        line_of(s, i - 1) + 1
    } else {
        line_of(s, i - 1)
    }
}

/// How many lines a text has.
pub open spec fn line_count(s: Seq<char>) -> int {
    line_of(s, s.len() as int) + 1
}

/// The last position at or before `n` that starts line `line`.
pub open spec fn line_start_up_to(s: Seq<char>, line: int, n: int) -> int
    decreases n,
{
    if n <= 0 {
        0
    } else if break_ends_at(s, n - 1) && line_of(s, n) == line {
        n
    } else {
        line_start_up_to(s, line, n - 1)
    }
}

/// Where line `line` starts; past the last line, the end of the text.
pub open spec fn line_start(s: Seq<char>, line: int) -> int {
    if line >= line_count(s) {
        s.len() as int
    } else {
        line_start_up_to(s, line, s.len() as int)
    }
}

/// The text of one line, its line break included.
pub open spec fn line_chars(s: Seq<char>, line: int) -> Seq<char> {
    s.subrange(line_start(s, line), line_start(s, line + 1))
}

/// The UTF-16 code units of one character.
pub open spec fn utf16_width(c: char) -> int {
    if c >= '\u{10000}' {
        2
    } else {
        1
    }
}

/// The UTF-16 code units of a text.
pub open spec fn utf16_len(s: Seq<char>) -> int
    decreases s.len(),
{
    if s.len() == 0 {
        0
    } else {
        utf16_len(s.drop_last()) + utf16_width(s.last())
    }
}

/// A list of texts, one after the other.
pub open spec fn joined(parts: Seq<Seq<char>>) -> Seq<char>
    decreases parts.len(),
{
    if parts.len() == 0 {
        Seq::empty()
    } else {
        joined(parts.drop_last()) + parts.last()
    }
}

/// The pieces that a rope holds its text in, in order.
pub uninterp spec fn rope_pieces(rope: Rope) -> Seq<Seq<char>>;

/// How many characters a text may have to be surely held in one piece: they are at most 512
/// bytes, and a piece takes more than that.
pub const ONE_PIECE_CHARS: usize = 128;

/// The pieces that a short text is held in: itself, or none where it is empty.
pub open spec fn one_piece(text: Seq<char>) -> Seq<Seq<char>> {
    if text.len() == 0 {
        Seq::empty()
    } else {
        seq![text]
    }
}

/// `Rope::from_str` builds a rope with exactly the given characters. A short text is held in
/// one piece; where a long one is parted is left open.
#[verifier::external_body]
pub(crate) fn rope_from_str(text: &str) -> (rope: Rope)
    ensures
        rope_text(rope) == text@,
        text@.len() <= ONE_PIECE_CHARS ==> rope_pieces(rope) == one_piece(text@),
{
    Rope::from_str(text)
}

/// `Rope`'s `Display` writes the rope's characters and nothing else.
#[verifier::external_body]
pub(crate) fn rope_to_string(rope: &Rope) -> (s: String)
    ensures
        s@ == rope_text(*rope),
{
    rope.to_string()
}

/// `Rope::clone` gives a rope with the same characters in the same pieces.
#[verifier::external_body]
pub(crate) fn rope_clone(rope: &Rope) -> (r: Rope)
    ensures
        rope_text(r) == rope_text(*rope),
        rope_pieces(r) == rope_pieces(*rope),
{
    rope.clone()
}

/// `Rope::len_chars` counts the rope's characters.
#[verifier::external_body]
pub(crate) fn rope_len_chars(rope: &Rope) -> (n: usize)
    ensures
        n == rope_text(*rope).len(),
{
    rope.len_chars()
}

/// `Rope::len_lines` counts the rope's lines: one more than its line breaks.
#[verifier::external_body]
pub(crate) fn rope_len_lines(rope: &Rope) -> (n: usize)
    ensures
        n == line_count(rope_text(*rope)),
{
    rope.len_lines()
}

/// `Rope::len_utf16_cu` counts the code units of the rope's text in UTF-16.
#[verifier::external_body]
pub(crate) fn rope_len_utf16(rope: &Rope) -> (n: usize)
    ensures
        n == utf16_len(rope_text(*rope)),
{
    rope.len_utf16_cu()
}

/// `Rope::char` reads one character; it panics past the end.
#[verifier::external_body]
pub(crate) fn rope_char(rope: &Rope, at: usize) -> (c: char)
    requires
        at < rope_text(*rope).len(),
    ensures
        c == rope_text(*rope)[at as int],
{
    rope.char(at)
}

/// `Rope::slice` reads a range of characters; it panics where the range is
/// reversed or leaves the rope.
#[verifier::external_body]
pub(crate) fn rope_slice(rope: &Rope, start: usize, end: usize) -> (s: String)
    requires
        start <= end <= rope_text(*rope).len(),
    ensures
        s@ == rope_text(*rope).subrange(start as int, end as int),
{
    rope.slice(start..end).to_string()
}

/// `Rope::line` reads one line with its line break; it panics past the last
/// line.
#[verifier::external_body]
pub(crate) fn rope_line(rope: &Rope, line: usize) -> (s: String)
    requires
        line < line_count(rope_text(*rope)),
    ensures
        s@ == line_chars(rope_text(*rope), line as int),
{
    rope.line(line).to_string()
}

/// `Rope::char_to_line` counts the line breaks before a position; it panics
/// past the end.
#[verifier::external_body]
pub(crate) fn rope_char_to_line(rope: &Rope, at: usize) -> (line: usize)
    requires
        at <= rope_text(*rope).len(),
    ensures
        line == line_of(rope_text(*rope), at as int),
{
    rope.char_to_line(at)
}

/// `Rope::line_to_char` finds where a line starts, and the end of the text for
/// the line past the last; it panics beyond that.
#[verifier::external_body]
pub(crate) fn rope_line_to_char(rope: &Rope, line: usize) -> (at: usize)
    requires
        line <= line_count(rope_text(*rope)),
    ensures
        at == line_start(rope_text(*rope), line as int),
{
    rope.line_to_char(line)
}

/// `Rope::insert` puts text in front of the character at `at`; it panics past
/// the end.
#[verifier::external_body]
pub(crate) fn rope_insert(rope: &mut Rope, at: usize, text: &str)
    requires
        at <= rope_text(*old(rope)).len(),
    ensures
        rope_text(*final(rope)) == rope_text(*old(rope)).take(at as int) + text@ + rope_text(
            *old(rope),
        ).skip(at as int),
{
    rope.insert(at, text)
}

/// `Rope::remove` takes a range of characters out; it panics where the range is
/// reversed or leaves the rope.
#[verifier::external_body]
pub(crate) fn rope_remove(rope: &mut Rope, start: usize, end: usize)
    requires
        start <= end <= rope_text(*old(rope)).len(),
    ensures
        rope_text(*final(rope)) == rope_text(*old(rope)).take(start as int) + rope_text(
            *old(rope),
        ).skip(end as int),
{
    rope.remove(start..end)
}

/// `Rope::chunks` walks the rope's text in order, piece by piece. What the pieces are goes
/// by the name `rope_pieces`; where one ends and the next begins is the rope's own affair.
#[verifier::external_body]
pub(crate) fn rope_chunks(rope: &Rope) -> (chunks: Vec<String>)
    ensures
        texts(chunks@) == rope_pieces(*rope),
        joined(texts(chunks@)) == rope_text(*rope),
{
    rope.chunks().map(str::to_string).collect()
}

/// `char::is_alphanumeric`: the letters and numbers of Unicode.
pub uninterp spec fn alphanumeric(c: char) -> bool;

/// `char::is_alphanumeric`, with the ASCII letters and digits spelled out.
pub assume_specification[ char::is_alphanumeric ](c: char) -> (r: bool)
    ensures
        r == alphanumeric(c),
        c <= '\u{7f}' ==> r == ('a' <= c <= 'z' || 'A' <= c <= 'Z' || '0' <= c <= '9'),
;

/// Whether a character is a letter or a number: of ASCII, the letters and the digits.
pub open spec fn letter_or_number(c: char) -> bool {
    if c <= '\u{7f}' {
        'a' <= c <= 'z' || 'A' <= c <= 'Z' || '0' <= c <= '9'
    } else {
        alphanumeric(c)
    }
}

/// `line_of` never falls and grows by at most one per character.
pub proof fn lemma_line_of_monotonic(s: Seq<char>, i: int, j: int)
    requires
        0 <= i <= j,
    ensures
        0 <= line_of(s, i) <= line_of(s, j) <= line_of(s, i) + (j - i),
    decreases j,
{
    if i < j {
        lemma_line_of_monotonic(s, i, j - 1);
    } else if i > 0 {
        lemma_line_of_monotonic(s, 0, i - 1);
        reveal_with_fuel(line_of, 2);
    }
}

/// What `line_start_up_to` finds.
pub proof fn lemma_line_start_up_to(s: Seq<char>, line: int, n: int)
    requires
        0 <= n <= s.len(),
        0 <= line <= line_of(s, n),
    ensures
        0 <= line_start_up_to(s, line, n) <= n,
        line_of(s, line_start_up_to(s, line, n)) == line,
        forall|i: int|
            #![trigger line_of(s, i)]
            0 <= i < line_start_up_to(s, line, n) ==> line_of(s, i) < line,
    decreases n,
{
    if n > 0 {
        if break_ends_at(s, n - 1) && line_of(s, n) == line {
            assert forall|i: int| #![trigger line_of(s, i)] 0 <= i < n implies line_of(s, i)
                < line by {
                lemma_line_of_monotonic(s, i, n - 1);
            }
        } else {
            lemma_line_start_up_to(s, line, n - 1);
        }
    }
}

/// A line starts at the first position that is on it.
pub proof fn lemma_line_start(s: Seq<char>, line: int)
    requires
        0 <= line < line_count(s),
    ensures
        0 <= line_start(s, line) <= s.len(),
        line_of(s, line_start(s, line)) == line,
        forall|i: int|
            #![trigger line_of(s, i)]
            0 <= i < line_start(s, line) ==> line_of(s, i) < line,
{
    lemma_line_start_up_to(s, line, s.len() as int);
}

/// Lines start one after the other.
pub proof fn lemma_line_starts_ordered(s: Seq<char>, line: int)
    requires
        0 <= line < line_count(s),
    ensures
        0 <= line_start(s, line) <= line_start(s, line + 1) <= s.len(),
{
    lemma_line_start(s, line);
    if line + 1 < line_count(s) {
        lemma_line_start(s, line + 1);
        if line_start(s, line + 1) < line_start(s, line) {
            lemma_line_of_monotonic(s, line_start(s, line + 1), line_start(s, line));
        }
    }
}

/// A position lies between the start of its own line and the start of the next.
pub proof fn lemma_position_in_line(s: Seq<char>, i: int)
    requires
        0 <= i <= s.len(),
    ensures
        0 <= line_of(s, i) < line_count(s),
        line_start(s, line_of(s, i)) <= i,
{
    lemma_line_of_monotonic(s, i, s.len() as int);
    lemma_line_of_monotonic(s, 0, i);
    lemma_line_start(s, line_of(s, i));
}

/// UTF-16 length of two texts one after the other.
pub proof fn lemma_utf16_len_concat(a: Seq<char>, b: Seq<char>)
    ensures
        utf16_len(a + b) == utf16_len(a) + utf16_len(b),
        utf16_len(a) >= a.len(),
    decreases b.len(), a.len(),
{
    if b.len() > 0 {
        assert((a + b).drop_last() =~= a + b.drop_last());
        lemma_utf16_len_concat(a, b.drop_last());
    } else {
        assert(a + b =~= a);
        if a.len() > 0 {
            lemma_utf16_len_concat(a.drop_last(), b);
        }
    }
}

/// The first `k` parts are a prefix of all of them.
pub proof fn lemma_joined_prefix(parts: Seq<Seq<char>>, k: int)
    requires
        0 <= k <= parts.len(),
    ensures
        joined(parts.take(k)).is_prefix_of(joined(parts)),
        k < parts.len() ==> joined(parts.take(k + 1)) == joined(parts.take(k)) + parts[k],
    decreases parts.len() - k,
{
    if k < parts.len() {
        assert(parts.take(k + 1).drop_last() =~= parts.take(k));
        lemma_joined_prefix(parts, k + 1);
    } else {
        assert(parts.take(k) =~= parts);
    }
}

/// Text up to a place in part `k`, measured in UTF-16 code units.
pub proof fn lemma_utf16_in_part(parts: Seq<Seq<char>>, k: int, n: int)
    requires
        0 <= k < parts.len(),
        0 <= n <= parts[k].len(),
    ensures
        joined(parts.take(k)).len() + n <= joined(parts).len(),
        utf16_len(joined(parts).take(joined(parts.take(k)).len() + n)) == utf16_len(
            joined(parts.take(k)),
        ) + utf16_len(parts[k].take(n)),
        utf16_len(joined(parts.take(k))) + utf16_len(parts[k].take(n)) <= utf16_len(joined(parts)),
{
    let all = joined(parts);
    let done = joined(parts.take(k));
    let part = parts[k];
    lemma_joined_prefix(parts, k);
    lemma_joined_prefix(parts, k + 1);
    let cut = done.len() + n;
    assert(all.take(cut) =~= done + part.take(n)) by {
        assert forall|i: int| 0 <= i < cut implies all.take(cut)[i] == (done + part.take(n))[i] by {
            assert((done + part)[i] == all[i]);
        }
    }
    lemma_utf16_len_concat(done, part.take(n));
    lemma_utf16_len_concat(all.take(cut), all.skip(cut));
    lemma_utf16_len_concat(all.skip(cut), Seq::empty());
    assert(all.take(cut) + all.skip(cut) =~= all);
}

} // verus!
