//! An editable text buffer: a rope with a cursor, a selection, bounded undo and
//! redo, and markers that tell a changed buffer from a saved one.

use std::ops::Range;

use ropey::Rope;
use vstd::prelude::*;

use crate::shell::rope::{
    rope_char, rope_char_to_line, rope_chunks, rope_clone, rope_from_str, rope_insert, rope_len_chars,
    rope_len_lines, rope_len_utf16, rope_line, rope_line_to_char, rope_remove, rope_slice,
    rope_to_string, ONE_PIECE_CHARS,
};
use crate::text::{chars_of, copy_str, is_white_space, str_eq, string_of_range};

verus! {

broadcast use vstd::string::group_string_axioms;

use crate::shell::rope::{
    joined, lemma_joined_prefix, lemma_line_of_monotonic, lemma_line_start,
    lemma_line_starts_ordered, lemma_position_in_line, lemma_utf16_in_part, lemma_utf16_len_concat,
    letter_or_number, line_chars, line_count, line_of, line_start, one_piece, rope_pieces,
    rope_text, utf16_len,
};
use crate::text::{texts, white_space};

/// How many edits can be undone.
pub const UNDO_HISTORY_LIMIT: usize = 100;

/// A place in a text by line and column.
#[derive(Clone, Copy, Debug, Default, Eq, PartialEq)]
pub struct EditorCursor {
    pub line: usize,
    pub column: usize,
}

#[derive(Clone, Copy, Debug, Default, Eq, PartialEq)]
struct CursorState {
    cursor: usize,
    selection_anchor: Option<usize>,
}

#[derive(Debug)]
struct EditDelta {
    start: usize,
    inserted: String,
    deleted: String,
    before: CursorState,
    after: CursorState,
    before_marker: u64,
    after_marker: u64,
}

/// A text being edited.
pub struct TextBuffer {
    rope: Rope,
    cursor: usize,
    selection_anchor: Option<usize>,
    undo_stack: Vec<EditDelta>,
    redo_stack: Vec<EditDelta>,
    state_marker: u64,
    saved_marker: u64,
    next_marker: u64,
    texts: Ghost<Map<u64, Seq<char>>>,
}

/// A cursor and the far end of its selection.
pub struct CursorView {
    pub cursor: int,
    pub anchor: Option<int>,
}

/// One edit: `deleted` at `start` gave way to `inserted`.
pub struct DeltaView {
    pub start: int,
    pub inserted: Seq<char>,
    pub deleted: Seq<char>,
    pub before: CursorView,
    pub after: CursorView,
    pub before_marker: u64,
    pub after_marker: u64,
}

/// What a buffer holds. `pieces` are those that the text is held in, and `texts` remembers
/// the text that each marker stood for.
#[verifier::ext_equal]
pub struct BufferView {
    pub text: Seq<char>,
    pub pieces: Seq<Seq<char>>,
    pub at: CursorView,
    pub undo: Seq<DeltaView>,
    pub redo: Seq<DeltaView>,
    pub state_marker: u64,
    pub saved_marker: u64,
    pub next_marker: u64,
    pub texts: Map<u64, Seq<char>>,
}

impl CursorState {
    spec fn view(self) -> CursorView {
        CursorView {
            cursor: self.cursor as int,
            anchor: match self.selection_anchor {
                Some(a) => Some(a as int),
                None => None,
            },
        }
    }
}

impl EditDelta {
    spec fn view(self) -> DeltaView {
        DeltaView {
            start: self.start as int,
            inserted: self.inserted@,
            deleted: self.deleted@,
            before: self.before.view(),
            after: self.after.view(),
            before_marker: self.before_marker,
            after_marker: self.after_marker,
        }
    }
}

spec fn delta_views(stack: Seq<EditDelta>) -> Seq<DeltaView> {
    Seq::new(stack.len(), |i: int| stack[i].view())
}

impl View for TextBuffer {
    type V = BufferView;

    closed spec fn view(&self) -> BufferView {
        BufferView {
            text: rope_text(self.rope),
            pieces: rope_pieces(self.rope),
            at: CursorState { cursor: self.cursor, selection_anchor: self.selection_anchor }.view(),
            undo: delta_views(self.undo_stack@),
            redo: delta_views(self.redo_stack@),
            state_marker: self.state_marker,
            saved_marker: self.saved_marker,
            next_marker: self.next_marker,
            texts: self.texts@,
        }
    }
}

/// `text` with the characters in `[start, end)` replaced.
pub open spec fn spliced(text: Seq<char>, start: int, end: int, inserted: Seq<char>) -> Seq<char> {
    text.take(start) + inserted + text.skip(end)
}

/// The text before an edit.
pub open spec fn text_before(text: Seq<char>, d: DeltaView) -> Seq<char> {
    spliced(text, d.start, d.start + d.inserted.len(), d.deleted)
}

/// The text after an edit.
pub open spec fn text_after(text: Seq<char>, d: DeltaView) -> Seq<char> {
    spliced(text, d.start, d.start + d.deleted.len(), d.inserted)
}

/// Whether `part` stands in `text` at `start`.
pub open spec fn stands_at(text: Seq<char>, start: int, part: Seq<char>) -> bool {
    &&& 0 <= start
    &&& start + part.len() <= text.len()
    &&& text.subrange(start, start + part.len()) == part
}

/// A cursor inside a text of length `len`, with a selection that is not empty.
pub open spec fn cursor_within(c: CursorView, len: int) -> bool {
    &&& 0 <= c.cursor <= len
    &&& c.anchor matches Some(a) ==> 0 <= a <= len && a != c.cursor
}

/// The edits on the undo stack can be taken back one by one, starting from
/// `text`, and the markers they carry stand for the texts in between.
pub open spec fn undo_chain(text: Seq<char>, undo: Seq<DeltaView>, texts: Map<u64, Seq<char>>) -> bool
    decreases undo.len(),
{
    undo.len() > 0 ==> {
        let d = undo.last();
        &&& stands_at(text, d.start, d.inserted)
        &&& d.inserted != d.deleted
        &&& cursor_within(d.before, text_before(text, d).len() as int)
        &&& cursor_within(d.after, text.len() as int)
        &&& texts.contains_pair(d.before_marker, text_before(text, d))
        &&& texts.contains_pair(d.after_marker, text)
        &&& undo_chain(text_before(text, d), undo.drop_last(), texts)
    }
}

/// The edits on the redo stack can be made again one by one.
pub open spec fn redo_chain(text: Seq<char>, redo: Seq<DeltaView>, texts: Map<u64, Seq<char>>) -> bool
    decreases redo.len(),
{
    redo.len() > 0 ==> {
        let d = redo.last();
        &&& stands_at(text, d.start, d.deleted)
        &&& d.inserted != d.deleted
        &&& cursor_within(d.before, text.len() as int)
        &&& cursor_within(d.after, text_after(text, d).len() as int)
        &&& texts.contains_pair(d.before_marker, text)
        &&& texts.contains_pair(d.after_marker, text_after(text, d))
        &&& redo_chain(text_after(text, d), redo.drop_last(), texts)
    }
}

/// A well-formed buffer.
pub open spec fn buffer_wf(v: BufferView) -> bool {
    &&& cursor_within(v.at, v.text.len() as int)
    &&& v.text.len() <= usize::MAX
    &&& v.undo.len() + v.redo.len() <= UNDO_HISTORY_LIMIT
    &&& v.texts.contains_pair(v.state_marker, v.text)
    &&& v.texts.contains_key(v.saved_marker)
    &&& forall|m: u64| #[trigger] v.texts.contains_key(m) ==> m < v.next_marker
    &&& undo_chain(v.text, v.undo, v.texts)
    &&& redo_chain(v.text, v.redo, v.texts)
}

/// The stack with one more edit, the oldest dropped where the limit is reached.
pub open spec fn pushed_limited(stack: Seq<DeltaView>, d: DeltaView) -> Seq<DeltaView> {
    if stack.len() == UNDO_HISTORY_LIMIT {
        stack.drop_first().push(d)
    } else {
        stack.push(d)
    }
}

/// The smaller of two numbers.
pub open spec fn min_of(a: int, b: int) -> int {
    if a <= b {
        a
    } else {
        b
    }
}

/// Whether replacing `[start, end)` by `inserted` changes the text.
pub open spec fn edit_changes(v: BufferView, start: int, end: int, inserted: Seq<char>) -> bool {
    v.text.subrange(start, end) != inserted
}

/// The buffer after replacing `[start, end)` by `inserted`; a text that changed is held in
/// other `pieces`.
pub open spec fn edited(
    v: BufferView,
    start: int,
    end: int,
    inserted: Seq<char>,
    pieces: Seq<Seq<char>>,
) -> BufferView {
    if !edit_changes(v, start, end, inserted) {
        v
    } else {
        let text = spliced(v.text, start, end, inserted);
        let after = CursorView { cursor: start + inserted.len(), anchor: None };
        let d = DeltaView {
            start,
            inserted,
            deleted: v.text.subrange(start, end),
            before: v.at,
            after,
            before_marker: v.state_marker,
            after_marker: v.next_marker,
        };
        BufferView {
            text,
            pieces,
            at: after,
            undo: pushed_limited(v.undo, d),
            redo: Seq::empty(),
            state_marker: v.next_marker,
            saved_marker: v.saved_marker,
            next_marker: (v.next_marker + 1) as u64,
            texts: v.texts.insert(v.next_marker, text),
        }
    }
}

/// The buffer after taking the last edit back.
pub open spec fn undone(v: BufferView, pieces: Seq<Seq<char>>) -> BufferView {
    if v.undo.len() == 0 {
        v
    } else {
        let d = v.undo.last();
        BufferView {
            text: text_before(v.text, d),
            pieces,
            at: d.before,
            undo: v.undo.drop_last(),
            redo: v.redo.push(d),
            state_marker: d.before_marker,
            ..v
        }
    }
}

/// The buffer after making the last undone edit again.
pub open spec fn redone(v: BufferView, pieces: Seq<Seq<char>>) -> BufferView {
    if v.redo.len() == 0 {
        v
    } else {
        let d = v.redo.last();
        BufferView {
            text: text_after(v.text, d),
            pieces,
            at: d.after,
            undo: v.undo.push(d),
            redo: v.redo.drop_last(),
            state_marker: d.after_marker,
            ..v
        }
    }
}

/// The selected range, where something is selected.
pub open spec fn selection_of(v: BufferView) -> Option<(int, int)> {
    match v.at.anchor {
        Some(a) => if a < v.at.cursor {
            Some((a, v.at.cursor))
        } else if v.at.cursor < a {
            Some((v.at.cursor, a))
        } else {
            None
        },
        None => None,
    }
}

/// The buffer with the cursor at `offset`, the selection kept from where it began
/// or dropped.
pub open spec fn moved_to(v: BufferView, offset: int, extend: bool) -> BufferView {
    let cursor = min_of(offset, v.text.len() as int);
    let kept = if extend {
        match v.at.anchor {
            Some(a) => Some(a),
            None => Some(v.at.cursor),
        }
    } else {
        None
    };
    let anchor = if kept == Some(cursor) {
        None
    } else {
        kept
    };
    BufferView { at: CursorView { cursor, anchor }, ..v }
}

/// The buffer with `[start, end)` selected, in either order.
pub open spec fn with_selection(v: BufferView, start: int, end: int, reversed: bool) -> BufferView {
    let s = min_of(start, v.text.len() as int);
    let e = min_of(end, v.text.len() as int);
    let lo = min_of(s, e);
    let hi = if s <= e {
        e
    } else {
        s
    };
    let at = if lo == hi {
        CursorView { cursor: lo, anchor: None }
    } else if reversed {
        CursorView { cursor: lo, anchor: Some(hi) }
    } else {
        CursorView { cursor: hi, anchor: Some(lo) }
    };
    BufferView { at, ..v }
}

/// A buffer over a text that counts as saved: a short text is held in one piece, any other
/// in `pieces`.
pub open spec fn saved_buffer(text: Seq<char>, pieces: Seq<Seq<char>>) -> BufferView {
    BufferView {
        text,
        pieces: if text.len() <= ONE_PIECE_CHARS {
            one_piece(text)
        } else {
            pieces
        },
        at: CursorView { cursor: 0, anchor: None },
        undo: Seq::empty(),
        redo: Seq::empty(),
        state_marker: 0,
        saved_marker: 0,
        next_marker: 1,
        texts: Map::empty().insert(0, text),
    }
}

/// The buffer with its text taken as the saved one.
pub open spec fn marked_saved(v: BufferView) -> BufferView {
    BufferView { saved_marker: v.state_marker, ..v }
}

/// The buffer made dirty with the same text.
pub open spec fn marked_dirty(v: BufferView) -> BufferView {
    if v.state_marker != v.saved_marker {
        v
    } else {
        BufferView {
            state_marker: v.next_marker,
            next_marker: (v.next_marker + 1) as u64,
            texts: v.texts.insert(v.next_marker, v.text),
            ..v
        }
    }
}

/// The buffer after typing text over the selection or at the cursor.
pub open spec fn typed(v: BufferView, text: Seq<char>, pieces: Seq<Seq<char>>) -> BufferView {
    if text.len() == 0 {
        v
    } else {
        match selection_of(v) {
            Some((start, end)) => edited(v, start, end, text, pieces),
            None => edited(v, v.at.cursor, v.at.cursor, text, pieces),
        }
    }
}

/// Whether typing text changes the buffer's text.
pub open spec fn typing_changes(v: BufferView, text: Seq<char>) -> bool {
    text.len() > 0 && match selection_of(v) {
        Some((start, end)) => edit_changes(v, start, end, text),
        None => true,
    }
}

/// The buffer without what is selected.
pub open spec fn without_selection(v: BufferView, pieces: Seq<Seq<char>>) -> BufferView {
    match selection_of(v) {
        Some((start, end)) => edited(v, start, end, Seq::empty(), pieces),
        None => v,
    }
}

/// The buffer without what is selected or, where nothing is, without the character before
/// the cursor.
pub open spec fn deleted_backward(v: BufferView, pieces: Seq<Seq<char>>) -> BufferView {
    if selection_of(v) is Some || v.at.cursor == 0 {
        without_selection(v, pieces)
    } else {
        edited(v, v.at.cursor - 1, v.at.cursor, Seq::empty(), pieces)
    }
}

/// The buffer without what is selected or, where nothing is, without the character after
/// the cursor.
pub open spec fn deleted_forward(v: BufferView, pieces: Seq<Seq<char>>) -> BufferView {
    if selection_of(v) is Some || v.at.cursor == v.text.len() {
        without_selection(v, pieces)
    } else {
        edited(v, v.at.cursor, v.at.cursor + 1, Seq::empty(), pieces)
    }
}

/// The place before an offset; the start stays.
pub open spec fn place_before(offset: int) -> int {
    if offset == 0 {
        0
    } else {
        offset - 1
    }
}

/// The buffer after a step to the left: to the start of the selection, or by a character.
pub open spec fn moved_left(v: BufferView) -> BufferView {
    moved_to(
        v,
        match selection_of(v) {
            Some((start, _)) => start,
            None => place_before(v.at.cursor),
        },
        false,
    )
}

/// The buffer after a step to the right: to the end of the selection, or by a character.
pub open spec fn moved_right(v: BufferView) -> BufferView {
    moved_to(
        v,
        match selection_of(v) {
            Some((_, end)) => end,
            None => v.at.cursor + 1,
        },
        false,
    )
}

/// The buffer with the selection drawn one character to the left.
pub open spec fn extended_left(v: BufferView) -> BufferView {
    moved_to(v, place_before(v.at.cursor), true)
}

/// The buffer with the selection drawn one character to the right.
pub open spec fn extended_right(v: BufferView) -> BufferView {
    moved_to(v, v.at.cursor + 1, true)
}

/// The buffer with the word at a line and column selected, or with the cursor there where
/// no word is.
pub open spec fn word_selected(v: BufferView, line: int, column: int) -> BufferView {
    let offset = offset_of(v.text, line, column);
    match word_at(v.text, offset) {
        Some((start, end)) => with_selection(v, start, end, false),
        None => moved_to(v, offset, false),
    }
}

/// A line without the line feeds and carriage returns at its end.
pub open spec fn without_break(line: Seq<char>) -> Seq<char>
    decreases line.len(),
{
    if line.len() > 0 && (line.last() == '\n' || line.last() == '\r') {
        without_break(line.drop_last())
    } else {
        line
    }
}

/// The text of one line as it is shown.
pub open spec fn shown_line(text: Seq<char>, line: int) -> Seq<char> {
    without_break(line_chars(text, line))
}

/// The offset of a line and column, both brought into range.
pub open spec fn offset_of(text: Seq<char>, line: int, column: int) -> int {
    let l = min_of(line, line_count(text) - 1);
    line_start(text, l) + min_of(column, shown_line(text, l).len() as int)
}

/// The line and column of an offset, brought into range.
pub open spec fn place_of(text: Seq<char>, offset: int) -> (int, int) {
    let o = min_of(offset, text.len() as int);
    let l = line_of(text, o);
    (l, o - line_start(text, l))
}

/// Letters, numbers, `_`, `-` and `'` make up words.
pub open spec fn word_character(c: char) -> bool {
    letter_or_number(c) || c == '_' || c == '-' || c == '\''
}

/// Where the run of word characters that ends before `i` begins.
pub open spec fn word_start(text: Seq<char>, i: int) -> int
    decreases i,
{
    if i > 0 && word_character(text[i - 1]) {
        word_start(text, i - 1)
    } else {
        i
    }
}

/// Where the run of word characters that begins at `i` ends.
pub open spec fn word_end(text: Seq<char>, i: int) -> int
    decreases text.len() - i,
{
    if i < text.len() && word_character(text[i]) {
        word_end(text, i + 1)
    } else {
        i
    }
}

/// The word at an offset: the one under it or, at the end of the text, the one
/// that ends there.
pub open spec fn word_at(text: Seq<char>, offset: int) -> Option<(int, int)> {
    let o = min_of(offset, text.len() as int);
    if o < text.len() && word_character(text[o]) {
        Some((word_start(text, o), word_end(text, o + 1)))
    } else if o == text.len() && o > 0 && word_character(text[o - 1]) {
        Some((word_start(text, o - 1), word_end(text, o)))
    } else {
        None
    }
}

/// How many words of a text begin before `i`.
pub open spec fn words_before(s: Seq<char>, i: int) -> int
    decreases i,
{
    if i <= 0 {
        0
    } else if !white_space(s[i - 1]) && (i == 1 || white_space(s[i - 2])) {
        words_before(s, i - 1) + 1
    } else {
        words_before(s, i - 1)
    }
}

/// How many words a text has: its longest runs without white space.
pub open spec fn words_of(s: Seq<char>) -> int {
    words_before(s, s.len() as int)
}

/// How many words a list of texts has, each counted by itself.
pub open spec fn words_in(pieces: Seq<Seq<char>>) -> int
    decreases pieces.len(),
{
    if pieces.len() == 0 {
        0
    } else {
        words_in(pieces.drop_last()) + words_of(pieces.last())
    }
}

/// Whether `r` is the character that UTF-16 offset `u` falls on: the last one that
/// starts at or before it, the end of the text where `u` lies beyond.
pub open spec fn utf16_falls_on(s: Seq<char>, u: int, r: int) -> bool {
    &&& 0 <= r <= s.len()
    &&& utf16_len(s.take(r)) <= u
    &&& r < s.len() ==> u < utf16_len(s.take(r + 1))
}

/// Whether a range of UTF-16 offsets does not run backwards over a character: its end is not
/// before its start, or both fall on the same character.
pub open spec fn runs_forwards(s: Seq<char>, start: int, end: int) -> bool {
    start <= end || forall|a: int, b: int|
        #![trigger utf16_falls_on(s, start, a), utf16_falls_on(s, end, b)]
        utf16_falls_on(s, start, a) && utf16_falls_on(s, end, b) ==> a <= b
}

/// The UTF-16 offset of a character offset, brought into range.
pub open spec fn utf16_of(s: Seq<char>, offset: int) -> int {
    utf16_len(s.take(min_of(offset, s.len() as int)))
}

proof fn lemma_undo_chain_grows(
    text: Seq<char>,
    undo: Seq<DeltaView>,
    texts: Map<u64, Seq<char>>,
    marker: u64,
    new_text: Seq<char>,
)
    requires
        undo_chain(text, undo, texts),
        !texts.contains_key(marker),
    ensures
        undo_chain(text, undo, texts.insert(marker, new_text)),
    decreases undo.len(),
{
    if undo.len() > 0 {
        lemma_undo_chain_grows(
            text_before(text, undo.last()),
            undo.drop_last(),
            texts,
            marker,
            new_text,
        );
    }
}

proof fn lemma_redo_chain_grows(
    text: Seq<char>,
    redo: Seq<DeltaView>,
    texts: Map<u64, Seq<char>>,
    marker: u64,
    new_text: Seq<char>,
)
    requires
        redo_chain(text, redo, texts),
        !texts.contains_key(marker),
    ensures
        redo_chain(text, redo, texts.insert(marker, new_text)),
    decreases redo.len(),
{
    if redo.len() > 0 {
        lemma_redo_chain_grows(
            text_after(text, redo.last()),
            redo.drop_last(),
            texts,
            marker,
            new_text,
        );
    }
}

proof fn lemma_undo_chain_drops_oldest(
    text: Seq<char>,
    undo: Seq<DeltaView>,
    texts: Map<u64, Seq<char>>,
)
    requires
        undo_chain(text, undo, texts),
        undo.len() > 0,
    ensures
        undo_chain(text, undo.drop_first(), texts),
    decreases undo.len(),
{
    if undo.len() > 1 {
        lemma_undo_chain_drops_oldest(text_before(text, undo.last()), undo.drop_last(), texts);
        assert(undo.drop_first().drop_last() =~= undo.drop_last().drop_first());
        assert(undo.drop_first().last() == undo.last());
    }
}

/// Splicing `b` over `a` and `a` over `b` again gives the text back.
proof fn lemma_splice_back(text: Seq<char>, start: int, a: Seq<char>, b: Seq<char>)
    requires
        stands_at(text, start, a),
    ensures
        stands_at(spliced(text, start, start + a.len(), b), start, b),
        spliced(spliced(text, start, start + a.len(), b), start, start + b.len(), a) == text,
{
    let t = spliced(text, start, start + a.len(), b);
    assert(t.subrange(start, start + b.len()) =~= b);
    assert(t.take(start) =~= text.take(start));
    assert(t.skip(start + b.len()) =~= text.skip(start + a.len()));
    assert(text.subrange(start, start + a.len()) == a);
    assert(spliced(t, start, start + b.len(), a) =~= text) by {
        assert forall|i: int| 0 <= i < text.len() implies spliced(t, start, start + b.len(), a)[i]
            == text[i] by {
            if start <= i < start + a.len() {
                assert(a[i - start] == text.subrange(start, start + a.len())[i - start]);
            }
        }
    }
}

/// An edit keeps a buffer well-formed.
pub proof fn lemma_edited_wf(
    v: BufferView,
    start: int,
    end: int,
    inserted: Seq<char>,
    pieces: Seq<Seq<char>>,
)
    requires
        buffer_wf(v),
        0 <= start <= end <= v.text.len(),
        v.next_marker < u64::MAX,
        spliced(v.text, start, end, inserted).len() <= usize::MAX,
    ensures
        buffer_wf(edited(v, start, end, inserted, pieces)),
{
    if edit_changes(v, start, end, inserted) {
        let e = edited(v, start, end, inserted, pieces);
        let deleted = v.text.subrange(start, end);
        lemma_splice_back(v.text, start, deleted, inserted);
        assert(start + deleted.len() == end);
        let d = e.undo.last();
        assert(text_before(e.text, d) == v.text);
        lemma_undo_chain_grows(v.text, v.undo, v.texts, v.next_marker, e.text);
        if v.undo.len() == UNDO_HISTORY_LIMIT {
            lemma_undo_chain_drops_oldest(v.text, v.undo, e.texts);
            assert(e.undo.drop_last() =~= v.undo.drop_first());
        } else {
            assert(e.undo.drop_last() =~= v.undo);
        }
        assert forall|m: u64| #[trigger] e.texts.contains_key(m) implies m < e.next_marker by {
            if m != v.next_marker {
                assert(v.texts.contains_key(m));
            }
        }
    }
}

/// Undoing keeps a buffer well-formed.
pub proof fn lemma_undone_wf(v: BufferView, pieces: Seq<Seq<char>>)
    requires
        buffer_wf(v),
        v.undo.len() > 0 ==> text_before(v.text, v.undo.last()).len() <= usize::MAX,
    ensures
        buffer_wf(undone(v, pieces)),
{
    if v.undo.len() > 0 {
        let u = undone(v, pieces);
        let d = v.undo.last();
        lemma_splice_back(v.text, d.start, d.inserted, d.deleted);
        assert(u.redo.drop_last() =~= v.redo);
        assert(u.redo.last() == d);
        assert(text_after(u.text, d) == v.text);
    }
}

/// Redoing keeps a buffer well-formed.
pub proof fn lemma_redone_wf(v: BufferView, pieces: Seq<Seq<char>>)
    requires
        buffer_wf(v),
        v.redo.len() > 0 ==> text_after(v.text, v.redo.last()).len() <= usize::MAX,
    ensures
        buffer_wf(redone(v, pieces)),
{
    if v.redo.len() > 0 {
        let r = redone(v, pieces);
        let d = v.redo.last();
        lemma_splice_back(v.text, d.start, d.deleted, d.inserted);
        assert(r.undo.drop_last() =~= v.undo);
        assert(r.undo.last() == d);
        assert(text_before(r.text, d) == v.text);
    }
}

/// Undo takes an edit back: the text, the cursor, the selection and the marker are
/// those from before the edit.
pub proof fn law_undo_reverts_edit(
    v: BufferView,
    start: int,
    end: int,
    inserted: Seq<char>,
    pieces: Seq<Seq<char>>,
    later_pieces: Seq<Seq<char>>,
)
    requires
        buffer_wf(v),
        0 <= start <= end <= v.text.len(),
        edit_changes(v, start, end, inserted),
    ensures
        ({
            let back = undone(edited(v, start, end, inserted, pieces), later_pieces);
            &&& back.text == v.text
            &&& back.at == v.at
            &&& back.state_marker == v.state_marker
            &&& back.saved_marker == v.saved_marker
        }),
{
    lemma_splice_back(v.text, start, v.text.subrange(start, end), inserted);
}

/// Redo makes an undone edit again: the text and both histories come back, and the
/// cursor is where the edit left it.
pub proof fn law_redo_reverts_undo(
    v: BufferView,
    pieces: Seq<Seq<char>>,
    later_pieces: Seq<Seq<char>>,
)
    requires
        buffer_wf(v),
        v.undo.len() > 0,
    ensures
        redone(undone(v, pieces), later_pieces).text == v.text,
        redone(undone(v, pieces), later_pieces).undo == v.undo,
        redone(undone(v, pieces), later_pieces).redo == v.redo,
        redone(undone(v, pieces), later_pieces).at == v.undo.last().after,
        redone(undone(v, pieces), later_pieces).state_marker == v.undo.last().after_marker,
{
    let d = v.undo.last();
    lemma_splice_back(v.text, d.start, d.inserted, d.deleted);
    assert(undone(v, pieces).redo.drop_last() =~= v.redo);
    assert(v.undo.drop_last().push(d) =~= v.undo);
}

/// Undo takes a redone edit back: the text and both histories come back, and the
/// cursor is where it stood before the edit.
pub proof fn law_undo_reverts_redo(
    v: BufferView,
    pieces: Seq<Seq<char>>,
    later_pieces: Seq<Seq<char>>,
)
    requires
        buffer_wf(v),
        v.redo.len() > 0,
    ensures
        undone(redone(v, pieces), later_pieces).text == v.text,
        undone(redone(v, pieces), later_pieces).undo == v.undo,
        undone(redone(v, pieces), later_pieces).redo == v.redo,
        undone(redone(v, pieces), later_pieces).at == v.redo.last().before,
        undone(redone(v, pieces), later_pieces).state_marker == v.redo.last().before_marker,
{
    let d = v.redo.last();
    lemma_splice_back(v.text, d.start, d.deleted, d.inserted);
    assert(redone(v, pieces).undo.drop_last() =~= v.undo);
    assert(v.redo.drop_last().push(d) =~= v.redo);
}

/// A buffer that is not dirty holds the text that was last saved, however many
/// edits, undos and redos lie in between.
pub proof fn law_clean_buffer_holds_saved_text(v: BufferView)
    requires
        buffer_wf(v),
        v.state_marker == v.saved_marker,
    ensures
        v.texts[v.saved_marker] == v.text,
{
}

/// Converting a character offset to UTF-16 and back gives the offset.
pub proof fn law_utf16_round_trip(s: Seq<char>, offset: int, r: int)
    requires
        0 <= offset <= s.len(),
        utf16_falls_on(s, utf16_of(s, offset), r),
    ensures
        r == offset,
{
    if r < offset {
        lemma_utf16_take_grows(s, r + 1, offset);
    } else if offset < r {
        lemma_utf16_take_grows(s, offset, r);
    }
}

/// Every character takes at least one UTF-16 code unit.
pub proof fn lemma_utf16_take_grows(s: Seq<char>, i: int, j: int)
    requires
        0 <= i <= j <= s.len(),
    ensures
        utf16_len(s.take(j)) >= utf16_len(s.take(i)) + (j - i),
{
    lemma_utf16_len_concat(s.take(i), s.subrange(i, j));
    lemma_utf16_len_concat(s.subrange(i, j), Seq::empty());
    assert(s.take(i) + s.subrange(i, j) =~= s.take(j));
}

/// A line without its break is the start of the line.
pub proof fn lemma_without_break_prefix(line: Seq<char>)
    ensures
        without_break(line).len() <= line.len(),
        without_break(line) == line.take(without_break(line).len() as int),
    decreases line.len(),
{
    if line.len() > 0 && (line.last() == '\n' || line.last() == '\r') {
        lemma_without_break_prefix(line.drop_last());
        let n = without_break(line.drop_last()).len() as int;
        assert(line.drop_last().take(n) =~= line.take(n));
    } else {
        assert(line.take(line.len() as int) =~= line);
    }
}

/// An offset made from a line and column lies in the text.
pub proof fn lemma_offset_in_text(text: Seq<char>, line: int, column: int)
    requires
        0 <= line,
        0 <= column,
    ensures
        0 <= offset_of(text, line, column) <= text.len(),
        0 <= min_of(line, line_count(text) - 1) < line_count(text),
{
    lemma_line_of_monotonic(text, 0, text.len() as int);
    let l = min_of(line, line_count(text) - 1);
    lemma_line_starts_ordered(text, l);
    lemma_without_break_prefix(line_chars(text, l));
}

/// Whether a text ends in the middle of a word.
pub open spec fn ends_in_word(s: Seq<char>) -> bool {
    s.len() > 0 && !white_space(s.last())
}

/// Whether a text starts with a word.
pub open spec fn starts_with_word(s: Seq<char>) -> bool {
    s.len() > 0 && !white_space(s[0])
}

proof fn lemma_words_before_prefix(a: Seq<char>, b: Seq<char>, i: int)
    requires
        i <= a.len(),
    ensures
        words_before(a + b, i) == words_before(a, i),
    decreases i,
{
    if i > 0 {
        lemma_words_before_prefix(a, b, i - 1);
    }
}

proof fn lemma_words_of_both(a: Seq<char>, b: Seq<char>, i: int)
    requires
        0 <= i <= b.len(),
    ensures
        words_before(a + b, a.len() + i) == words_of(a) + words_before(b, i) - (if i > 0
            && ends_in_word(a) && starts_with_word(b) {
            1int
        } else {
            0
        }),
    decreases i,
{
    if i == 0 {
        lemma_words_before_prefix(a, b, a.len() as int);
    } else {
        lemma_words_of_both(a, b, i - 1);
        assert((a + b)[a.len() + i - 1] == b[i - 1]);
        if i > 1 {
            assert((a + b)[a.len() + i - 2] == b[i - 2]);
        } else if a.len() > 0 {
            assert((a + b)[a.len() - 1] == a.last());
        }
    }
}

/// No word is missed where each piece is counted by itself, and a word that no two pieces
/// part between them counts once.
pub proof fn law_unparted_words_count_once(pieces: Seq<Seq<char>>)
    ensures
        words_of(joined(pieces)) <= words_in(pieces),
        (forall|i: int|
            0 < i < pieces.len() ==> !(ends_in_word(pieces[i - 1]) && starts_with_word(
                #[trigger] pieces[i],
            ))) && (forall|i: int| 0 <= i < pieces.len() ==> (#[trigger] pieces[i]).len() > 0)
            ==> words_in(pieces) == words_of(joined(pieces)),
    decreases pieces.len(),
{
    if pieces.len() > 0 {
        let before = pieces.drop_last();
        law_unparted_words_count_once(before);
        lemma_words_of_both(joined(before), pieces.last(), pieces.last().len() as int);
        if before.len() > 0 && before.last().len() > 0 {
            let front = joined(before.drop_last());
            assert(joined(before) == front + before.last());
            assert(joined(before).last() == before.last().last());
        }
        if (forall|i: int|
            0 < i < pieces.len() ==> !(ends_in_word(pieces[i - 1]) && starts_with_word(
                #[trigger] pieces[i],
            ))) && (forall|i: int| 0 <= i < pieces.len() ==> (#[trigger] pieces[i]).len() > 0) {
            assert forall|i: int| 0 < i < before.len() implies !(ends_in_word(before[i - 1])
                && starts_with_word(#[trigger] before[i])) by {
                assert(before[i] == pieces[i]);
                assert(before[i - 1] == pieces[i - 1]);
            }
            assert forall|i: int| 0 <= i < before.len() implies (#[trigger] before[i]).len()
                > 0 by {
                assert(before[i] == pieces[i]);
            }
            if before.len() > 0 {
                assert(pieces[before.len() - 1] == before.last());
                assert(pieces[before.len() as int] == pieces.last());
            }
        }
    }
}

proof fn lemma_words_in_bound(pieces: Seq<Seq<char>>)
    ensures
        0 <= words_in(pieces) <= joined(pieces).len(),
    decreases pieces.len(),
{
    if pieces.len() > 0 {
        lemma_words_in_bound(pieces.drop_last());
        lemma_words_before_bound(pieces.last(), pieces.last().len() as int);
    }
}

proof fn lemma_words_before_bound(s: Seq<char>, i: int)
    requires
        0 <= i,
    ensures
        0 <= words_before(s, i) <= i,
    decreases i,
{
    if i > 0 {
        lemma_words_before_bound(s, i - 1);
    }
}

fn min_usize(a: usize, b: usize) -> (r: usize)
    ensures
        r == min_of(a as int, b as int),
{
    if a <= b {
        a
    } else {
        b
    }
}

fn is_editor_word_character(character: char) -> (r: bool)
    ensures
        r == word_character(character),
{
    character.is_alphanumeric() || character == '_' || character == '-' || character == '\''
}

fn push_limited(stack: &mut Vec<EditDelta>, delta: EditDelta)
    requires
        old(stack)@.len() <= UNDO_HISTORY_LIMIT,
    ensures
        delta_views(final(stack)@) == pushed_limited(delta_views(old(stack)@), delta.view()),
{
    if stack.len() == UNDO_HISTORY_LIMIT {
        stack.remove(0);
        assert(delta_views(stack@) =~= delta_views(old(stack)@).drop_first());
    }
    let ghost before = stack@;
    stack.push(delta);
    assert(delta_views(stack@) =~= delta_views(before).push(delta.view()));
}

fn copy_stack(stack: &Vec<EditDelta>) -> (r: Vec<EditDelta>)
    ensures
        delta_views(r@) == delta_views(stack@),
{
    let mut copy: Vec<EditDelta> = Vec::new();
    let mut i: usize = 0;
    while i < stack.len()
        invariant
            i <= stack.len(),
            copy@.len() == i,
            forall|k: int| 0 <= k < i ==> (#[trigger] copy@[k]).view() == stack@[k].view(),
        decreases stack.len() - i,
    {
        let delta = &stack[i];
        copy.push(
            EditDelta {
                start: delta.start,
                inserted: delta.inserted.clone(),
                deleted: delta.deleted.clone(),
                before: delta.before,
                after: delta.after,
                before_marker: delta.before_marker,
                after_marker: delta.after_marker,
            },
        );
        i += 1;
    }
    assert(delta_views(copy@) =~= delta_views(stack@));
    copy
}

impl Clone for TextBuffer {
    fn clone(&self) -> (r: Self)
        ensures
            r@ == self@,
    {
        TextBuffer {
            rope: rope_clone(&self.rope),
            cursor: self.cursor,
            selection_anchor: self.selection_anchor,
            undo_stack: copy_stack(&self.undo_stack),
            redo_stack: copy_stack(&self.redo_stack),
            state_marker: self.state_marker,
            saved_marker: self.saved_marker,
            next_marker: self.next_marker,
            texts: Ghost(self.texts@),
        }
    }
}

impl TextBuffer {
    /// A well-formed buffer.
    pub open spec fn wf(self) -> bool {
        buffer_wf(self@)
    }

    /// A buffer over a text that counts as saved.
    #[must_use]
    pub fn new_saved(text: &str) -> (buffer: Self)
        ensures
            buffer.wf(),
            buffer@ == saved_buffer(text@, buffer@.pieces),
    {
        let rope = rope_from_str(text);
        let len: usize = rope_len_chars(&rope);
        let buffer = TextBuffer {
            rope,
            cursor: 0,
            selection_anchor: None,
            undo_stack: Vec::new(),
            redo_stack: Vec::new(),
            state_marker: 0,
            saved_marker: 0,
            next_marker: 1,
            texts: Ghost(Map::empty().insert(0, text@)),
        };
        assert(delta_views(buffer.undo_stack@) =~= Seq::empty());
        assert(delta_views(buffer.redo_stack@) =~= Seq::empty());
        buffer
    }

    /// The whole text.
    #[must_use]
    pub fn text(&self) -> (s: String)
        ensures
            s@ == self@.text,
    {
        rope_to_string(&self.rope)
    }

    /// Whether the text is empty.
    #[must_use]
    pub fn is_empty(&self) -> (r: bool)
        ensures
            r == (self@.text.len() == 0),
    {
        rope_len_chars(&self.rope) == 0
    }

    /// How many characters the text has.
    #[must_use]
    pub fn len_chars(&self) -> (n: usize)
        ensures
            n == self@.text.len(),
    {
        rope_len_chars(&self.rope)
    }

    /// Whether the buffer changed since it was saved.
    #[must_use]
    pub fn is_dirty(&self) -> (r: bool)
        ensures
            r == (self@.state_marker != self@.saved_marker),
    {
        self.state_marker != self.saved_marker
    }

    /// Takes the present text as the saved one.
    pub fn mark_saved(&mut self)
        requires
            old(self).wf(),
        ensures
            final(self).wf(),
            final(self)@ == marked_saved(old(self)@),
    {
        self.saved_marker = self.state_marker;
    }

    /// Makes the buffer dirty without changing its text.
    pub fn mark_dirty(&mut self)
        requires
            old(self).wf(),
            old(self)@.next_marker < u64::MAX,
        ensures
            final(self).wf(),
            final(self)@ == marked_dirty(old(self)@),
            final(self)@.state_marker != final(self)@.saved_marker,
    {
        if self.is_dirty() {
            return;
        }
        proof {
            let v = self@;
            lemma_undo_chain_grows(v.text, v.undo, v.texts, v.next_marker, v.text);
            lemma_redo_chain_grows(v.text, v.redo, v.texts, v.next_marker, v.text);
        }
        self.texts = Ghost(self.texts@.insert(self.next_marker, self@.text));
        self.state_marker = self.next_marker;
        self.next_marker = self.next_marker + 1;
        proof {
            let o = old(self)@;
            assert forall|m: u64| #[trigger] self@.texts.contains_key(m) implies m
                < self@.next_marker by {
                if m != o.next_marker {
                    assert(o.texts.contains_key(m));
                }
            }
        }
    }

    /// The cursor as a character offset.
    #[must_use]
    pub fn cursor_char_offset(&self) -> (n: usize)
        requires
            self.wf(),
        ensures
            n == self@.at.cursor,
    {
        min_usize(self.cursor, self.len_chars())
    }

    /// The cursor as a UTF-16 offset.
    #[must_use]
    pub fn cursor_utf16_offset(&self) -> (n: usize)
        requires
            self.wf(),
        ensures
            n == utf16_of(self@.text, self@.at.cursor),
    {
        self.char_to_utf16_offset(self.cursor_char_offset())
    }

    /// The selection in UTF-16 offsets and whether the cursor is at its start; the
    /// cursor's own place where nothing is selected.
    #[must_use]
    pub fn utf16_selection_range(&self) -> (r: (Range<usize>, bool))
        requires
            self.wf(),
        ensures
            match selection_of(self@) {
                Some((start, end)) => {
                    &&& r.0.start == utf16_of(self@.text, start)
                    &&& r.0.end == utf16_of(self@.text, end)
                    &&& r.1 == (self@.at.cursor == start)
                },
                None => {
                    &&& r.0.start == utf16_of(self@.text, self@.at.cursor)
                    &&& r.0.end == r.0.start
                    &&& !r.1
                },
            },
    {
        match self.selection_range() {
            None => {
                let cursor: usize = self.cursor_utf16_offset();
                (cursor..cursor, false)
            },
            Some(range) => {
                let reversed = match self.selection_anchor {
                    Some(anchor) => anchor > self.cursor_char_offset(),
                    None => false,
                };
                (self.char_range_to_utf16(&range), reversed)
            },
        }
    }

    /// A range of characters in UTF-16 offsets.
    #[must_use]
    pub fn char_range_to_utf16(&self, range: &Range<usize>) -> (r: Range<usize>)
        ensures
            r.start == utf16_of(self@.text, range.start as int),
            r.end == utf16_of(self@.text, range.end as int),
    {
        self.char_to_utf16_offset(range.start)..self.char_to_utf16_offset(range.end)
    }

    /// A range of UTF-16 offsets in characters.
    #[must_use]
    pub fn utf16_range_to_char(&self, range: &Range<usize>) -> (r: Range<usize>)
        ensures
            utf16_falls_on(self@.text, range.start as int, r.start as int),
            utf16_falls_on(self@.text, range.end as int, r.end as int),
    {
        self.utf16_to_char_offset(range.start)..self.utf16_to_char_offset(range.end)
    }

    /// The text in a range of UTF-16 offsets; `adjusted_range` takes the range that
    /// was read, in UTF-16 offsets again.
    #[must_use]
    pub fn text_for_utf16_range(
        &self,
        range: Range<usize>,
        adjusted_range: &mut Option<Range<usize>>,
    ) -> (s: String)
        requires
            runs_forwards(self@.text, range.start as int, range.end as int),
        ensures
            exists|a: int, b: int|
                #![trigger self@.text.subrange(a, b)]
                {
                    &&& utf16_falls_on(self@.text, range.start as int, a)
                    &&& utf16_falls_on(self@.text, range.end as int, b)
                    &&& a <= b
                    &&& s@ == self@.text.subrange(a, b)
                    &&& *final(adjusted_range) matches Some(adjusted)
                    &&& adjusted.start == utf16_of(self@.text, a)
                    &&& adjusted.end == utf16_of(self@.text, b)
                },
    {
        let chars = self.utf16_range_to_char(&range);
        *adjusted_range = Some(self.char_range_to_utf16(&chars));
        proof {
            if range.start <= range.end && chars.end < chars.start {
                lemma_utf16_take_grows(self@.text, chars.end + 1, chars.start as int);
            }
        }
        let s = rope_slice(&self.rope, chars.start, chars.end);
        assert(s@ == self@.text.subrange(chars.start as int, chars.end as int));
        s
    }

    /// Replaces a range of characters, brought into range. Gives the range of the
    /// new text, or nothing where the text is as before.
    pub fn replace_range(&mut self, range: Range<usize>, text: &str) -> (r: Option<Range<usize>>)
        requires
            old(self).wf(),
            min_of(range.start as int, old(self)@.text.len() as int) <= range.end,
            old(self)@.next_marker < u64::MAX,
        ensures
            final(self).wf(),
            ({
                let start = min_of(range.start as int, old(self)@.text.len() as int);
                let end = min_of(range.end as int, old(self)@.text.len() as int);
                &&& final(self)@ == edited(old(self)@, start, end, text@, final(self)@.pieces)
                &&& r is Some <==> edit_changes(old(self)@, start, end, text@)
                &&& r matches Some(n) ==> n.start == start && n.end == start + text@.len()
            }),
    {
        let start: usize = min_usize(range.start, self.len_chars());
        if self.apply_edit(range.start, range.end, text) {
            Some(start..self.cursor)
        } else {
            None
        }
    }

    /// Selects a range of characters, brought into range and order.
    pub fn set_selection_range(&mut self, range: Range<usize>, reversed: bool)
        requires
            old(self).wf(),
        ensures
            final(self).wf(),
            final(self)@ == with_selection(
                old(self)@,
                range.start as int,
                range.end as int,
                reversed,
            ),
    {
        let start: usize = min_usize(range.start, self.len_chars());
        let end: usize = min_usize(range.end, self.len_chars());
        let low: usize = min_usize(start, end);
        let high: usize = if start <= end {
            end
        } else {
            start
        };
        if low == high {
            self.cursor = low;
            self.selection_anchor = None;
        } else if reversed {
            self.cursor = low;
            self.selection_anchor = Some(high);
        } else {
            self.cursor = high;
            self.selection_anchor = Some(low);
        }
    }

    /// The line and column of a character offset, brought into range.
    #[must_use]
    pub fn line_column_for_char_offset(&self, offset: usize) -> (c: EditorCursor)
        ensures
            (c.line as int, c.column as int) == place_of(self@.text, offset as int),
    {
        let offset: usize = min_usize(offset, self.len_chars());
        proof {
            lemma_position_in_line(self@.text, offset as int);
        }
        let line: usize = rope_char_to_line(&self.rope, offset);
        let line_start: usize = rope_line_to_char(&self.rope, line);
        EditorCursor { line, column: offset - line_start }
    }

    /// Types text over the selection or at the cursor. Tells whether the text
    /// changed.
    pub fn insert_text(&mut self, text: &str) -> (r: bool)
        requires
            old(self).wf(),
            old(self)@.next_marker < u64::MAX,
        ensures
            final(self).wf(),
            final(self)@ == typed(old(self)@, text@, final(self)@.pieces),
            r == typing_changes(old(self)@, text@),
    {
        if text.is_empty() {
            return false;
        }
        match self.selection_range() {
            Some(range) => self.apply_edit(range.start, range.end, text),
            None => {
                let cursor: usize = self.cursor;
                assert(self@.text.subrange(cursor as int, cursor as int).len() == 0);
                self.apply_edit(cursor, cursor, text)
            },
        }
    }

    /// Deletes the selection, or the character before the cursor.
    pub fn delete_backward(&mut self) -> (r: bool)
        requires
            old(self).wf(),
            old(self)@.next_marker < u64::MAX,
        ensures
            final(self).wf(),
            final(self)@ == deleted_backward(old(self)@, final(self)@.pieces),
            r == (selection_of(old(self)@) is Some || old(self)@.at.cursor > 0),
    {
        if self.delete_selection() {
            return true;
        }
        if self.cursor == 0 {
            return false;
        }
        let cursor: usize = self.cursor;
        proof {
            reveal_strlit("");
        }
        assert(""@ =~= Seq::<char>::empty());
        assert(self@.text.subrange(cursor - 1, cursor as int).len() == 1);
        self.apply_edit(cursor - 1, cursor, "")
    }

    /// Deletes the selection, or the character after the cursor.
    pub fn delete_forward(&mut self) -> (r: bool)
        requires
            old(self).wf(),
            old(self)@.next_marker < u64::MAX,
        ensures
            final(self).wf(),
            final(self)@ == deleted_forward(old(self)@, final(self)@.pieces),
            r == (selection_of(old(self)@) is Some || old(self)@.at.cursor < old(self)@.text.len()),
    {
        if self.delete_selection() {
            return true;
        }
        if self.cursor >= self.len_chars() {
            return false;
        }
        let cursor: usize = self.cursor;
        proof {
            reveal_strlit("");
        }
        assert(""@ =~= Seq::<char>::empty());
        assert(self@.text.subrange(cursor as int, cursor + 1).len() == 1);
        self.apply_edit(cursor, cursor + 1, "")
    }

    /// Takes the last edit back. Tells whether there was one.
    pub fn undo(&mut self) -> (r: bool)
        requires
            old(self).wf(),
        ensures
            final(self).wf(),
            r == (old(self)@.undo.len() > 0),
            final(self)@ == undone(old(self)@, final(self)@.pieces),
    {
        let ghost v = self@;
        match self.undo_stack.pop() {
            None => {
                assert(v.undo.len() == 0);
                false
            },
            Some(delta) => {
                proof {
                    let d = delta.view();
                    assert(v.undo.last() == d);
                    lemma_splice_back(v.text, d.start, d.inserted, d.deleted);
                }
                let inserted_len: usize = chars_of(delta.inserted.as_str()).len();
                rope_remove(&mut self.rope, delta.start, delta.start + inserted_len);
                rope_insert(&mut self.rope, delta.start, delta.deleted.as_str());
                proof {
                    let d = delta.view();
                    let t = v.text.take(d.start) + v.text.skip(d.start + d.inserted.len());
                    assert(t.take(d.start) =~= v.text.take(d.start));
                    assert(t.skip(d.start) =~= v.text.skip(d.start + d.inserted.len()));
                    assert(rope_text(self.rope) =~= text_before(v.text, d));
                }
                let len: usize = self.len_chars();
                self.cursor = min_usize(delta.before.cursor, len);
                self.selection_anchor = match delta.before.selection_anchor {
                    Some(offset) => Some(min_usize(offset, len)),
                    None => None,
                };
                self.state_marker = delta.before_marker;
                let ghost d = delta.view();
                let ghost redo = self.redo_stack@;
                self.redo_stack.push(delta);
                proof {
                    assert(delta_views(self.redo_stack@) =~= delta_views(redo).push(d));
                    assert(delta_views(self.undo_stack@) =~= v.undo.drop_last());
                    lemma_undone_wf(v, self@.pieces);
                }
                self.normalize_selection();
                true
            },
        }
    }

    /// Makes the last undone edit again. Tells whether there was one.
    pub fn redo(&mut self) -> (r: bool)
        requires
            old(self).wf(),
        ensures
            final(self).wf(),
            r == (old(self)@.redo.len() > 0),
            final(self)@ == redone(old(self)@, final(self)@.pieces),
    {
        let ghost v = self@;
        match self.redo_stack.pop() {
            None => {
                assert(v.redo.len() == 0);
                false
            },
            Some(delta) => {
                proof {
                    let d = delta.view();
                    assert(v.redo.last() == d);
                    lemma_splice_back(v.text, d.start, d.deleted, d.inserted);
                }
                let deleted_len: usize = chars_of(delta.deleted.as_str()).len();
                rope_remove(&mut self.rope, delta.start, delta.start + deleted_len);
                rope_insert(&mut self.rope, delta.start, delta.inserted.as_str());
                proof {
                    let d = delta.view();
                    let t = v.text.take(d.start) + v.text.skip(d.start + d.deleted.len());
                    assert(t.take(d.start) =~= v.text.take(d.start));
                    assert(t.skip(d.start) =~= v.text.skip(d.start + d.deleted.len()));
                    assert(rope_text(self.rope) =~= text_after(v.text, d));
                }
                let len: usize = self.len_chars();
                self.cursor = min_usize(delta.after.cursor, len);
                self.selection_anchor = match delta.after.selection_anchor {
                    Some(offset) => Some(min_usize(offset, len)),
                    None => None,
                };
                self.state_marker = delta.after_marker;
                let ghost d = delta.view();
                let ghost undo = self.undo_stack@;
                self.undo_stack.push(delta);
                proof {
                    assert(delta_views(self.undo_stack@) =~= delta_views(undo).push(d));
                    assert(delta_views(self.redo_stack@) =~= v.redo.drop_last());
                    lemma_redone_wf(v, self@.pieces);
                }
                self.normalize_selection();
                true
            },
        }
    }

    /// Moves to the start of the selection, or one character back.
    pub fn move_left(&mut self)
        requires
            old(self).wf(),
        ensures
            final(self).wf(),
            final(self)@ == moved_left(old(self)@),
    {
        let offset: usize = match self.selection_range() {
            Some(range) => range.start,
            None => if self.cursor == 0 {
                0
            } else {
                self.cursor - 1
            },
        };
        self.move_to_offset(offset, false);
    }

    /// Moves to the end of the selection, or one character on.
    pub fn move_right(&mut self)
        requires
            old(self).wf(),
        ensures
            final(self).wf(),
            final(self)@ == moved_right(old(self)@),
    {
        let offset: usize = match self.selection_range() {
            Some(range) => range.end,
            None => self.next_offset(),
        };
        self.move_to_offset(offset, false);
    }

    /// Moves one line up, in the same column where it can.
    pub fn move_up(&mut self, extend_selection: bool)
        requires
            old(self).wf(),
        ensures
            final(self).wf(),
            final(self)@ == moved_vertically(old(self)@, -1, extend_selection),
    {
        self.move_vertical(-1, extend_selection);
    }

    /// Moves one line down, in the same column where it can.
    pub fn move_down(&mut self, extend_selection: bool)
        requires
            old(self).wf(),
        ensures
            final(self).wf(),
            final(self)@ == moved_vertically(old(self)@, 1, extend_selection),
    {
        self.move_vertical(1, extend_selection);
    }

    /// Moves to the start of the text.
    pub fn move_to_start(&mut self)
        requires
            old(self).wf(),
        ensures
            final(self).wf(),
            final(self)@ == moved_to(old(self)@, 0, false),
    {
        self.move_to_offset(0, false);
    }

    /// Moves to the end of the text.
    pub fn move_to_end(&mut self)
        requires
            old(self).wf(),
        ensures
            final(self).wf(),
            final(self)@ == moved_to(old(self)@, old(self)@.text.len() as int, false),
    {
        let len: usize = self.len_chars();
        self.move_to_offset(len, false);
    }

    /// Moves to a line and column, brought into range.
    pub fn move_to_line_column(&mut self, line: usize, column: usize)
        requires
            old(self).wf(),
        ensures
            final(self).wf(),
            final(self)@ == moved_to(
                old(self)@,
                offset_of(old(self)@.text, line as int, column as int),
                false,
            ),
    {
        let offset: usize = self.offset_for_line_column(line, column);
        self.move_to_offset(offset, false);
    }

    /// Selects up to a line and column, brought into range.
    pub fn extend_to_line_column(&mut self, line: usize, column: usize)
        requires
            old(self).wf(),
        ensures
            final(self).wf(),
            final(self)@ == moved_to(
                old(self)@,
                offset_of(old(self)@.text, line as int, column as int),
                true,
            ),
    {
        let offset: usize = self.offset_for_line_column(line, column);
        self.move_to_offset(offset, true);
    }

    /// The UTF-16 offset of a line and column, brought into range.
    #[must_use]
    pub fn utf16_offset_for_line_column(&self, line: usize, column: usize) -> (n: usize)
        ensures
            n == utf16_of(self@.text, offset_of(self@.text, line as int, column as int)),
    {
        self.char_to_utf16_offset(self.offset_for_line_column(line, column))
    }

    /// Moves the end of the selection one character back.
    pub fn extend_left(&mut self)
        requires
            old(self).wf(),
        ensures
            final(self).wf(),
            final(self)@ == extended_left(old(self)@),
    {
        let offset: usize = if self.cursor == 0 {
            0
        } else {
            self.cursor - 1
        };
        self.move_to_offset(offset, true);
    }

    /// Moves the end of the selection one character on.
    pub fn extend_right(&mut self)
        requires
            old(self).wf(),
        ensures
            final(self).wf(),
            final(self)@ == extended_right(old(self)@),
    {
        let offset: usize = self.next_offset();
        self.move_to_offset(offset, true);
    }

    /// Moves the end of the selection one line up.
    pub fn extend_up(&mut self)
        requires
            old(self).wf(),
        ensures
            final(self).wf(),
            final(self)@ == moved_vertically(old(self)@, -1, true),
    {
        self.move_vertical(-1, true);
    }

    /// Moves the end of the selection one line down.
    pub fn extend_down(&mut self)
        requires
            old(self).wf(),
        ensures
            final(self).wf(),
            final(self)@ == moved_vertically(old(self)@, 1, true),
    {
        self.move_vertical(1, true);
    }

    /// Selects the whole text.
    pub fn select_all(&mut self)
        requires
            old(self).wf(),
        ensures
            final(self).wf(),
            final(self)@ == with_selection(old(self)@, 0, old(self)@.text.len() as int, false),
    {
        if self.is_empty() {
            self.cursor = 0;
            self.selection_anchor = None;
        } else {
            self.selection_anchor = Some(0);
            self.cursor = self.len_chars();
        }
    }

    /// Selects the word at a line and column; where there is none, moves there.
    pub fn select_word_at_line_column(&mut self, line: usize, column: usize) -> (r: bool)
        requires
            old(self).wf(),
        ensures
            final(self).wf(),
            final(self)@ == word_selected(old(self)@, line as int, column as int),
            r == (word_at(
                old(self)@.text,
                offset_of(old(self)@.text, line as int, column as int),
            ) is Some),
    {
        let offset: usize = self.offset_for_line_column(line, column);
        match self.word_range_at_offset(offset) {
            None => {
                self.move_to_offset(offset, false);
                false
            },
            Some(range) => {
                self.set_selection_range(range, false);
                true
            },
        }
    }

    /// The selected range, where something is selected.
    #[must_use]
    pub fn selection_range(&self) -> (r: Option<Range<usize>>)
        requires
            self.wf(),
        ensures
            match selection_of(self@) {
                Some((start, end)) => r matches Some(range) && range.start == start && range.end
                    == end,
                None => r is None,
            },
            r matches Some(range) ==> range.start < range.end <= self@.text.len(),
    {
        match self.selection_anchor {
            None => None,
            Some(anchor) => {
                let anchor: usize = min_usize(anchor, self.len_chars());
                let cursor: usize = min_usize(self.cursor, self.len_chars());
                if anchor == cursor {
                    None
                } else if anchor < cursor {
                    Some(anchor..cursor)
                } else {
                    Some(cursor..anchor)
                }
            },
        }
    }

    /// The selected text, where something is selected.
    #[must_use]
    pub fn selected_text(&self) -> (r: Option<String>)
        requires
            self.wf(),
        ensures
            match selection_of(self@) {
                Some((start, end)) => r matches Some(s) && s@ == self@.text.subrange(start, end),
                None => r is None,
            },
    {
        match self.selection_range() {
            Some(range) => Some(rope_slice(&self.rope, range.start, range.end)),
            None => None,
        }
    }

    /// Cuts the selected text out.
    pub fn take_selected_text(&mut self) -> (r: Option<String>)
        requires
            old(self).wf(),
            old(self)@.next_marker < u64::MAX,
        ensures
            final(self).wf(),
            final(self)@ == without_selection(old(self)@, final(self)@.pieces),
            match selection_of(old(self)@) {
                Some((start, end)) => r matches Some(s) && s@ == old(self)@.text.subrange(
                    start,
                    end,
                ),
                None => r is None,
            },
    {
        match self.selection_range() {
            None => None,
            Some(range) => {
                let selected = rope_slice(&self.rope, range.start, range.end);
                proof {
                    reveal_strlit("");
                }
                assert(""@ =~= Seq::<char>::empty());
                self.apply_edit(range.start, range.end, "");
                Some(selected)
            },
        }
    }

    /// The columns of a line that are selected.
    #[must_use]
    pub fn selected_columns_for_line(&self, line: usize) -> (r: Option<Range<usize>>)
        requires
            self.wf(),
        ensures
            match selected_columns(self@, line as int) {
                Some((start, end)) => r matches Some(range) && range.start == start && range.end
                    == end,
                None => r is None,
            },
    {
        let selection = match self.selection_range() {
            Some(selection) => selection,
            None => return None,
        };
        let line_start: usize = match self.line_to_char(line) {
            Some(line_start) => line_start,
            None => return None,
        };
        proof {
            lemma_line_starts_ordered(self@.text, line as int);
            lemma_without_break_prefix(line_chars(self@.text, line as int));
        }
        let line_end: usize = line_start + self.line_len_without_break(line);
        let start: usize = if selection.start >= line_start {
            selection.start
        } else {
            line_start
        };
        let end: usize = min_usize(selection.end, line_end);
        if start >= end {
            None
        } else {
            Some((start - line_start)..(end - line_start))
        }
    }

    /// The cursor's line and column.
    #[must_use]
    pub fn cursor_position(&self) -> (c: EditorCursor)
        requires
            self.wf(),
        ensures
            (c.line as int, c.column as int) == place_of(self@.text, self@.at.cursor),
    {
        self.line_column_for_char_offset(self.cursor_char_offset())
    }

    /// Up to `limit` lines as they are shown, from `start_line` on.
    #[must_use]
    pub fn rendered_lines_from(&self, start_line: usize, limit: usize) -> (lines: Vec<String>)
        ensures
            ({
                let first = min_of(start_line as int, line_count(self@.text));
                let past = min_of(first + limit, line_count(self@.text));
                &&& lines@.len() == past - first
                &&& forall|i: int|
                    0 <= i < lines@.len() ==> (#[trigger] lines@[i])@ == shown_line(
                        self@.text,
                        first + i,
                    )
            }),
    {
        let count: usize = self.line_count();
        let first: usize = min_usize(start_line, count);
        let past: usize = if limit <= count - first {
            first + limit
        } else {
            count
        };
        self.lines_between(first, past)
    }

    /// Every line as it is shown.
    #[must_use]
    pub fn all_lines(&self) -> (lines: Vec<String>)
        ensures
            lines@.len() == line_count(self@.text),
            forall|i: int|
                0 <= i < lines@.len() ==> (#[trigger] lines@[i])@ == shown_line(self@.text, i),
    {
        let count: usize = self.line_count();
        self.lines_between(0, count)
    }

    /// One line as it is shown.
    #[must_use]
    pub fn line_text(&self, line: usize) -> (r: Option<String>)
        ensures
            line < line_count(self@.text) ==> (r matches Some(s) && s@ == shown_line(
                self@.text,
                line as int,
            )),
            line >= line_count(self@.text) ==> r is None,
    {
        if line < self.line_count() {
            Some(self.line_without_break(line))
        } else {
            None
        }
    }

    /// How many lines the text has.
    #[must_use]
    pub fn line_count(&self) -> (n: usize)
        ensures
            n == line_count(self@.text),
    {
        rope_len_lines(&self.rope)
    }

    /// How many words the text has, each of its pieces counted by itself: a word that lies
    /// across two pieces counts in both.
    #[must_use]
    pub fn word_count(&self) -> (n: usize)
        ensures
            n == words_in(self@.pieces),
            joined(self@.pieces) == self@.text,
    {
        let chunks = rope_chunks(&self.rope);
        let len: usize = self.len_chars();
        let ghost pieces = texts(chunks@);
        let mut total: usize = 0;
        let mut i: usize = 0;
        while i < chunks.len()
            invariant
                i <= chunks@.len(),
                pieces == texts(chunks@),
                joined(pieces) == self@.text,
                self@.text.len() == len,
                total == words_in(pieces.take(i as int)),
            decreases chunks@.len() - i,
        {
            let chars = chars_of(chunks[i].as_str());
            let words: usize = count_words(&chars);
            proof {
                lemma_joined_prefix(pieces, i + 1);
                assert(pieces.take(i + 1).drop_last() =~= pieces.take(i as int));
                assert(pieces.take(i + 1).last() == chars@);
                lemma_words_in_bound(pieces.take(i + 1));
            }
            total = total + words;
            i = i + 1;
        }
        assert(pieces.take(pieces.len() as int) =~= pieces);
        total
    }

    fn next_offset(&self) -> (n: usize)
        requires
            self.wf(),
        ensures
            n == min_of(self@.at.cursor + 1, self@.text.len() as int),
    {
        if self.cursor < self.len_chars() {
            self.cursor + 1
        } else {
            self.len_chars()
        }
    }

    fn lines_between(&self, first: usize, past: usize) -> (lines: Vec<String>)
        requires
            first <= past <= line_count(self@.text),
        ensures
            lines@.len() == past - first,
            forall|i: int|
                0 <= i < lines@.len() ==> (#[trigger] lines@[i])@ == shown_line(
                    self@.text,
                    first + i,
                ),
    {
        let mut lines: Vec<String> = Vec::new();
        let mut line: usize = first;
        while line < past
            invariant
                first <= line <= past <= line_count(self@.text),
                lines@.len() == line - first,
                forall|i: int|
                    0 <= i < lines@.len() ==> (#[trigger] lines@[i])@ == shown_line(
                        self@.text,
                        first + i,
                    ),
            decreases past - line,
        {
            lines.push(self.line_without_break(line));
            line = line + 1;
        }
        lines
    }

    fn delete_selection(&mut self) -> (r: bool)
        requires
            old(self).wf(),
            old(self)@.next_marker < u64::MAX,
        ensures
            final(self).wf(),
            match selection_of(old(self)@) {
                Some((start, end)) => r && final(self)@ == edited(
                    old(self)@,
                    start,
                    end,
                    Seq::empty(),
                    final(self)@.pieces,
                ),
                None => !r && final(self)@ == old(self)@,
            },
    {
        match self.selection_range() {
            None => false,
            Some(range) => {
                proof {
                    reveal_strlit("");
                }
                assert(""@ =~= Seq::<char>::empty());
                assert(self@.text.subrange(range.start as int, range.end as int).len() > 0);
                self.apply_edit(range.start, range.end, "")
            },
        }
    }

    fn apply_edit(&mut self, from: usize, to: usize, inserted: &str) -> (r: bool)
        requires
            old(self).wf(),
            min_of(from as int, old(self)@.text.len() as int) <= to,
            old(self)@.next_marker < u64::MAX,
        ensures
            final(self).wf(),
            ({
                let start = min_of(from as int, old(self)@.text.len() as int);
                let end = min_of(to as int, old(self)@.text.len() as int);
                &&& final(self)@ == edited(old(self)@, start, end, inserted@, final(self)@.pieces)
                &&& r == edit_changes(old(self)@, start, end, inserted@)
                &&& r ==> final(self)@.at.cursor == start + inserted@.len()
            }),
    {
        let ghost v = self@;
        let len: usize = self.len_chars();
        let start: usize = min_usize(from, len);
        let end: usize = min_usize(to, len);
        if start == end && inserted.is_empty() {
            assert(v.text.subrange(start as int, end as int) =~= inserted@);
            return false;
        }
        let deleted = rope_slice(&self.rope, start, end);
        if str_eq(deleted.as_str(), inserted) {
            return false;
        }
        let before = self.cursor_state();
        let before_marker: u64 = self.state_marker;
        rope_remove(&mut self.rope, start, end);
        rope_insert(&mut self.rope, start, inserted);
        proof {
            let t = v.text.take(start as int) + v.text.skip(end as int);
            assert(t.take(start as int) =~= v.text.take(start as int));
            assert(t.skip(start as int) =~= v.text.skip(end as int));
            assert(rope_text(self.rope) =~= spliced(v.text, start as int, end as int, inserted@));
        }
        let new_len: usize = self.len_chars();
        let inserted_len: usize = chars_of(inserted).len();
        self.cursor = start + inserted_len;
        self.selection_anchor = None;
        let after = self.cursor_state();
        let after_marker: u64 = self.next_marker;
        self.next_marker = self.next_marker + 1;
        self.state_marker = after_marker;
        self.texts = Ghost(v.texts.insert(after_marker, rope_text(self.rope)));
        let delta = EditDelta {
            start,
            inserted: copy_str(inserted),
            deleted,
            before,
            after,
            before_marker,
            after_marker,
        };
        push_limited(&mut self.undo_stack, delta);
        self.redo_stack.clear();
        proof {
            assert(delta_views(self.redo_stack@) =~= Seq::empty());
            lemma_edited_wf(v, start as int, end as int, inserted@, self@.pieces);
            assert(self@ =~= edited(v, start as int, end as int, inserted@, self@.pieces));
        }
        true
    }

    fn cursor_state(&self) -> (c: CursorState)
        ensures
            c.cursor == self.cursor,
            c.selection_anchor == self.selection_anchor,
    {
        CursorState { cursor: self.cursor, selection_anchor: self.selection_anchor }
    }

    fn move_vertical(&mut self, delta: isize, extend_selection: bool)
        requires
            old(self).wf(),
            delta == -1 || delta == 1,
        ensures
            final(self).wf(),
            final(self)@ == moved_vertically(old(self)@, delta as int, extend_selection),
    {
        let cursor = self.cursor_position();
        proof {
            lemma_position_in_line(self@.text, self@.at.cursor);
        }
        let target_line: usize = if delta == -1 {
            if cursor.line > 0 {
                cursor.line - 1
            } else {
                return;
            }
        } else if cursor.line < self.line_count() - 1 {
            cursor.line + 1
        } else {
            return;
        };
        let offset: usize = self.offset_for_line_column(target_line, cursor.column);
        self.move_to_offset(offset, extend_selection);
    }

    fn move_to_offset(&mut self, offset: usize, extend_selection: bool)
        requires
            old(self).wf(),
        ensures
            final(self).wf(),
            final(self)@ == moved_to(old(self)@, offset as int, extend_selection),
    {
        if extend_selection {
            if self.selection_anchor.is_none() {
                self.selection_anchor = Some(self.cursor);
            }
        } else {
            self.selection_anchor = None;
        }
        self.cursor = min_usize(offset, self.len_chars());
        self.normalize_selection();
    }

    fn normalize_selection(&mut self)
        ensures
            final(self)@ == (BufferView {
                at: CursorView {
                    cursor: old(self)@.at.cursor,
                    anchor: if old(self)@.at.anchor == Some(old(self)@.at.cursor) {
                        None
                    } else {
                        old(self)@.at.anchor
                    },
                },
                ..old(self)@
            }),
    {
        if let Some(anchor) = self.selection_anchor {
            if anchor == self.cursor {
                self.selection_anchor = None;
            }
        }
    }

    fn offset_for_line_column(&self, line: usize, column: usize) -> (n: usize)
        ensures
            n == offset_of(self@.text, line as int, column as int),
            n <= self@.text.len(),
    {
        proof {
            lemma_offset_in_text(self@.text, line as int, column as int);
        }
        let count: usize = self.line_count();
        let len: usize = self.len_chars();
        let line: usize = min_usize(line, count - 1);
        let line_start: usize = rope_line_to_char(&self.rope, line);
        let shown: usize = self.line_len_without_break(line);
        line_start + min_usize(column, shown)
    }

    fn word_range_at_offset(&self, offset: usize) -> (r: Option<Range<usize>>)
        ensures
            match word_at(self@.text, offset as int) {
                Some((start, end)) => r matches Some(range) && range.start == start && range.end
                    == end,
                None => r is None,
            },
    {
        let len: usize = self.len_chars();
        if len == 0 {
            return None;
        }
        let offset: usize = min_usize(offset, len);
        let seed: usize = if offset < len && is_editor_word_character(
            rope_char(&self.rope, offset),
        ) {
            offset
        } else if offset == len && offset > 0 && is_editor_word_character(
            rope_char(&self.rope, offset - 1),
        ) {
            offset - 1
        } else {
            return None;
        };
        let start: usize = self.word_start_before(seed);
        let end: usize = self.word_end_after(seed);
        Some(start..end)
    }

    fn word_start_before(&self, seed: usize) -> (start: usize)
        requires
            seed < self@.text.len(),
        ensures
            start == word_start(self@.text, seed as int),
            start <= seed,
    {
        let mut start: usize = seed;
        while start > 0 && is_editor_word_character(rope_char(&self.rope, start - 1))
            invariant
                start <= seed < self@.text.len(),
                word_start(self@.text, start as int) == word_start(self@.text, seed as int),
            decreases start,
        {
            start = start - 1;
        }
        start
    }

    fn word_end_after(&self, seed: usize) -> (end: usize)
        requires
            seed < self@.text.len(),
        ensures
            end == word_end(self@.text, seed + 1),
            seed < end <= self@.text.len(),
    {
        let len: usize = self.len_chars();
        let mut end: usize = seed + 1;
        while end < len && is_editor_word_character(rope_char(&self.rope, end))
            invariant
                seed < end <= len == self@.text.len(),
                word_end(self@.text, end as int) == word_end(self@.text, seed + 1),
            decreases len - end,
        {
            end = end + 1;
        }
        end
    }

    fn line_to_char(&self, line: usize) -> (r: Option<usize>)
        ensures
            line < line_count(self@.text) ==> r == Some(
                line_start(self@.text, line as int) as usize,
            ) && 0 <= line_start(self@.text, line as int) <= self@.text.len() <= usize::MAX,
            line >= line_count(self@.text) ==> r is None,
    {
        let len: usize = self.len_chars();
        if line < self.line_count() {
            proof {
                lemma_line_start(self@.text, line as int);
            }
            Some(rope_line_to_char(&self.rope, line))
        } else {
            None
        }
    }

    fn line_len_without_break(&self, line: usize) -> (n: usize)
        requires
            line < line_count(self@.text),
        ensures
            n == shown_line(self@.text, line as int).len(),
    {
        let chars = chars_of(rope_line(&self.rope, line).as_str());
        let mut len: usize = chars.len();
        assert(chars@.take(len as int) =~= chars@);
        while len > 0 && (chars[len - 1] == '\n' || chars[len - 1] == '\r')
            invariant
                len <= chars@.len(),
                without_break(chars@.take(len as int)) == without_break(chars@),
            decreases len,
        {
            assert(chars@.take(len as int).drop_last() =~= chars@.take(len - 1));
            len = len - 1;
        }
        len
    }

    fn line_without_break(&self, line_index: usize) -> (s: String)
        requires
            line_index < line_count(self@.text),
        ensures
            s@ == shown_line(self@.text, line_index as int),
    {
        let line = chars_of(rope_line(&self.rope, line_index).as_str());
        proof {
            lemma_without_break_prefix(line@);
        }
        let end: usize = self.line_len_without_break(line_index);
        string_of_range(&line, 0, end)
    }

    fn char_to_utf16_offset(&self, char_offset: usize) -> (n: usize)
        ensures
            n == utf16_of(self@.text, char_offset as int),
    {
        let units: usize = rope_len_utf16(&self.rope);
        let chunks = rope_chunks(&self.rope);
        let ghost pieces = texts(chunks@);
        let offset: usize = min_usize(char_offset, self.len_chars());
        let mut remaining: usize = offset;
        let mut utf16_offset: usize = 0;
        let mut i: usize = 0;
        while i < chunks.len()
            invariant
                i <= chunks@.len(),
                pieces == texts(chunks@),
                joined(pieces) == self@.text,
                units == utf16_len(self@.text),
                offset == min_of(char_offset as int, self@.text.len() as int),
                joined(pieces.take(i as int)).len() + remaining == offset,
                utf16_offset == utf16_len(joined(pieces.take(i as int))),
            decreases chunks@.len() - i,
        {
            let chars = chars_of(chunks[i].as_str());
            if remaining >= chars.len() {
                proof {
                    lemma_utf16_in_part(pieces, i as int, chars@.len() as int);
                    lemma_joined_prefix(pieces, i as int);
                    lemma_utf16_len_concat(joined(pieces.take(i as int)), chars@);
                    assert(chars@.take(chars@.len() as int) =~= chars@);
                }
                utf16_offset = utf16_offset + count_utf16(&chars, chars.len(), units);
                remaining = remaining - chars.len();
            } else {
                proof {
                    lemma_utf16_in_part(pieces, i as int, remaining as int);
                }
                return utf16_offset + count_utf16(&chars, remaining, units);
            }
            i = i + 1;
        }
        assert(pieces.take(pieces.len() as int) =~= pieces);
        assert(self@.text.take(self@.text.len() as int) =~= self@.text);
        utf16_offset
    }

    fn utf16_to_char_offset(&self, utf16_offset: usize) -> (n: usize)
        ensures
            utf16_falls_on(self@.text, utf16_offset as int, n as int),
    {
        let len: usize = self.len_chars();
        let chunks = rope_chunks(&self.rope);
        let ghost pieces = texts(chunks@);
        let mut remaining: usize = utf16_offset;
        let mut char_offset: usize = 0;
        let mut i: usize = 0;
        assert(self@.text.take(0) =~= Seq::empty());
        while i < chunks.len()
            invariant
                i <= chunks@.len(),
                pieces == texts(chunks@),
                joined(pieces) == self@.text,
                self@.text.len() == len,
                char_offset == joined(pieces.take(i as int)).len(),
                char_offset <= len,
                utf16_len(self@.text.take(char_offset as int)) + remaining == utf16_offset,
            decreases chunks@.len() - i,
        {
            let chars = chars_of(chunks[i].as_str());
            proof {
                lemma_joined_prefix(pieces, i as int);
                lemma_joined_prefix(pieces, i + 1);
            }
            let ghost done = joined(pieces.take(i as int));
            let mut k: usize = 0;
            while k < chars.len()
                invariant
                    k <= chars@.len(),
                    self@.text.len() == len,
                    char_offset == done.len() + k,
                    (done + chars@).is_prefix_of(self@.text),
                    utf16_len(self@.text.take(char_offset as int)) + remaining == utf16_offset,
                decreases chars@.len() - k,
            {
                let width: usize = if chars[k] >= '\u{10000}' {
                    2
                } else {
                    1
                };
                proof {
                    assert((done + chars@)[char_offset as int] == chars@[k as int]);
                    assert(self@.text[char_offset as int] == chars@[k as int]);
                    let next = self@.text.take(char_offset + 1);
                    assert(next.drop_last() =~= self@.text.take(char_offset as int));
                    assert(next.last() == chars@[k as int]);
                }
                if remaining < width {
                    return char_offset;
                }
                remaining = remaining - width;
                char_offset = char_offset + 1;
                if remaining == 0 {
                    proof {
                        if char_offset < len {
                            lemma_utf16_take_grows(
                                self@.text,
                                char_offset as int,
                                char_offset + 1,
                            );
                        }
                    }
                    return char_offset;
                }
                k = k + 1;
            }
            i = i + 1;
        }
        assert(pieces.take(pieces.len() as int) =~= pieces);
        len
    }
}

/// The buffer after a move by one line.
pub open spec fn moved_vertically(v: BufferView, delta: int, extend: bool) -> BufferView {
    let (line, column) = place_of(v.text, v.at.cursor);
    if 0 <= line + delta < line_count(v.text) {
        moved_to(v, offset_of(v.text, line + delta, column), extend)
    } else {
        v
    }
}

/// The columns of a line that are selected.
pub open spec fn selected_columns(v: BufferView, line: int) -> Option<(int, int)> {
    match selection_of(v) {
        Some((start, end)) => if line < line_count(v.text) {
            let first = line_start(v.text, line);
            let past = first + shown_line(v.text, line).len();
            let lo = if start >= first {
                start
            } else {
                first
            };
            let hi = min_of(end, past);
            if lo < hi {
                Some((lo - first, hi - first))
            } else {
                None
            }
        } else {
            None
        },
        None => None,
    }
}

fn count_words(chars: &Vec<char>) -> (n: usize)
    ensures
        n == words_of(chars@),
{
    let mut n: usize = 0;
    let mut i: usize = 0;
    while i < chars.len()
        invariant
            i <= chars@.len(),
            n == words_before(chars@, i as int),
            n <= i,
        decreases chars@.len() - i,
    {
        if !is_white_space(chars[i]) && (i == 0 || is_white_space(chars[i - 1])) {
            n = n + 1;
        }
        i = i + 1;
    }
    n
}

fn count_utf16(chars: &Vec<char>, len: usize, limit: usize) -> (n: usize)
    requires
        len <= chars@.len(),
        utf16_len(chars@.take(len as int)) <= limit,
    ensures
        n == utf16_len(chars@.take(len as int)),
{
    let mut n: usize = 0;
    let mut i: usize = 0;
    assert(chars@.take(0) =~= Seq::empty());
    while i < len
        invariant
            i <= len <= chars@.len(),
            utf16_len(chars@.take(len as int)) <= limit,
            n == utf16_len(chars@.take(i as int)),
        decreases len - i,
    {
        proof {
            lemma_utf16_take_grows(chars@, i + 1, len as int);
            assert(chars@.take(i + 1).drop_last() =~= chars@.take(i as int));
        }
        if chars[i] >= '\u{10000}' {
            n = n + 2;
        } else {
            n = n + 1;
        }
        i = i + 1;
    }
    n
}

} // verus!
