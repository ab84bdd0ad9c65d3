//! What editing does to a buffer: to its text, its cursor and its selection.

use vstd::prelude::*;

verus! {

use crate::shell::editor_buffer::{
    buffer_wf, deleted_backward, deleted_forward, edit_changes, edited, extended_left,
    extended_right, lemma_offset_in_text, lemma_without_break_prefix,
    marked_dirty, marked_saved, moved_left, moved_right, moved_to, moved_vertically, offset_of,
    place_of, redone, saved_buffer, selected_columns, selection_of, shown_line,
    spliced, typed, typing_changes, undone, utf16_of, without_break, without_selection, word_at,
    word_character, word_end, word_selected, word_start, words_before, words_of, with_selection,
    BufferView,
};
use crate::shell::rope::{
    break_ends_at, lemma_line_of_monotonic, lemma_line_start, lemma_line_starts_ordered,
    lemma_position_in_line, line_chars, line_count, line_of, line_start, utf16_len,
};
use crate::text::white_space;

/// Whether a buffer differs from another one in its cursor and selection alone.
pub open spec fn only_moved(before: BufferView, after: BufferView) -> bool {
    &&& after.text == before.text
    &&& after.pieces == before.pieces
    &&& after.undo == before.undo
    &&& after.redo == before.redo
    &&& after.state_marker == before.state_marker
    &&& after.saved_marker == before.saved_marker
}

/// The first end of a buffer's selection.
pub open spec fn low_end(v: BufferView, anchor: int) -> int {
    if anchor < v.at.cursor {
        anchor
    } else {
        v.at.cursor
    }
}

/// The last end of a buffer's selection.
pub open spec fn high_end(v: BufferView, anchor: int) -> int {
    if anchor < v.at.cursor {
        v.at.cursor
    } else {
        anchor
    }
}

/// What an edit leaves: the text before the range and the text from its end on, with the new
/// text in between, the cursor behind it, nothing selected and nothing to do again. The
/// buffer is not as it was saved, and the edit can be undone.
pub open spec fn range_replaced(
    v: BufferView,
    start: int,
    end: int,
    inserted: Seq<char>,
    after: BufferView,
) -> bool {
    &&& after.text.len() == v.text.len() - (end - start) + inserted.len()
    &&& after.text.take(start) == v.text.take(start)
    &&& after.text.subrange(start, start + inserted.len()) == inserted
    &&& after.text.skip(start + inserted.len()) == v.text.skip(end)
    &&& after.at.cursor == start + inserted.len()
    &&& after.at.anchor is None
    &&& after.redo.len() == 0
    &&& after.undo.len() > 0
    &&& after.saved_marker == v.saved_marker
    &&& after.state_marker != after.saved_marker
}

/// Replacing a range of a text by another text puts the one in the place of the other.
pub proof fn law_edit_replaces_the_range(
    v: BufferView,
    start: int,
    end: int,
    inserted: Seq<char>,
    pieces: Seq<Seq<char>>,
)
    requires
        buffer_wf(v),
        0 <= start <= end <= v.text.len(),
    ensures
        v.text.subrange(start, end) != inserted ==> range_replaced(
            v,
            start,
            end,
            inserted,
            edited(v, start, end, inserted, pieces),
        ),
        v.text.subrange(start, end) == inserted ==> edited(v, start, end, inserted, pieces) == v,
        edit_changes(v, start, end, inserted) <==> edited(v, start, end, inserted, pieces).text
            != v.text,
{
    let after = edited(v, start, end, inserted, pieces);
    let text = spliced(v.text, start, end, inserted);
    if v.text.subrange(start, end) != inserted {
        assert(text.take(start) =~= v.text.take(start));
        assert(text.subrange(start, start + inserted.len()) =~= inserted);
        assert(text.skip(start + inserted.len()) =~= v.text.skip(end));
        assert(v.texts.contains_key(v.saved_marker));
        if text == v.text {
            assert(inserted.len() == end - start);
            assert(text.subrange(start, end) =~= inserted);
            assert(false);
        }
    }
}

/// Typing with nothing selected puts the text in at the cursor and the cursor behind it.
pub proof fn law_typing_puts_text_in_at_the_cursor(
    v: BufferView,
    text: Seq<char>,
    pieces: Seq<Seq<char>>,
)
    requires
        buffer_wf(v),
        v.at.anchor is None,
    ensures
        text.len() > 0 ==> range_replaced(
            v,
            v.at.cursor,
            v.at.cursor,
            text,
            typed(v, text, pieces),
        ) && typing_changes(v, text),
        text.len() == 0 ==> typed(v, text, pieces) == v && !typing_changes(v, text),
{
    law_edit_replaces_the_range(v, v.at.cursor, v.at.cursor, text, pieces);
    assert(v.text.subrange(v.at.cursor, v.at.cursor).len() == 0);
}

/// Typing with something selected puts the text in its place; typing what is selected, or
/// nothing, changes nothing.
pub proof fn law_typing_replaces_what_is_selected(
    v: BufferView,
    anchor: int,
    text: Seq<char>,
    pieces: Seq<Seq<char>>,
)
    requires
        buffer_wf(v),
        v.at.anchor == Some(anchor),
    ensures
        ({
            let low = low_end(v, anchor);
            let high = high_end(v, anchor);
            let selected = v.text.subrange(low, high);
            &&& text.len() > 0 && text != selected ==> range_replaced(
                v,
                low,
                high,
                text,
                typed(v, text, pieces),
            ) && typing_changes(v, text)
            &&& text.len() == 0 || text == selected ==> typed(v, text, pieces) == v
                && !typing_changes(v, text)
        }),
{
    law_edit_replaces_the_range(v, low_end(v, anchor), high_end(v, anchor), text, pieces);
}

/// Deleting backward with nothing selected takes exactly the one character before the cursor
/// away: all text before it and all text from the cursor on stays, and the cursor stands
/// where the character stood. At the start of the text it does nothing.
pub proof fn law_deleting_backward_takes_one_character(v: BufferView, pieces: Seq<Seq<char>>)
    requires
        buffer_wf(v),
        v.at.anchor is None,
    ensures
        ({
            let after = deleted_backward(v, pieces);
            let c = v.at.cursor;
            &&& c > 0 ==> {
                &&& after.text.len() == v.text.len() - 1
                &&& after.text.take(c - 1) == v.text.take(c - 1)
                &&& after.text.skip(c - 1) == v.text.skip(c)
                &&& after.at.cursor == c - 1
                &&& after.at.anchor is None
                &&& after.state_marker != after.saved_marker
                &&& undone(after, pieces).text == v.text
                &&& undone(after, pieces).at == v.at
            }
            &&& c == 0 ==> after == v
        }),
{
    let c = v.at.cursor;
    if c > 0 {
        law_edit_replaces_the_range(v, c - 1, c, Seq::empty(), pieces);
        assert(v.text.subrange(c - 1, c).len() == 1);
        let after = deleted_backward(v, pieces);
        assert(undone(after, pieces).text =~= v.text);
    }
}

/// Deleting forward with nothing selected takes exactly the one character behind the cursor
/// away, and the cursor stays. At the end of the text it does nothing.
pub proof fn law_deleting_forward_takes_one_character(v: BufferView, pieces: Seq<Seq<char>>)
    requires
        buffer_wf(v),
        v.at.anchor is None,
    ensures
        ({
            let after = deleted_forward(v, pieces);
            let c = v.at.cursor;
            &&& c < v.text.len() ==> {
                &&& after.text.len() == v.text.len() - 1
                &&& after.text.take(c) == v.text.take(c)
                &&& after.text.skip(c) == v.text.skip(c + 1)
                &&& after.at.cursor == c
                &&& after.at.anchor is None
                &&& after.state_marker != after.saved_marker
                &&& undone(after, pieces).text == v.text
                &&& undone(after, pieces).at == v.at
            }
            &&& c == v.text.len() ==> after == v
        }),
{
    let c = v.at.cursor;
    if c < v.text.len() {
        law_edit_replaces_the_range(v, c, c + 1, Seq::empty(), pieces);
        assert(v.text.subrange(c, c + 1).len() == 1);
        let after = deleted_forward(v, pieces);
        assert(undone(after, pieces).text =~= v.text);
    }
}

/// A character that is typed and deleted again leaves the text and the cursor as they were.
pub proof fn law_deleting_takes_a_typed_character_back(
    v: BufferView,
    c: char,
    pieces: Seq<Seq<char>>,
    later_pieces: Seq<Seq<char>>,
)
    requires
        buffer_wf(v),
        v.at.anchor is None,
    ensures
        deleted_backward(typed(v, seq![c], pieces), later_pieces).text == v.text,
        deleted_backward(typed(v, seq![c], pieces), later_pieces).at == v.at,
{
    let once = typed(v, seq![c], pieces);
    law_typing_puts_text_in_at_the_cursor(v, seq![c], pieces);
    let at = v.at.cursor;
    assert(once.text.subrange(at, at + 1).len() == 1);
    let back = deleted_backward(once, later_pieces);
    assert(back.text == spliced(once.text, at, at + 1, Seq::empty()));
    assert(back.text =~= v.text);
}

/// Deleting with something selected, in either direction, and cutting take exactly what is
/// selected away and leave the cursor in its place; typing what was cut puts it back.
pub proof fn law_deleting_takes_what_is_selected(
    v: BufferView,
    anchor: int,
    pieces: Seq<Seq<char>>,
    later_pieces: Seq<Seq<char>>,
)
    requires
        buffer_wf(v),
        v.at.anchor == Some(anchor),
    ensures
        ({
            let low = low_end(v, anchor);
            let high = high_end(v, anchor);
            let after = without_selection(v, pieces);
            &&& range_replaced(v, low, high, Seq::empty(), after)
            &&& deleted_backward(v, pieces) == after
            &&& deleted_forward(v, pieces) == after
            &&& typed(after, v.text.subrange(low, high), later_pieces).text == v.text
        }),
{
    let low = low_end(v, anchor);
    let high = high_end(v, anchor);
    law_edit_replaces_the_range(v, low, high, Seq::empty(), pieces);
    assert(v.text.subrange(low, high).len() == high - low);
    let after = without_selection(v, pieces);
    assert(after.text.subrange(low, low).len() == 0);
    assert(typed(after, v.text.subrange(low, high), later_pieces).text =~= v.text);
}

/// What is selected lies between the cursor and the far end of the selection.
pub proof fn law_selection_lies_between_its_ends(v: BufferView)
    requires
        buffer_wf(v),
    ensures
        v.at.anchor is None ==> selection_of(v) is None,
        v.at.anchor matches Some(a) ==> selection_of(v) == Some((low_end(v, a), high_end(v, a)))
            && low_end(v, a) < high_end(v, a),
{
}

/// A step to the left or to the right moves the cursor by one character, as far as the text
/// goes, or to that end of the selection, which is dropped; the text stays. A step back takes
/// a step within the text back.
pub proof fn law_steps_go_by_one_character(v: BufferView)
    requires
        buffer_wf(v),
    ensures
        only_moved(v, moved_left(v)),
        only_moved(v, moved_right(v)),
        moved_left(v).at.anchor is None,
        moved_right(v).at.anchor is None,
        v.at.anchor is None && v.at.cursor > 0 ==> moved_left(v).at.cursor == v.at.cursor - 1,
        v.at.anchor is None && v.at.cursor == 0 ==> moved_left(v).at.cursor == 0,
        v.at.anchor is None && v.at.cursor < v.text.len() ==> moved_right(v).at.cursor
            == v.at.cursor + 1,
        v.at.anchor is None && v.at.cursor == v.text.len() ==> moved_right(v).at.cursor
            == v.text.len(),
        v.at.anchor matches Some(a) ==> moved_left(v).at.cursor == low_end(v, a)
            && moved_right(v).at.cursor == high_end(v, a),
        v.at.anchor is None && v.at.cursor > 0 ==> moved_right(moved_left(v)) == v,
        v.at.anchor is None && v.at.cursor < v.text.len() ==> moved_left(moved_right(v)) == v,
{
}

/// Drawing the selection moves the cursor by one character, as far as the text goes, and
/// keeps its other end: the cursor's own place where nothing was selected. Where the two
/// meet, nothing is selected.
pub proof fn law_drawing_the_selection_keeps_its_other_end(v: BufferView)
    requires
        buffer_wf(v),
    ensures
        ({
            let end = match v.at.anchor {
                Some(a) => a,
                None => v.at.cursor,
            };
            let left = extended_left(v);
            let right = extended_right(v);
            &&& only_moved(v, left)
            &&& only_moved(v, right)
            &&& v.at.cursor > 0 ==> left.at.cursor == v.at.cursor - 1
            &&& v.at.cursor == 0 ==> left.at.cursor == 0
            &&& v.at.cursor < v.text.len() ==> right.at.cursor == v.at.cursor + 1
            &&& v.at.cursor == v.text.len() ==> right.at.cursor == v.text.len()
            &&& left.at.cursor != end ==> left.at.anchor == Some(end)
            &&& left.at.cursor == end ==> left.at.anchor is None
            &&& right.at.cursor != end ==> right.at.anchor == Some(end)
            &&& right.at.cursor == end ==> right.at.anchor is None
        }),
{
}

/// A move puts the cursor where it says, at the end of the text at most; it drops the
/// selection or keeps its other end, as it is told, and leaves the text.
pub proof fn law_move_goes_where_it_says(v: BufferView, offset: int, extend: bool)
    requires
        buffer_wf(v),
        0 <= offset,
    ensures
        ({
            let after = moved_to(v, offset, extend);
            let end = match v.at.anchor {
                Some(a) => a,
                None => v.at.cursor,
            };
            &&& only_moved(v, after)
            &&& offset <= v.text.len() ==> after.at.cursor == offset
            &&& offset > v.text.len() ==> after.at.cursor == v.text.len()
            &&& !extend ==> after.at.anchor is None
            &&& extend && after.at.cursor != end ==> after.at.anchor == Some(end)
            &&& extend && after.at.cursor == end ==> after.at.anchor is None
            &&& buffer_wf(after)
        }),
{
}

/// A range that is set as the selection is what is then selected, in whichever order its ends
/// are given and as far as it lies in the text; the cursor stands at its start where it is
/// reversed and at its end otherwise. An empty range selects nothing.
pub proof fn law_selection_is_the_range_that_was_set(
    v: BufferView,
    start: int,
    end: int,
    reversed: bool,
)
    requires
        buffer_wf(v),
        0 <= start <= end <= v.text.len(),
    ensures
        ({
            let after = with_selection(v, start, end, reversed);
            &&& only_moved(v, after)
            &&& buffer_wf(after)
            &&& start < end ==> selection_of(after) == Some((start, end))
            &&& start < end && reversed ==> after.at.cursor == start
            &&& start < end && !reversed ==> after.at.cursor == end
            &&& start == end ==> selection_of(after) is None && after.at.anchor is None
                && after.at.cursor == start
            &&& with_selection(v, end, start, reversed) == after
            &&& end == v.text.len() ==> forall|beyond: int|
                end <= beyond ==> #[trigger] with_selection(v, start, beyond, reversed) == after
        }),
{
}

/// A line goes from where it starts up to where the next one starts: the first from the start
/// of the text, the last up to its end, each but the last with a line break at its end, and
/// none with a break before that.
pub proof fn law_lines_end_at_their_breaks(text: Seq<char>, line: int)
    requires
        0 <= line < line_count(text),
    ensures
        ({
            let start = line_start(text, line);
            let next = line_start(text, line + 1);
            &&& 0 <= start <= next <= text.len()
            &&& line == 0 ==> start == 0
            &&& line + 1 == line_count(text) ==> next == text.len()
            &&& line + 1 < line_count(text) ==> start < next && break_ends_at(text, next - 1)
            &&& forall|i: int|
                start <= i < (if line + 1 < line_count(text) {
                    next - 1
                } else {
                    next
                }) ==> !#[trigger] break_ends_at(text, i)
        }),
{
    let start = line_start(text, line);
    let next = line_start(text, line + 1);
    lemma_line_start(text, line);
    lemma_line_starts_ordered(text, line);
    if line == 0 && start > 0 {
        assert(line_of(text, 0) < 0);
        assert(false);
    }
    let past = if line + 1 < line_count(text) {
        next - 1
    } else {
        next
    };
    if line + 1 < line_count(text) {
        lemma_line_start(text, line + 1);
        if start == next {
            assert(false);
        }
        lemma_line_of_monotonic(text, start, next - 1);
        assert(line_of(text, next - 1) < line + 1);
    } else {
        assert(line_of(text, text.len() as int) == line);
    }
    assert forall|i: int| start <= i < past implies !#[trigger] break_ends_at(text, i) by {
        lemma_line_of_monotonic(text, start, i);
        lemma_line_of_monotonic(text, i + 1, past);
        assert(line_of(text, past) <= line);
    }
}

/// A line is shown without the line feeds and carriage returns at its end, and with all the
/// rest of it.
pub proof fn law_shown_line_lacks_its_break_alone(line: Seq<char>)
    ensures
        ({
            let shown = without_break(line);
            &&& shown.is_prefix_of(line)
            &&& shown.len() > 0 ==> shown.last() != '\n' && shown.last() != '\r'
            &&& forall|i: int|
                shown.len() <= i < line.len() ==> (#[trigger] line[i] == '\n' || line[i] == '\r')
        }),
    decreases line.len(),
{
    if line.len() > 0 && (line.last() == '\n' || line.last() == '\r') {
        let front = line.drop_last();
        law_shown_line_lacks_its_break_alone(front);
        assert forall|i: int| without_break(line).len() <= i < line.len() implies (
        #[trigger] line[i] == '\n' || line[i] == '\r') by {
            if i < front.len() {
                assert(front[i] == line[i]);
            }
        }
        assert(front.is_prefix_of(line));
    }
}

/// The line and column of an offset lead back to it: the offset is that many characters
/// behind the start of the line, and no break lies in between.
pub proof fn law_place_of_an_offset_leads_back(text: Seq<char>, offset: int)
    requires
        0 <= offset <= text.len(),
    ensures
        ({
            let (line, column) = place_of(text, offset);
            &&& 0 <= line < line_count(text)
            &&& 0 <= column
            &&& line_start(text, line) + column == offset
            &&& line + 1 < line_count(text) ==> offset < line_start(text, line + 1)
            &&& column <= shown_line(text, line).len() ==> offset_of(text, line, column) == offset
        }),
{
    lemma_position_in_line(text, offset);
    let line = line_of(text, offset);
    if line + 1 < line_count(text) {
        lemma_line_start(text, line + 1);
        if line_start(text, line + 1) <= offset {
            lemma_line_of_monotonic(text, line_start(text, line + 1), offset);
        }
    }
}

/// The offset of a line and column is that column of that line, where the line has it; a
/// column beyond what is shown of the line is its end, and a line beyond the last is the last.
pub proof fn law_offset_of_a_place_leads_back(text: Seq<char>, line: int, column: int)
    requires
        0 <= line < line_count(text),
        0 <= column <= shown_line(text, line).len(),
    ensures
        offset_of(text, line, column) == line_start(text, line) + column,
        column < line_chars(text, line).len() || line + 1 == line_count(text) ==> place_of(
            text,
            offset_of(text, line, column),
        ) == (line, column),
        forall|beyond: int|
            shown_line(text, line).len() <= beyond ==> #[trigger] offset_of(text, line, beyond)
                == line_start(text, line) + shown_line(text, line).len(),
        line + 1 == line_count(text) ==> forall|beyond: int|
            line <= beyond ==> #[trigger] offset_of(text, beyond, column) == offset_of(
                text,
                line,
                column,
            ),
{
    lemma_line_start(text, line);
    lemma_line_starts_ordered(text, line);
    lemma_without_break_prefix(line_chars(text, line));
    let offset = offset_of(text, line, column);
    let start = line_start(text, line);
    lemma_line_of_monotonic(text, start, offset);
    if line + 1 < line_count(text) {
        lemma_line_start(text, line + 1);
    } else {
        lemma_line_of_monotonic(text, offset, text.len() as int);
    }
}

/// A move up or down goes to the next line in that direction, into the same column or, where
/// that line is shorter, to its end; beyond the first and the last line it stays.
pub proof fn law_vertical_move_keeps_the_column(v: BufferView, delta: int, extend: bool)
    requires
        buffer_wf(v),
    ensures
        ({
            let after = moved_vertically(v, delta, extend);
            let (line, column) = place_of(v.text, v.at.cursor);
            let goes = 0 <= line + delta < line_count(v.text);
            let shown = shown_line(v.text, line + delta).len();
            &&& only_moved(v, after)
            &&& !goes ==> after == v
            &&& goes && column <= shown ==> after.at.cursor == line_start(v.text, line + delta)
                + column
            &&& goes && column > shown ==> after.at.cursor == line_start(v.text, line + delta)
                + shown
            &&& goes && !extend ==> after.at.anchor is None
            &&& goes && extend && v.at.anchor is None && after.at.cursor != v.at.cursor
                ==> after.at.anchor == Some(v.at.cursor)
        }),
{
    let (line, column) = place_of(v.text, v.at.cursor);
    law_place_of_an_offset_leads_back(v.text, v.at.cursor);
    if 0 <= line + delta < line_count(v.text) {
        lemma_offset_in_text(v.text, line + delta, column);
    }
}

/// Of the ASCII characters the letters, the digits, `_`, `-` and `'` make up words, and no
/// others.
pub proof fn law_words_are_made_of_letters(c: char)
    ensures
        'a' <= c <= 'z' ==> word_character(c),
        'A' <= c <= 'Z' ==> word_character(c),
        '0' <= c <= '9' ==> word_character(c),
        c == '_' || c == '-' || c == '\'' ==> word_character(c),
        c <= '\u{7f}' && !('a' <= c <= 'z') && !('A' <= c <= 'Z') && !('0' <= c <= '9') && c != '_'
            && c != '-' && c != '\'' ==> !word_character(c),
{
}

proof fn lemma_word_start(text: Seq<char>, i: int)
    requires
        0 <= i <= text.len(),
    ensures
        0 <= word_start(text, i) <= i,
        forall|k: int| word_start(text, i) <= k < i ==> word_character(#[trigger] text[k]),
        word_start(text, i) > 0 ==> !word_character(text[word_start(text, i) - 1]),
    decreases i,
{
    if i > 0 && word_character(text[i - 1]) {
        lemma_word_start(text, i - 1);
    }
}

proof fn lemma_word_end(text: Seq<char>, i: int)
    requires
        0 <= i <= text.len(),
    ensures
        i <= word_end(text, i) <= text.len(),
        forall|k: int| i <= k < word_end(text, i) ==> word_character(#[trigger] text[k]),
        word_end(text, i) < text.len() ==> !word_character(text[word_end(text, i)]),
    decreases text.len() - i,
{
    if i < text.len() && word_character(text[i]) {
        lemma_word_end(text, i + 1);
    }
}

/// The word at an offset is a run of word characters that no more of them stand next to, and
/// the offset lies in it or, at the end of the text, behind it. There is none where no word
/// character stands there.
pub proof fn law_word_is_a_whole_run(text: Seq<char>, offset: int)
    requires
        0 <= offset <= text.len(),
    ensures
        match word_at(text, offset) {
            Some((start, end)) => {
                &&& 0 <= start <= offset <= end <= text.len()
                &&& start < end
                &&& offset < text.len() ==> offset < end
                &&& forall|k: int| start <= k < end ==> word_character(#[trigger] text[k])
                &&& start > 0 ==> !word_character(text[start - 1])
                &&& end < text.len() ==> !word_character(text[end])
            },
            None => {
                &&& offset < text.len() ==> !word_character(text[offset])
                &&& offset == text.len() && offset > 0 ==> !word_character(text[offset - 1])
            },
        },
{
    lemma_word_start(text, offset);
    if offset < text.len() {
        lemma_word_end(text, offset + 1);
    } else {
        lemma_word_end(text, offset);
        if offset > 0 {
            lemma_word_start(text, offset - 1);
        }
    }
}

/// Selecting the word at a place selects that word, with the cursor at its end, or puts the
/// cursor there where no word is.
pub proof fn law_word_is_selected(v: BufferView, line: int, column: int)
    requires
        buffer_wf(v),
        0 <= line,
        0 <= column,
    ensures
        ({
            let after = word_selected(v, line, column);
            let offset = offset_of(v.text, line, column);
            &&& only_moved(v, after)
            &&& word_at(v.text, offset) matches Some((start, end)) ==> selection_of(after) == Some(
                (start, end),
            ) && after.at.cursor == end
            &&& word_at(v.text, offset) is None ==> after.at.cursor == offset
                && after.at.anchor is None
        }),
{
    lemma_offset_in_text(v.text, line, column);
    law_word_is_a_whole_run(v.text, offset_of(v.text, line, column));
}

/// The selected columns of a line are exactly the shown characters of it that lie in the
/// selection.
pub proof fn law_selected_columns_lie_in_the_selection(v: BufferView, line: int, column: int)
    requires
        buffer_wf(v),
        0 <= line < line_count(v.text),
        0 <= column < shown_line(v.text, line).len(),
    ensures
        ({
            let offset = line_start(v.text, line) + column;
            let selected = v.at.anchor matches Some(a) && low_end(v, a) <= offset < high_end(v, a);
            match selected_columns(v, line) {
                Some((start, end)) => (start <= column < end <==> selected) && 0 <= start < end
                    <= shown_line(v.text, line).len(),
                None => !selected,
            }
        }),
{
    lemma_line_starts_ordered(v.text, line);
}

/// Text without white space is one word, none where it is empty.
pub proof fn law_unbroken_text_is_one_word(s: Seq<char>)
    requires
        forall|i: int| 0 <= i < s.len() ==> !white_space(#[trigger] s[i]),
    ensures
        s.len() > 0 ==> words_of(s) == 1,
        s.len() == 0 ==> words_of(s) == 0,
{
    if s.len() > 0 {
        lemma_unbroken(s, s.len() as int);
    }
}

proof fn lemma_unbroken(s: Seq<char>, i: int)
    requires
        0 < i <= s.len(),
        forall|k: int| 0 <= k < s.len() ==> !white_space(#[trigger] s[k]),
    ensures
        words_before(s, i) == 1,
    decreases i,
{
    if i > 1 {
        lemma_unbroken(s, i - 1);
    } else {
        assert(words_before(s, 0) == 0);
    }
}

proof fn lemma_words_in_front(a: Seq<char>, b: Seq<char>, i: int)
    requires
        i <= a.len(),
    ensures
        words_before(a + b, i) == words_before(a, i),
    decreases i,
{
    if i > 0 {
        lemma_words_in_front(a, b, i - 1);
    }
}

proof fn lemma_words_behind(a: Seq<char>, c: char, b: Seq<char>, i: int)
    requires
        white_space(c),
        0 <= i <= b.len(),
    ensures
        words_before(a.push(c) + b, a.len() + 1 + i) == words_of(a) + words_before(b, i),
    decreases i,
{
    let all = a.push(c) + b;
    let n = a.len() as int;
    if i == 0 {
        lemma_words_in_front(a, seq![c] + b, n);
        assert(a + (seq![c] + b) =~= all);
        assert(all[n] == c);
    } else {
        lemma_words_behind(a, c, b, i - 1);
        assert(all[n + i] == b[i - 1]);
        if i > 1 {
            assert(all[n + i - 1] == b[i - 2]);
        } else {
            assert(all[n] == c);
        }
    }
}

/// White space parts words: two texts with white space in between have as many words as the
/// two have.
pub proof fn law_white_space_parts_words(a: Seq<char>, c: char, b: Seq<char>)
    requires
        white_space(c),
    ensures
        words_of(a.push(c) + b) == words_of(a) + words_of(b),
{
    lemma_words_behind(a, c, b, b.len() as int);
}

/// A UTF-16 offset grows by one for each character, by two for one beyond the first plane.
pub proof fn law_utf16_offset_grows_by_character(s: Seq<char>, i: int)
    requires
        0 <= i < s.len(),
    ensures
        utf16_of(s, 0) == 0,
        s[i] < '\u{10000}' ==> utf16_of(s, i + 1) == utf16_of(s, i) + 1,
        s[i] >= '\u{10000}' ==> utf16_of(s, i + 1) == utf16_of(s, i) + 2,
{
    assert(s.take(0) =~= Seq::empty());
    assert(s.take(i + 1).drop_last() =~= s.take(i));
    assert(utf16_len(s.take(i + 1)) == utf16_len(s.take(i)) + (if s[i] >= '\u{10000}' {
        2int
    } else {
        1int
    }));
}

/// A hundred edits can be undone: one more forgets the oldest, and none before that is
/// forgotten.
pub proof fn law_last_edits_can_be_undone(
    v: BufferView,
    start: int,
    end: int,
    inserted: Seq<char>,
    pieces: Seq<Seq<char>>,
)
    requires
        buffer_wf(v),
        0 <= start <= end <= v.text.len(),
        v.text.subrange(start, end) != inserted,
    ensures
        ({
            let after = edited(v, start, end, inserted, pieces);
            &&& v.undo.len() < 100 ==> after.undo.drop_last() == v.undo
            &&& v.undo.len() == 100 ==> after.undo.drop_last() == v.undo.drop_first()
            &&& after.undo.len() <= 100
        }),
{
    let after = edited(v, start, end, inserted, pieces);
    if v.undo.len() < 100 {
        assert(after.undo.drop_last() =~= v.undo);
    } else {
        assert(after.undo.drop_last() =~= v.undo.drop_first());
    }
}

/// A buffer that is marked as saved is not dirty, one that is marked as dirty is, and neither
/// changes its text. Undoing the one edit since the buffer was saved makes it clean again.
pub proof fn law_marks_tell_saved_from_changed(
    v: BufferView,
    start: int,
    end: int,
    inserted: Seq<char>,
    pieces: Seq<Seq<char>>,
)
    requires
        buffer_wf(v),
        v.next_marker < u64::MAX,
        0 <= start <= end <= v.text.len(),
    ensures
        ({
            let saved = marked_saved(v);
            let dirty = marked_dirty(v);
            let back = undone(edited(saved, start, end, inserted, pieces), pieces);
            &&& saved.state_marker == saved.saved_marker
            &&& saved.text == v.text
            &&& saved.at == v.at
            &&& saved.undo == v.undo
            &&& saved.redo == v.redo
            &&& dirty.state_marker != dirty.saved_marker
            &&& dirty.saved_marker == v.saved_marker
            &&& dirty.text == v.text
            &&& dirty.at == v.at
            &&& dirty.undo == v.undo
            &&& dirty.redo == v.redo
            &&& v.text.subrange(start, end) != inserted ==> back.state_marker == back.saved_marker
        }),
{
    assert(v.texts.contains_key(v.saved_marker));
}

/// Without an edit to take back or to make again, undo and redo do nothing.
pub proof fn law_nothing_to_undo_changes_nothing(v: BufferView, pieces: Seq<Seq<char>>)
    ensures
        v.undo.len() == 0 ==> undone(v, pieces) == v,
        v.redo.len() == 0 ==> redone(v, pieces) == v,
{
}

/// A new buffer holds its text, with the cursor at the start, nothing selected, nothing to
/// undo or redo, and counts as saved.
pub proof fn law_new_buffer_is_clean(text: Seq<char>, pieces: Seq<Seq<char>>)
    ensures
        ({
            let v = saved_buffer(text, pieces);
            &&& v.text == text
            &&& v.at.cursor == 0
            &&& v.at.anchor is None
            &&& v.undo.len() == 0
            &&& v.redo.len() == 0
            &&& v.state_marker == v.saved_marker
        }),
{
}

} // verus!
