//! What wrapping shows: which part of a line stands in which row, what of it is selected, and
//! where moving and scrolling by rows leads.

use vstd::prelude::*;

use crate::shell::editor_layout::EditorRenderLine;

verus! {

use crate::shell::editor_layout::{
    break_for, breaks_at, column_at, column_in_row, held_top_row, holds_column, holds_cursor,
    last_row_of, last_top_row, law_every_column_has_one_row, lemma_break_for_within,
    lemma_column_at, lemma_size_take, moved_by_rows, revealing_top_row, row_end, row_of,
    row_with, rows_above, rows_from, rows_of, rows_of_lines, usable_breaks, utf8_size,
    utf8_width, law_column_round_trip, word_char, word_start, RowView,
};

/// The characters that words are made of when lines are wrapped: letters and digits of ASCII,
/// of the Latin letters beyond it and of Cyrillic, and some signs.
pub open spec fn in_a_word(c: char) -> bool {
    ||| 'a' <= c <= 'z'
    ||| 'A' <= c <= 'Z'
    ||| '0' <= c <= '9'
    ||| '\u{00C0}' <= c <= '\u{024F}'
    ||| '\u{0400}' <= c <= '\u{04FF}'
    ||| c == '-' || c == '_' || c == '.' || c == '\'' || c == '$' || c == '%' || c == '@'
    ||| c == '#' || c == '^' || c == '~' || c == ',' || c == '=' || c == ':' || c == '\u{22EF}'
}

proof fn lemma_word_run(s: Seq<char>, start: int, at: int)
    requires
        0 <= start <= at <= s.len(),
    ensures
        start <= word_start(s, start, at) <= at,
        forall|k: int| word_start(s, start, at) <= k < at ==> word_char(#[trigger] s[k]),
        word_start(s, start, at) > start ==> !word_char(s[word_start(s, start, at) - 1]),
    decreases at - start,
{
    if at > start && word_char(s[at - 1]) {
        lemma_word_run(s, start, at - 1);
    }
}

/// A break stays where it is wished, unless it would part a word that starts within the row:
/// then it comes in front of that word.
pub proof fn law_break_comes_in_front_of_the_word(s: Seq<char>, start: int, at: int)
    requires
        0 <= start < at <= s.len(),
    ensures
        ({
            let r = break_for(s, start, at);
            let parts = at < s.len() && in_a_word(s[at - 1]) && in_a_word(s[at]);
            &&& start < r <= at
            &&& !parts ==> r == at
            &&& forall|k: int| r <= k < at ==> in_a_word(#[trigger] s[k])
            &&& r < at ==> !in_a_word(s[r - 1])
            &&& parts && r == at ==> forall|k: int| start <= k < at ==> in_a_word(#[trigger] s[k])
        }),
{
    lemma_word_run(s, start, at);
}

/// What is known of a row of a line: it is not empty, and it ends at the end of the line or at
/// a break that was wished, as far as the words let it.
pub open spec fn row_made(line: EditorRenderLine, breaks: Seq<usize>, row: RowView) -> bool {
    let s = line.text@;
    &&& 0 <= row.start < row.end <= s.len()
    &&& row == row_of(line, row.start, row.end)
    &&& row.end < s.len() ==> exists|j: int|
        0 <= j < breaks.len() && breaks[j] < utf8_size(s) && row.end == break_for(
            s,
            row.start,
            column_at(s, #[trigger] breaks[j] as int),
        )
}

proof fn lemma_row_made(line: EditorRenderLine, breaks: Seq<usize>, start: int, i: int)
    requires
        0 <= start <= line.text@.len(),
        0 <= i < rows_from(line, breaks, start).len(),
    ensures
        row_made(line, breaks, rows_from(line, breaks, start)[i]),
    decreases breaks.len(),
{
    let s = line.text@;
    let rows = rows_from(line, breaks, start);
    if breaks.len() > 0 {
        let end = row_end(s, start, breaks[0] as int);
        let rest = breaks.drop_first();
        if breaks[0] < utf8_size(s) {
            lemma_column_at(s, breaks[0] as int);
            lemma_break_for_within(s, start, column_at(s, breaks[0] as int));
        }
        let later = if end <= start {
            start
        } else {
            end
        };
        let k = if end <= start {
            i
        } else {
            i - 1
        };
        if end > start && i == 0 {
            assert(rows[0] == row_of(line, start, end));
            if end < s.len() {
                assert(breaks[0] < utf8_size(s));
            }
        } else {
            lemma_row_made(line, rest, later, k);
            let row = rows_from(line, rest, later)[k];
            assert(rows[i] == row);
            if row.end < s.len() {
                let j = choose|j: int|
                    0 <= j < rest.len() && rest[j] < utf8_size(s) && row.end == break_for(
                        s,
                        row.start,
                        column_at(s, #[trigger] rest[j] as int),
                    );
                assert(breaks[j + 1] == rest[j]);
            }
        }
    }
}

/// A row does not end between two ASCII letters or digits, unless all of the row is one run
/// of characters that words are made of: the word that it parts began at the row's start.
pub proof fn law_rows_keep_words_whole(line: EditorRenderLine, breaks: Seq<usize>, i: int)
    requires
        line.text@.len() > 0,
        0 <= i < rows_of(line, breaks).len(),
    ensures
        ({
            let s = line.text@;
            let row = rows_of(line, breaks)[i];
            let before = s[row.end - 1];
            let behind = s[row.end];
            row.end < s.len() && ('a' <= before <= 'z' || 'A' <= before <= 'Z' || '0' <= before
                <= '9') && ('a' <= behind <= 'z' || 'A' <= behind <= 'Z' || '0' <= behind <= '9')
                ==> forall|k: int| row.start <= k < row.end ==> in_a_word(#[trigger] s[k])
        }),
{
    law_rows_part_no_word(line, breaks, i);
}

/// No more does a row end between any two characters that words are made of, unless the run
/// that it parts began at its start.
pub proof fn law_rows_part_no_word(line: EditorRenderLine, breaks: Seq<usize>, i: int)
    requires
        line.text@.len() > 0,
        0 <= i < rows_of(line, breaks).len(),
    ensures
        ({
            let s = line.text@;
            let row = rows_of(line, breaks)[i];
            row.end < s.len() && in_a_word(s[row.end - 1]) && in_a_word(s[row.end]) ==> forall|
                k: int,
            | row.start <= k < row.end ==> in_a_word(#[trigger] s[k])
        }),
{
    let s = line.text@;
    let row = rows_of(line, breaks)[i];
    lemma_row_made(line, breaks, 0, i);
    if row.end < s.len() {
        let j = choose|j: int|
            0 <= j < breaks.len() && breaks[j] < utf8_size(s) && row.end == break_for(
                s,
                row.start,
                column_at(s, #[trigger] breaks[j] as int),
            );
        let at = column_at(s, breaks[j] as int);
        lemma_column_at(s, breaks[j] as int);
        if at > row.start {
            law_break_comes_in_front_of_the_word(s, row.start, at);
        }
    }
}

/// A row shows just its part of the line, in the line's style and under its number; of it
/// just those columns are selected that are selected in the line. It tells whether it ends
/// the line.
pub proof fn law_row_shows_its_part_of_the_line(
    line: EditorRenderLine,
    breaks: Seq<usize>,
    i: int,
    column: int,
)
    requires
        0 <= i < rows_of(line, breaks).len(),
    ensures
        ({
            let row = rows_of(line, breaks)[i];
            let s = line.text@;
            &&& row.line == line.document_line_index
            &&& row.style == line.style
            &&& 0 <= row.start <= row.end <= s.len()
            &&& row.text == s.subrange(row.start, row.end)
            &&& row.is_line_end <==> row.end == s.len()
            &&& s.len() > 0 ==> row.start < row.end
            &&& row.start <= column < row.end ==> {
                let selected = line.selected_columns matches Some(range) && range.start <= column
                    < range.end;
                match row.selected {
                    Some((from, to)) => from <= column - row.start < to <==> selected,
                    None => !selected,
                }
            }
            &&& row.selected matches Some((from, to)) ==> 0 <= from < to <= row.end - row.start
        }),
{
    let row = rows_of(line, breaks)[i];
    if line.text@.len() > 0 {
        lemma_row_made(line, breaks, 0, i);
    } else {
        assert(row.text =~= line.text@.subrange(0, 0));
    }
}

proof fn lemma_column_monotonic(s: Seq<char>, a: int, b: int)
    requires
        0 <= a <= b,
    ensures
        column_at(s, a) <= column_at(s, b),
    decreases s.len(),
{
    if s.len() > 0 && a >= utf8_width(s[0]) {
        lemma_column_monotonic(
            s.drop_first(),
            a - utf8_width(s[0]),
            b - utf8_width(s[0]),
        );
    } else {
        lemma_column_at(s, b);
    }
}

proof fn lemma_break_used(line: EditorRenderLine, breaks: Seq<usize>, start: int, j: int)
    requires
        0 <= j < breaks.len(),
        forall|a: int, b: int| 0 <= a <= b < breaks.len() ==> breaks[a] <= breaks[b],
        breaks[j] < utf8_size(line.text@),
        0 <= start <= column_at(line.text@, breaks[j] as int),
        ({
            let at = column_at(line.text@, breaks[j] as int);
            at > 0 ==> !(in_a_word(line.text@[at - 1]) && in_a_word(line.text@[at]))
        }),
    ensures
        ({
            let at = column_at(line.text@, breaks[j] as int);
            let rows = rows_from(line, breaks, start);
            at == start || exists|i: int| 0 <= i < rows.len() && (#[trigger] rows[i]).end == at
        }),
    decreases breaks.len(),
{
    let s = line.text@;
    let at = column_at(s, breaks[j] as int);
    let rows = rows_from(line, breaks, start);
    lemma_column_at(s, breaks[j] as int);
    assert(breaks[0] <= breaks[j]);
    let first = column_at(s, breaks[0] as int);
    lemma_column_at(s, breaks[0] as int);
    lemma_column_monotonic(s, breaks[0] as int, breaks[j] as int);
    let end = row_end(s, start, breaks[0] as int);
    lemma_break_for_within(s, start, first);
    if j == 0 {
        if at > start {
            law_break_comes_in_front_of_the_word(s, start, at);
            assert(rows[0].end == at);
        }
    } else {
        let rest = breaks.drop_first();
        assert(rest[j - 1] == breaks[j]);
        assert forall|a: int, b: int| 0 <= a <= b < rest.len() implies rest[a] <= rest[b] by {
            assert(rest[a] == breaks[a + 1]);
            assert(rest[b] == breaks[b + 1]);
        }
        if end <= start {
            lemma_break_used(line, rest, start, j - 1);
        } else {
            lemma_break_used(line, rest, end, j - 1);
            if at == end {
                assert(rows[0].end == at);
            } else {
                let later = rows_from(line, rest, end);
                let i = choose|i: int|
                    0 <= i < later.len() && (#[trigger] later[i]).end == at;
                assert(rows[i + 1] == later[i]);
            }
        }
    }
}

/// A line is broken at each of the breaks wished that parts no word, given in order: a row
/// ends there.
pub proof fn law_line_is_broken_where_wished(line: EditorRenderLine, breaks: Seq<usize>, j: int)
    requires
        0 <= j < breaks.len(),
        forall|a: int, b: int| 0 <= a <= b < breaks.len() ==> breaks[a] <= breaks[b],
        breaks[j] < utf8_size(line.text@),
        ({
            let at = column_at(line.text@, breaks[j] as int);
            at > 0 && !(in_a_word(line.text@[at - 1]) && in_a_word(line.text@[at]))
        }),
    ensures
        exists|i: int|
            0 <= i < rows_of(line, breaks).len() && (#[trigger] rows_of(line, breaks)[i]).end
                == column_at(line.text@, breaks[j] as int),
{
    lemma_column_at(line.text@, breaks[j] as int);
    lemma_break_used(line, breaks, 0, j);
    let at = column_at(line.text@, breaks[j] as int);
    assert(rows_of(line, breaks) == rows_from(line, breaks, 0));
    let rows = rows_from(line, breaks, 0);
    let i = choose|i: int| 0 <= i < rows.len() && (#[trigger] rows[i]).end == at;
    assert(rows_of(line, breaks)[i].end == at);
}

/// Without breaks a line is one row.
pub proof fn law_unbroken_line_is_one_row(line: EditorRenderLine)
    ensures
        rows_of(line, Seq::empty()).len() == 1,
        rows_of(line, Seq::empty())[0].start == 0,
        rows_of(line, Seq::empty())[0].end == line.text@.len(),
{
}

/// A document is shown line by line: behind the rows of the lines before come the rows of a
/// line, broken at the breaks that are given for it, and not at all where none are.
pub proof fn law_document_is_shown_line_by_line(
    lines: Seq<EditorRenderLine>,
    breaks: Seq<Vec<usize>>,
    i: int,
    upto: int,
)
    requires
        0 <= i < upto <= lines.len(),
    ensures
        ({
            let before = rows_of_lines(lines, breaks, i);
            let with = rows_of_lines(lines, breaks, i + 1);
            let all = rows_of_lines(lines, breaks, upto);
            &&& rows_of_lines(lines, breaks, 0).len() == 0
            &&& before.is_prefix_of(with)
            &&& with.is_prefix_of(all)
            &&& i < breaks.len() ==> with.skip(before.len() as int) == rows_of(
                lines[i],
                breaks[i]@,
            )
            &&& i >= breaks.len() ==> with.skip(before.len() as int) == rows_of(
                lines[i],
                Seq::empty(),
            )
        }),
    decreases upto,
{
    let before = rows_of_lines(lines, breaks, i);
    let with = rows_of_lines(lines, breaks, i + 1);
    let own = rows_of(lines[i], breaks_at(breaks, i));
    assert(with == before + own);
    assert(with.skip(before.len() as int) =~= own);
    if i + 1 < upto {
        law_document_is_shown_line_by_line(lines, breaks, i, upto - 1);
    }
}

/// Every place of every line is shown: it stands in one of the rows.
pub proof fn law_every_place_is_shown(
    lines: Seq<EditorRenderLine>,
    breaks: Seq<Vec<usize>>,
    i: int,
    column: int,
)
    requires
        0 <= i < lines.len(),
        0 <= column <= lines[i].text@.len(),
    ensures
        row_with(
            rows_of_lines(lines, breaks, lines.len() as int),
            lines[i].document_line_index as int,
            column,
            0,
        ) is Some,
{
    let all = rows_of_lines(lines, breaks, lines.len() as int);
    let line = lines[i].document_line_index as int;
    let own = rows_of(lines[i], breaks_at(breaks, i));
    law_document_is_shown_line_by_line(lines, breaks, i, lines.len() as int);
    law_every_column_has_one_row(lines[i], breaks_at(breaks, i), column);
    let k = choose|k: int| 0 <= k < own.len() && holds_column(#[trigger] own[k], column);
    law_row_shows_its_part_of_the_line(lines[i], breaks_at(breaks, i), k, column);
    let before = rows_of_lines(lines, breaks, i);
    let with = rows_of_lines(lines, breaks, i + 1);
    assert(with.skip(before.len() as int)[k] == own[k]);
    assert(all[before.len() + k] == own[k]);
    assert(holds_cursor(all[before.len() + k], line, column));
    law_cursor_stands_in_the_first_row_that_holds_it(all, line, column, 0);
}

/// A column stands in a row from its start on and in front of its end; at its end only where
/// the row ends the line.
pub proof fn law_row_holds_its_columns(row: RowView, column: int)
    requires
        row.start <= row.end,
    ensures
        row.start <= column < row.end ==> holds_column(row, column),
        column < row.start || column > row.end ==> !holds_column(row, column),
        column == row.end ==> (holds_column(row, column) <==> row.is_line_end),
{
}

/// The row that the cursor is found in is of its line and holds its column, and no row before
/// is and does; where none is found, none is.
pub proof fn law_cursor_stands_in_the_first_row_that_holds_it(
    rows: Seq<RowView>,
    line: int,
    column: int,
    from: int,
)
    requires
        0 <= from,
    ensures
        match row_with(rows, line, column, from) {
            Some(i) => {
                &&& from <= i < rows.len()
                &&& rows[i].line == line
                &&& holds_column(rows[i], column)
                &&& forall|k: int|
                    from <= k < i ==> !((#[trigger] rows[k]).line == line && holds_column(
                        rows[k],
                        column,
                    ))
            },
            None => forall|k: int|
                from <= k < rows.len() ==> !((#[trigger] rows[k]).line == line && holds_column(
                    rows[k],
                    column,
                )),
        },
    decreases rows.len() - from,
{
    if from < rows.len() && !(rows[from].line == line && holds_column(rows[from], column)) {
        law_cursor_stands_in_the_first_row_that_holds_it(rows, line, column, from + 1);
    }
}

/// The column within a row counts from the row's start: nought in front of it, and the row's
/// width behind its end.
pub proof fn law_column_counts_from_the_rows_start(row: RowView, column: int)
    requires
        row.start <= row.end,
    ensures
        row.start <= column <= row.end ==> row.start + column_in_row(row, column) == column,
        column < row.start ==> column_in_row(row, column) == 0,
        column > row.end ==> row.start + column_in_row(row, column) == row.end,
{
}

/// Moving by rows leads from the cursor's row to the one that many rows further, where there
/// is one: to the same column of the row or, where it is shorter, to its end. Moving by no
/// rows stays.
pub proof fn law_moving_by_rows_keeps_the_column(
    rows: Seq<RowView>,
    line: int,
    column: int,
    delta: int,
)
    requires
        forall|k: int| 0 <= k < rows.len() ==> (#[trigger] rows[k]).start <= rows[k].end,
        rows.len() <= usize::MAX,
    ensures
        match row_with(rows, line, column, 0) {
            Some(row) => {
                let target = row + delta;
                match moved_by_rows(rows, line, column, delta) {
                    Some((to_line, to_column)) => {
                        &&& 0 <= target < rows.len()
                        &&& to_line == rows[target].line
                        &&& rows[target].start <= to_column <= rows[target].end
                        &&& column - rows[row].start <= rows[target].end - rows[target].start
                            ==> to_column - rows[target].start == column - rows[row].start
                        &&& column - rows[row].start > rows[target].end - rows[target].start
                            ==> to_column == rows[target].end
                        &&& delta == 0 ==> to_line == line && to_column == column
                    },
                    None => !(0 <= target < rows.len()),
                }
            },
            None => moved_by_rows(rows, line, column, delta) is None,
        },
{
    law_cursor_stands_in_the_first_row_that_holds_it(rows, line, column, 0);
    if let Some(row) = row_with(rows, line, column, 0) {
        law_row_holds_its_columns(rows[row], column);
        assert(rows[row].start <= rows[row].end);
        if 0 <= row + delta < rows.len() {
            assert(rows[row + delta].start <= rows[row + delta].end);
        }
    }
}

/// As many rows as are counted above a row belong to its line, just above it, and the next
/// one up does not.
pub proof fn law_rows_of_the_line_are_counted(rows: Seq<RowView>, line: int, row: int)
    requires
        0 <= row <= rows.len(),
    ensures
        ({
            let n = rows_above(rows, line, row);
            &&& 0 <= n <= row
            &&& forall|k: int| row - n <= k < row ==> (#[trigger] rows[k]).line == line
            &&& n < row ==> rows[row - n - 1].line != line
        }),
    decreases row,
{
    if row > 0 && rows[row - 1].line == line {
        law_rows_of_the_line_are_counted(rows, line, row - 1);
    }
}

/// The last row of a line is of that line, and none behind it is; there is none where no row
/// is of the line.
pub proof fn law_last_row_is_the_last(rows: Seq<RowView>, line: int, upto: int)
    requires
        0 <= upto <= rows.len(),
    ensures
        match last_row_of(rows, line, upto) {
            Some(row) => 0 <= row < upto && rows[row].line == line && forall|k: int|
                row < k < upto ==> (#[trigger] rows[k]).line != line,
            None => forall|k: int| 0 <= k < upto ==> (#[trigger] rows[k]).line != line,
        },
    decreases upto,
{
    if upto > 0 && rows[upto - 1].line != line {
        law_last_row_is_the_last(rows, line, upto - 1);
    }
}

/// Scrolling ends where the last row shows at the bottom of the window, or at the first row
/// where all rows show; a row to stand at the top is taken as it is as far as that.
pub proof fn law_scrolling_ends_at_the_last_row(rows: int, top: int, capacity: int)
    requires
        0 <= rows,
        0 <= top,
        1 <= capacity,
    ensures
        ({
            let last = last_top_row(rows, capacity);
            &&& rows <= capacity ==> last == 0
            &&& rows > capacity ==> last + capacity == rows
            &&& top <= last ==> held_top_row(rows, top, capacity) == top
            &&& top > last ==> held_top_row(rows, top, capacity) == last
            &&& last_top_row(rows, 0) == last_top_row(rows, 1)
        }),
{
}

/// A row that shows with its margin leaves the window where it is. Otherwise the window moves
/// just so far that the row shows with its margin, or as far as it goes.
pub proof fn law_window_moves_as_little_as_needed(
    rows: int,
    target: int,
    top: int,
    capacity: int,
    margin: int,
)
    requires
        0 <= target < rows,
        0 <= margin,
        1 <= capacity,
        0 <= top <= last_top_row(rows, capacity),
        2 * margin < capacity,
    ensures
        ({
            let r = revealing_top_row(rows, target, top, capacity, margin);
            let last = last_top_row(rows, capacity);
            &&& 0 <= r <= last
            &&& top + margin <= target && target + margin < top + capacity ==> r == top
            &&& r < top ==> r + margin == target || r == 0 && target < margin
            &&& r > top ==> r + capacity == target + margin + 1 || r == last
            &&& r + margin <= target || r == 0 || r == last
            &&& target + margin < r + capacity || r == last
        }),
{
}

/// The breaks taken of those measured stand in order within the text, each where a character
/// starts.
pub proof fn law_breaks_stand_between_characters(s: Seq<char>, measured: Seq<usize>)
    ensures
        forall|i: int, j: int|
            0 <= i < j < usable_breaks(s, measured).len() ==> usable_breaks(s, measured)[i]
                < usable_breaks(s, measured)[j],
        forall|i: int|
            0 <= i < usable_breaks(s, measured).len() ==> 0 < #[trigger] usable_breaks(
                s,
                measured,
            )[i] < utf8_size(s) && starts_a_character(s, usable_breaks(s, measured)[i]),
    decreases measured.len(),
{
    if measured.len() > 0 {
        let front = measured.drop_last();
        law_breaks_stand_between_characters(s, front);
        let before = usable_breaks(s, front);
        let column = column_at(s, measured.last() as int);
        let at = utf8_size(s.take(column)) as int;
        lemma_column_at(s, measured.last() as int);
        let all = usable_breaks(s, measured);
        assert(starts_a_character(s, at));
        assert forall|i: int| 0 <= i < all.len() implies 0 < #[trigger] all[i] < utf8_size(s)
            && starts_a_character(s, all[i]) by {
            if i < before.len() {
                assert(all[i] == before[i]);
            }
        }
        assert forall|i: int, j: int| 0 <= i < j < all.len() implies all[i] < all[j] by {
            if j < before.len() {
                assert(all[i] == before[i]);
                assert(all[j] == before[j]);
            } else {
                assert(all[i] == before[i]);
                assert(before[i] <= before.last());
            }
        }
    }
}

/// Whether a character of a text starts at a byte, or the text ends there.
pub open spec fn starts_a_character(s: Seq<char>, byte: int) -> bool {
    exists|k: int| 0 <= k <= s.len() && #[trigger] utf8_size(s.take(k)) == byte
}

/// Breaks that were measured in order within the text, each where a character starts, are all
/// taken as they are.
pub proof fn law_good_breaks_are_taken(s: Seq<char>, measured: Seq<usize>)
    requires
        forall|i: int, j: int| 0 <= i < j < measured.len() ==> measured[i] < measured[j],
        forall|i: int|
            0 <= i < measured.len() ==> 0 < #[trigger] measured[i] < utf8_size(s)
                && starts_a_character(s, measured[i] as int),
    ensures
        usable_breaks(s, measured).len() == measured.len(),
        forall|i: int|
            0 <= i < measured.len() ==> #[trigger] usable_breaks(s, measured)[i] == measured[i],
    decreases measured.len(),
{
    if measured.len() > 0 {
        let front = measured.drop_last();
        assert forall|i: int, j: int| 0 <= i < j < front.len() implies front[i] < front[j] by {
            assert(measured[i] < measured[j]);
        }
        assert forall|i: int| 0 <= i < front.len() implies 0 < #[trigger] front[i] < utf8_size(s)
            && starts_a_character(s, front[i] as int) by {
            assert(front[i] == measured[i]);
        }
        law_good_breaks_are_taken(s, front);
        let n = measured.len() - 1;
        let byte = measured[n] as int;
        assert(starts_a_character(s, byte));
        let k = choose|k: int| 0 <= k <= s.len() && #[trigger] utf8_size(s.take(k)) == byte;
        law_column_round_trip(s, k);
        if n > 0 {
            assert(usable_breaks(s, front)[n - 1] == front[n - 1]);
            assert(front[n - 1] == measured[n - 1]);
            assert(measured[n - 1] < measured[n]);
        }
    }
}

/// A byte belongs to the character at its column: it is not in front of that character and in
/// front of the next one. Bytes behind the text belong to its end.
pub proof fn law_byte_belongs_to_its_column(s: Seq<char>, byte: int)
    requires
        0 <= byte,
    ensures
        ({
            let column = column_at(s, byte);
            &&& 0 <= column <= s.len()
            &&& utf8_size(s.take(column)) <= byte
            &&& column < s.len() ==> byte < utf8_size(s.take(column + 1))
            &&& byte >= utf8_size(s) ==> column == s.len()
        }),
{
    lemma_column_at(s, byte);
    let column = column_at(s, byte);
    if column < s.len() {
        lemma_size_take(s, column);
    }
}

} // verus!
