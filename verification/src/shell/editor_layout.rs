//! Lines of a document as they are seen: wrapped into rows, with the columns, the
//! selection and the scrolling that go with it.

use std::ops::Range;

use vstd::prelude::*;

use crate::shell::editor_buffer::EditorCursor;
use crate::text::{chars_of, string_of_range};

verus! {

broadcast use vstd::string::group_string_axioms;

/// How a line looks.
#[derive(Clone, Copy, Debug, PartialEq, Eq, Hash, Structural)]
pub enum EditorLineStyle {
    Body,
    Heading,
}

impl EditorLineStyle {
    /// The style of a line: those that start with a number sign are headings.
    #[must_use]
    pub fn for_text(text: &str) -> (r: Self)
        ensures
            r is Heading == (text@.len() > 0 && text@[0] == '#'),
    {
        let chars = chars_of(text);
        if chars.len() > 0 && chars[0] == '#' {
            EditorLineStyle::Heading
        } else {
            EditorLineStyle::Body
        }
    }
}

/// A line of a document, to be shown.
#[derive(Debug)]
pub struct EditorRenderLine {
    pub document_line_index: usize,
    pub text: String,
    pub selected_columns: Option<Range<usize>>,
    pub style: EditorLineStyle,
}

/// A row: a line, or a part of one, as it is seen.
#[derive(Debug, PartialEq, Eq)]
pub struct EditorVisualLine {
    pub document_line_index: usize,
    pub source_columns: Range<usize>,
    pub text: String,
    pub selected_columns: Option<Range<usize>>,
    pub is_line_end: bool,
    pub style: EditorLineStyle,
}

/// A row.
#[verifier::ext_equal]
pub struct RowView {
    pub line: int,
    pub start: int,
    pub end: int,
    pub text: Seq<char>,
    pub selected: Option<(int, int)>,
    pub is_line_end: bool,
    pub style: EditorLineStyle,
}

/// The ends of a range that may be missing.
pub open spec fn opt_range(r: Option<Range<usize>>) -> Option<(int, int)> {
    match r {
        Some(range) => Some((range.start as int, range.end as int)),
        None => None,
    }
}

impl View for EditorVisualLine {
    type V = RowView;

    open spec fn view(&self) -> RowView {
        RowView {
            line: self.document_line_index as int,
            start: self.source_columns.start as int,
            end: self.source_columns.end as int,
            text: self.text@,
            selected: opt_range(self.selected_columns),
            is_line_end: self.is_line_end,
            style: self.style,
        }
    }
}

/// Whether a column of the document's line stands in a row: at the end of the line the
/// place behind the last character does too.
pub open spec fn holds_column(row: RowView, column: int) -> bool {
    (row.start <= column < row.end) || (row.is_line_end && column == row.end)
}

/// Whether a place in the document stands in a row.
pub open spec fn holds_cursor(row: RowView, line: int, column: int) -> bool {
    row.line == line && holds_column(row, column)
}

/// The column within a row for a column of the document's line.
pub open spec fn column_in_row(row: RowView, column: int) -> int {
    let width = row.end - row.start;
    if column <= row.start {
        0
    } else if column - row.start > width {
        width
    } else {
        column - row.start
    }
}

impl EditorVisualLine {
    /// Whether the cursor stands in the row.
    #[must_use]
    pub fn contains_cursor(&self, cursor: EditorCursor) -> (r: bool)
        ensures
            r == holds_cursor(self@, cursor.line as int, cursor.column as int),
    {
        self.document_line_index == cursor.line && self.contains_source_column(cursor.column)
    }

    /// Whether a column of the document's line stands in the row.
    #[must_use]
    pub fn contains_source_column(&self, column: usize) -> (r: bool)
        ensures
            r == holds_column(self@, column as int),
    {
        (self.source_columns.start <= column && column < self.source_columns.end) || (
        self.is_line_end && column == self.source_columns.end)
    }

    /// The column within the row for a column of the document's line.
    #[must_use]
    pub fn relative_column_for_source_column(&self, column: usize) -> (r: usize)
        requires
            self@.start <= self@.end,
        ensures
            r == column_in_row(self@, column as int),
    {
        let width: usize = self.source_columns.end - self.source_columns.start;
        let offset: usize = column.saturating_sub(self.source_columns.start);
        if offset > width {
            width
        } else {
            offset
        }
    }
}

/// How many bytes a character takes in UTF-8.
pub open spec fn utf8_width(c: char) -> nat {
    if c as u32 <= 0x7f {
        1
    } else if c as u32 <= 0x7ff {
        2
    } else if c as u32 <= 0xffff {
        3
    } else {
        4
    }
}

/// How many bytes a text takes in UTF-8.
pub open spec fn utf8_size(s: Seq<char>) -> nat
    decreases s.len(),
{
    if s.len() == 0 {
        0
    } else {
        utf8_width(s[0]) + utf8_size(s.drop_first())
    }
}

/// The column of the character that a byte of the text belongs to; behind the last
/// character for bytes behind the text.
pub open spec fn column_at(s: Seq<char>, byte_index: int) -> int
    decreases s.len(),
{
    if s.len() == 0 || byte_index < utf8_width(s[0]) {
        0
    } else {
        1 + column_at(s.drop_first(), byte_index - utf8_width(s[0]))
    }
}

/// The size of a text is the length of its UTF-8 encoding.
pub proof fn law_size_is_encoded_length(s: Seq<char>)
    ensures
        utf8_size(s) == vstd::utf8::encode_utf8(s).len(),
    decreases s.len(),
{
    if s.len() > 0 {
        vstd::utf8::char_is_scalar(s[0]);
        law_size_is_encoded_length(s.drop_first());
    }
}

/// Each character adds its bytes.
pub proof fn lemma_size_take(s: Seq<char>, k: int)
    requires
        0 <= k < s.len(),
    ensures
        utf8_size(s.take(k + 1)) == utf8_size(s.take(k)) + utf8_width(s[k]),
        utf8_size(s.take(k)) < utf8_size(s.take(k + 1)) <= utf8_size(s),
    decreases s.len(),
{
    if k == 0 {
        assert(s.take(0) =~= Seq::empty());
        assert(s.take(1).drop_first() =~= Seq::empty());
        assert(s.take(1)[0] == s[0]);
    } else {
        let rest = s.drop_first();
        lemma_size_take(rest, k - 1);
        assert(s.take(k + 1).drop_first() =~= rest.take(k));
        assert(s.take(k).drop_first() =~= rest.take(k - 1));
    }
}

/// A byte lies in the character of its column.
pub proof fn lemma_column_at(s: Seq<char>, byte_index: int)
    requires
        0 <= byte_index,
    ensures
        0 <= column_at(s, byte_index) <= s.len(),
        utf8_size(s.take(column_at(s, byte_index))) <= byte_index,
        column_at(s, byte_index) < s.len() ==> byte_index < utf8_size(
            s.take(column_at(s, byte_index) + 1),
        ),
    decreases s.len(),
{
    assert(s.take(0) =~= Seq::empty());
    if s.len() > 0 {
        if byte_index >= utf8_width(s[0]) {
            let rest = s.drop_first();
            let k = column_at(rest, byte_index - utf8_width(s[0]));
            lemma_column_at(rest, byte_index - utf8_width(s[0]));
            assert(s.take(k + 1).drop_first() =~= rest.take(k));
            if k < rest.len() {
                assert(s.take(k + 2).drop_first() =~= rest.take(k + 1));
            }
        } else {
            assert(s.take(1).drop_first() =~= Seq::empty());
            assert(s.take(1)[0] == s[0]);
        }
    }
}

/// The byte at which a character starts leads back to its column.
pub proof fn law_column_round_trip(s: Seq<char>, column: int)
    requires
        0 <= column <= s.len(),
    ensures
        column_at(s, utf8_size(s.take(column)) as int) == column,
    decreases s.len(),
{
    if column == 0 {
        assert(s.take(0) =~= Seq::empty());
    } else {
        let rest = s.drop_first();
        assert(s.take(column).drop_first() =~= rest.take(column - 1));
        law_column_round_trip(rest, column - 1);
    }
}

fn width_of(c: char) -> (r: usize)
    ensures
        r == utf8_width(c),
{
    let code: u32 = c as u32;
    if code <= 0x7f {
        1
    } else if code <= 0x7ff {
        2
    } else if code <= 0xffff {
        3
    } else {
        4
    }
}

/// How many bytes a text takes.
fn size_of(text: &str) -> (r: usize)
    ensures
        r == utf8_size(text@),
{
    proof {
        law_size_is_encoded_length(text@);
    }
    let bytes = text.as_bytes();
    bytes.len()
}

/// How many bytes the first characters of a text take.
pub fn byte_size(chars: &Vec<char>, upto: usize) -> (r: usize)
    requires
        upto <= chars@.len(),
    ensures
        r == utf8_size(chars@.take(upto as int)),
{
    let text = string_of_range(chars, 0, upto);
    assert(chars@.subrange(0, upto as int) =~= chars@.take(upto as int));
    size_of(text.as_str())
}

/// The byte at which the character of a column starts, the end of the text for columns
/// behind it.
#[must_use]
pub fn byte_offset_for_char_column(text: &str, column: usize) -> (r: usize)
    ensures
        r == utf8_size(
            text@.take(
                if column < text@.len() {
                    column as int
                } else {
                    text@.len() as int
                },
            ),
        ),
{
    let chars = chars_of(text);
    let total = size_of(text);
    let mut offset: usize = 0;
    let mut i: usize = 0;
    assert(text@.take(0) =~= Seq::empty());
    while i < chars.len() && i < column
        invariant
            chars@ == text@,
            total == utf8_size(text@),
            i <= chars.len(),
            i <= column,
            offset == utf8_size(text@.take(i as int)),
        decreases chars.len() - i,
    {
        proof {
            lemma_size_take(text@, i as int);
        }
        offset += width_of(chars[i]);
        i += 1;
    }
    offset
}

/// The column of the character that a byte belongs to.
#[must_use]
pub fn char_column_for_byte_index(text: &str, byte_index: usize) -> (r: usize)
    ensures
        r == column_at(text@, byte_index as int),
        r <= text@.len(),
{
    let chars = chars_of(text);
    column_in(&chars, byte_index)
}

fn column_in(chars: &Vec<char>, byte_index: usize) -> (r: usize)
    ensures
        r == column_at(chars@, byte_index as int),
        r <= chars@.len(),
{
    let mut left: usize = byte_index;
    let mut i: usize = 0;
    assert(chars@.skip(0) =~= chars@);
    while i < chars.len() && width_of(chars[i]) <= left
        invariant
            i <= chars.len(),
            i + column_at(chars@.skip(i as int), left as int) == column_at(
                chars@,
                byte_index as int,
            ),
        decreases chars.len() - i,
    {
        assert(chars@.skip(i as int).drop_first() =~= chars@.skip(i + 1));
        left -= width_of(chars[i]);
        i += 1;
    }
    i
}

/// Whether a character is part of a word.
pub open spec fn word_char(c: char) -> bool {
    ||| 'a' <= c <= 'z'
    ||| 'A' <= c <= 'Z'
    ||| '0' <= c <= '9'
    ||| '\u{00C0}' <= c <= '\u{024F}'
    ||| '\u{0400}' <= c <= '\u{04FF}'
    ||| c == '-'
    ||| c == '_'
    ||| c == '.'
    ||| c == '\''
    ||| c == '$'
    ||| c == '%'
    ||| c == '@'
    ||| c == '#'
    ||| c == '^'
    ||| c == '~'
    ||| c == ','
    ||| c == '='
    ||| c == ':'
    ||| c == '\u{22EF}'
}

fn is_editor_word_character(c: char) -> (r: bool)
    ensures
        r == word_char(c),
{
    ('a' <= c && c <= 'z') || ('A' <= c && c <= 'Z') || ('0' <= c && c <= '9') || ('\u{00C0}' <= c
        && c <= '\u{024F}') || ('\u{0400}' <= c && c <= '\u{04FF}') || c == '-' || c == '_' || c
        == '.' || c == '\'' || c == '$' || c == '%' || c == '@' || c == '#' || c == '^' || c == '~'
        || c == ',' || c == '=' || c == ':' || c == '\u{22EF}'
}

/// Whether a break at a column would part a word.
pub open spec fn parts_word(s: Seq<char>, at: int) -> bool {
    0 < at < s.len() && word_char(s[at - 1]) && word_char(s[at])
}

/// Where the word that ends at a column starts, but not before `start`.
pub open spec fn word_start(s: Seq<char>, start: int, at: int) -> int
    decreases at - start,
{
    if at > start && word_char(s[at - 1]) {
        word_start(s, start, at - 1)
    } else {
        at
    }
}

/// Where a row that starts at `start` is broken, for a break wished at `at`: in front of
/// the word that it would part, unless that word fills the row.
pub open spec fn break_for(s: Seq<char>, start: int, at: int) -> int {
    if at <= start || !parts_word(s, at) {
        at
    } else {
        let candidate = word_start(s, start, at);
        if candidate > start {
            candidate
        } else {
            at
        }
    }
}

fn snap_wrap_boundary_to_word_start(chars: &Vec<char>, start: usize, at: usize) -> (r: usize)
    requires
        at <= chars.len(),
    ensures
        r == break_for(chars@, start as int, at as int),
        r <= at,
{
    if at <= start || !(0 < at && at < chars.len() && is_editor_word_character(chars[at - 1])
        && is_editor_word_character(chars[at])) {
        return at;
    }
    let mut candidate: usize = at;
    while candidate > start && is_editor_word_character(chars[candidate - 1])
        invariant
            start <= candidate <= at <= chars.len(),
            word_start(chars@, start as int, candidate as int) == word_start(
                chars@,
                start as int,
                at as int,
            ),
        decreases candidate,
    {
        candidate -= 1;
    }
    if candidate > start {
        candidate
    } else {
        at
    }
}

/// What two ranges have in common.
pub open spec fn common_range(a: (int, int), b: (int, int)) -> Option<(int, int)> {
    let start = if a.0 > b.0 {
        a.0
    } else {
        b.0
    };
    let end = if a.1 < b.1 {
        a.1
    } else {
        b.1
    };
    if start < end {
        Some((start, end))
    } else {
        None
    }
}

/// The selected columns of a row, counted from its start.
pub open spec fn selection_in(selected: Option<(int, int)>, start: int, end: int) -> Option<
    (int, int),
> {
    match selected {
        Some(range) => match common_range(range, (start, end)) {
            Some(both) => Some((both.0 - start, both.1 - start)),
            None => None,
        },
        None => None,
    }
}

fn selected_columns_for_visual_segment(
    selected: &Option<Range<usize>>,
    start: usize,
    end: usize,
) -> (r: Option<Range<usize>>)
    ensures
        opt_range(r) == selection_in(opt_range(*selected), start as int, end as int),
{
    match selected {
        Some(range) => {
            let from: usize = if range.start > start {
                range.start
            } else {
                start
            };
            let to: usize = if range.end < end {
                range.end
            } else {
                end
            };
            if from < to {
                Some(from - start..to - start)
            } else {
                None
            }
        },
        None => None,
    }
}

/// A part of a line as a row.
pub open spec fn row_of(line: EditorRenderLine, start: int, end: int) -> RowView {
    RowView {
        line: line.document_line_index as int,
        start,
        end,
        text: line.text@.subrange(start, end),
        selected: selection_in(opt_range(line.selected_columns), start, end),
        is_line_end: end == line.text@.len(),
        style: line.style,
    }
}

/// Where a row that starts at `start` ends, for a break wished at a byte of the text.
pub open spec fn row_end(s: Seq<char>, start: int, byte_index: int) -> int {
    if byte_index >= utf8_size(s) {
        s.len() as int
    } else {
        break_for(s, start, column_at(s, byte_index))
    }
}

/// The rows of a line from a column on, for the breaks wished: a break that would make
/// an empty row does not count, and the end of the line ends the last row.
pub open spec fn rows_from(line: EditorRenderLine, breaks: Seq<usize>, start: int) -> Seq<RowView>
    decreases breaks.len(),
{
    let s = line.text@;
    if breaks.len() == 0 {
        if start < s.len() {
            seq![row_of(line, start, s.len() as int)]
        } else {
            Seq::empty()
        }
    } else {
        let end = row_end(s, start, breaks[0] as int);
        if end <= start {
            rows_from(line, breaks.drop_first(), start)
        } else {
            seq![row_of(line, start, end)] + rows_from(line, breaks.drop_first(), end)
        }
    }
}

/// The rows of a line. An empty line is one empty row.
pub open spec fn rows_of(line: EditorRenderLine, breaks: Seq<usize>) -> Seq<RowView> {
    if line.text@.len() == 0 {
        seq![
            RowView {
                line: line.document_line_index as int,
                start: 0,
                end: 0,
                text: Seq::empty(),
                selected: None,
                is_line_end: true,
                style: line.style,
            },
        ]
    } else {
        rows_from(line, breaks, 0)
    }
}

/// The breaks wished for a line: none where none are given.
pub open spec fn breaks_at(breaks: Seq<Vec<usize>>, i: int) -> Seq<usize> {
    if 0 <= i < breaks.len() {
        breaks[i]@
    } else {
        Seq::empty()
    }
}

/// The rows of the first lines of a document.
pub open spec fn rows_of_lines(
    lines: Seq<EditorRenderLine>,
    breaks: Seq<Vec<usize>>,
    upto: int,
) -> Seq<RowView>
    decreases upto,
{
    if upto <= 0 {
        Seq::empty()
    } else {
        rows_of_lines(lines, breaks, upto - 1) + rows_of(
            lines[upto - 1],
            breaks_at(breaks, upto - 1),
        )
    }
}

/// The views of rows.
pub open spec fn row_views(rows: Seq<EditorVisualLine>) -> Seq<RowView> {
    Seq::new(rows.len(), |i: int| rows[i]@)
}

/// A document as it is seen.
#[derive(Debug, PartialEq, Eq)]
pub struct EditorVisualLayout {
    pub lines: Vec<EditorVisualLine>,
}

/// A row of the document's line, counted from the line's first.
#[derive(Clone, Copy, Debug, PartialEq, Eq, Structural)]
pub struct EditorVisualAnchor {
    pub document_line_index: usize,
    pub local_visual_row: usize,
}

impl View for EditorVisualLayout {
    type V = Seq<RowView>;

    open spec fn view(&self) -> Seq<RowView> {
        row_views(self.lines@)
    }
}

/// Whether every row ends at or behind its start.
pub open spec fn rows_wf(rows: Seq<RowView>) -> bool {
    forall|i: int| 0 <= i < rows.len() ==> (#[trigger] rows[i]).start <= rows[i].end
}

/// The first row from `from` on that a place in the document stands in.
pub open spec fn row_with(rows: Seq<RowView>, line: int, column: int, from: int) -> Option<int>
    decreases rows.len() - from,
{
    if from >= rows.len() {
        None
    } else if holds_cursor(rows[from], line, column) {
        Some(from)
    } else {
        row_with(rows, line, column, from + 1)
    }
}

/// A row some rows away, never above the first.
pub open spec fn row_after(row: int, delta: int) -> Option<int> {
    if row + delta < 0 {
        None
    } else if row + delta > usize::MAX {
        Some(usize::MAX as int)
    } else {
        Some(row + delta)
    }
}

fn apply_row_delta(row: usize, delta: isize) -> (r: Option<usize>)
    ensures
        match row_after(row as int, delta as int) {
            Some(n) => r matches Some(m) && m == n,
            None => r is None,
        },
{
    if delta < 0 {
        if delta == isize::MIN {
            let most: usize = (isize::MAX as usize) + 1;
            if row < most {
                None
            } else {
                Some(row - most)
            }
        } else {
            let up: usize = (-delta) as usize;
            if row < up {
                None
            } else {
                Some(row - up)
            }
        }
    } else {
        Some(row.saturating_add(delta as usize))
    }
}

/// The line and column some rows up or down, in the same column of the row where it has it.
pub open spec fn moved_by_rows(rows: Seq<RowView>, line: int, column: int, delta: int) -> Option<
    (int, int),
> {
    let row = row_with(rows, line, column, 0);
    let target = match row {
        Some(row) => row_after(row, delta),
        None => None,
    };
    match target {
        Some(n) => if n < rows.len() {
            let within = column_in_row(rows[row->0], column);
            let width = rows[n].end - rows[n].start;
            Some(
                (
                    rows[n].line,
                    rows[n].start + (if within < width {
                        within
                    } else {
                        width
                    }),
                ),
            )
        } else {
            None
        },
        None => None,
    }
}

/// How many rows just above a row belong to the same line of the document.
pub open spec fn rows_above(rows: Seq<RowView>, line: int, row: int) -> nat
    decreases row,
{
    if row <= 0 || rows[row - 1].line != line {
        0
    } else {
        1 + rows_above(rows, line, row - 1)
    }
}

/// The last of the first rows that belongs to a line of the document.
pub open spec fn last_row_of(rows: Seq<RowView>, line: int, upto: int) -> Option<int>
    decreases upto,
{
    if upto <= 0 {
        None
    } else if rows[upto - 1].line == line {
        Some(upto - 1)
    } else {
        last_row_of(rows, line, upto - 1)
    }
}

/// At least one.
pub open spec fn at_least_one(n: int) -> int {
    if n < 1 {
        1
    } else {
        n
    }
}

/// The last row that may stand at the top, for a window of some rows.
pub open spec fn last_top_row(rows: int, capacity: int) -> int {
    if rows > at_least_one(capacity) {
        rows - at_least_one(capacity)
    } else {
        0
    }
}

/// A row to stand at the top, held within what may.
pub open spec fn held_top_row(rows: int, top: int, capacity: int) -> int {
    if top < last_top_row(rows, capacity) {
        top
    } else {
        last_top_row(rows, capacity)
    }
}

/// The row to stand at the top so that a row shows, with a margin: as it is where the
/// row shows already, and otherwise moved as little as is needed.
pub open spec fn revealing_top_row(
    rows: int,
    target: int,
    top: int,
    capacity: int,
    margin: int,
) -> int {
    if rows == 0 {
        0
    } else {
        let capacity = at_least_one(capacity);
        let top = held_top_row(rows, top, capacity);
        let target = if target < rows {
            target
        } else {
            rows - 1
        };
        let next = if target < top + margin {
            if target < margin {
                0
            } else {
                target - margin
            }
        } else if target + margin >= top + capacity {
            target + margin + 1 - capacity
        } else {
            top
        };
        held_top_row(rows, next, capacity)
    }
}

impl EditorVisualLayout {
    /// Wraps lines, given for each the bytes at which it may be broken.
    #[must_use]
    pub fn from_render_lines_with_boundaries(
        render_lines: &[EditorRenderLine],
        breaks: &Vec<Vec<usize>>,
    ) -> (r: Self)
        ensures
            r@ == rows_of_lines(render_lines@, breaks@, render_lines@.len() as int),
            rows_wf(r@),
    {
        let mut lines: Vec<EditorVisualLine> = Vec::new();
        let no_breaks: Vec<usize> = Vec::new();
        let mut i: usize = 0;
        assert(row_views(lines@) =~= Seq::empty());
        while i < render_lines.len()
            invariant
                i <= render_lines@.len(),
                no_breaks@ == Seq::<usize>::empty(),
                row_views(lines@) == rows_of_lines(render_lines@, breaks@, i as int),
                rows_wf(row_views(lines@)),
            decreases render_lines@.len() - i,
        {
            let line_breaks = if i < breaks.len() {
                &breaks[i]
            } else {
                &no_breaks
            };
            wrap_line(&render_lines[i], line_breaks, &mut lines);
            i += 1;
        }
        EditorVisualLayout { lines }
    }

    /// The row at a place.
    #[must_use]
    pub fn visual_line_at_row(&self, row: usize) -> (r: Option<&EditorVisualLine>)
        ensures
            match r {
                Some(line) => row < self@.len() && line@ == self@[row as int],
                None => row >= self@.len(),
            },
    {
        if row < self.lines.len() {
            Some(&self.lines[row])
        } else {
            None
        }
    }

    /// The row that the cursor stands in.
    #[must_use]
    pub fn visual_line_for_cursor(&self, cursor: EditorCursor) -> (r: Option<
        (usize, &EditorVisualLine),
    >)
        ensures
            match r {
                Some((row, line)) => row < self@.len() && row_with(
                    self@,
                    cursor.line as int,
                    cursor.column as int,
                    0,
                ) == Some(row as int) && line@ == self@[row as int],
                None => row_with(self@, cursor.line as int, cursor.column as int, 0) is None,
            },
    {
        let mut row: usize = 0;
        while row < self.lines.len()
            invariant
                row <= self.lines.len(),
                row_with(self@, cursor.line as int, cursor.column as int, row as int) == row_with(
                    self@,
                    cursor.line as int,
                    cursor.column as int,
                    0,
                ),
            decreases self.lines.len() - row,
        {
            if self.lines[row].contains_cursor(cursor) {
                return Some((row, &self.lines[row]));
            }
            row += 1;
        }
        None
    }

    /// The cursor some rows up or down, in the same column of the row where there is
    /// one.
    #[must_use]
    pub fn cursor_after_visual_delta(&self, cursor: EditorCursor, row_delta: isize) -> (r: Option<
        EditorCursor,
    >)
        requires
            rows_wf(self@),
        ensures
            match moved_by_rows(
                self@,
                cursor.line as int,
                cursor.column as int,
                row_delta as int,
            ) {
                Some((line, column)) => r matches Some(c) && c.line == line && c.column == column,
                None => r is None,
            },
    {
        match self.visual_line_for_cursor(cursor) {
            None => None,
            Some((source_row, source_line)) => match apply_row_delta(source_row, row_delta) {
                None => None,
                Some(target_row) => {
                    if target_row >= self.lines.len() {
                        return None;
                    }
                    assert(self@[source_row as int].start <= self@[source_row as int].end);
                    assert(self@[target_row as int].start <= self@[target_row as int].end);
                    let target_line = &self.lines[target_row];
                    let column: usize = source_line.relative_column_for_source_column(
                        cursor.column,
                    );
                    let start: usize = target_line.source_columns.start;
                    let width: usize = target_line.source_columns.end - start;
                    let column: usize = if column < width {
                        column
                    } else {
                        width
                    };
                    Some(
                        EditorCursor {
                            line: target_line.document_line_index,
                            column: start + column,
                        },
                    )
                },
            },
        }
    }

    /// The start of the row that the cursor stands in.
    #[must_use]
    pub fn visual_row_start_for_cursor(&self, cursor: EditorCursor) -> (r: Option<EditorCursor>)
        ensures
            match row_with(self@, cursor.line as int, cursor.column as int, 0) {
                Some(row) => r matches Some(c) && c.line == self@[row].line && c.column
                    == self@[row].start,
                None => r is None,
            },
    {
        match self.visual_line_for_cursor(cursor) {
            Some((_, line)) => Some(
                EditorCursor {
                    line: line.document_line_index,
                    column: line.source_columns.start,
                },
            ),
            None => None,
        }
    }

    /// The end of the row that the cursor stands in.
    #[must_use]
    pub fn visual_row_end_for_cursor(&self, cursor: EditorCursor) -> (r: Option<EditorCursor>)
        ensures
            match row_with(self@, cursor.line as int, cursor.column as int, 0) {
                Some(row) => r matches Some(c) && c.line == self@[row].line && c.column
                    == self@[row].end,
                None => r is None,
            },
    {
        match self.visual_line_for_cursor(cursor) {
            Some((_, line)) => Some(
                EditorCursor { line: line.document_line_index, column: line.source_columns.end },
            ),
            None => None,
        }
    }

    /// The rows that show in a window of some rows, from a row on.
    #[must_use]
    pub fn visible_lines_from(&self, start_row: usize, capacity: usize) -> (r: &[EditorVisualLine])
        ensures
            ({
                let n = self@.len() as int;
                let start = if start_row < n {
                    start_row as int
                } else {
                    n
                };
                let end = if start + capacity < n {
                    start + capacity
                } else {
                    n
                };
                r@ == self.lines@.subrange(start, end)
            }),
    {
        let n: usize = self.lines.len();
        let start: usize = if start_row < n {
            start_row
        } else {
            n
        };
        let end: usize = if capacity < n - start {
            start + capacity
        } else {
            n
        };
        vstd::slice::slice_subrange(self.lines.as_slice(), start, end)
    }

    /// The last row that may stand at the top.
    #[must_use]
    pub fn max_scroll_row(&self, visible_capacity: usize) -> (r: usize)
        ensures
            r == last_top_row(self@.len() as int, visible_capacity as int),
    {
        let capacity: usize = if visible_capacity < 1 {
            1
        } else {
            visible_capacity
        };
        self.lines.len().saturating_sub(capacity)
    }

    /// A row to stand at the top, held within what may.
    #[must_use]
    pub fn clamp_scroll_row(&self, scroll_row: usize, visible_capacity: usize) -> (r: usize)
        ensures
            r == held_top_row(self@.len() as int, scroll_row as int, visible_capacity as int),
    {
        let last: usize = self.max_scroll_row(visible_capacity);
        if scroll_row < last {
            scroll_row
        } else {
            last
        }
    }

    /// The line of the document that a row belongs to, and which of its rows it is.
    #[must_use]
    pub fn anchor_for_visual_row(&self, row: usize) -> (r: Option<EditorVisualAnchor>)
        ensures
            if row < self@.len() {
                r matches Some(anchor) && anchor.document_line_index == self@[row as int].line
                    && anchor.local_visual_row == rows_above(
                    self@,
                    self@[row as int].line,
                    row as int,
                )
            } else {
                r is None
            },
    {
        if row >= self.lines.len() {
            return None;
        }
        let document_line_index: usize = self.lines[row].document_line_index;
        let mut count: usize = 0;
        while count < row && self.lines[row - count - 1].document_line_index
            == document_line_index
            invariant
                count <= row < self.lines.len(),
                count + rows_above(self@, document_line_index as int, row - count) == rows_above(
                    self@,
                    document_line_index as int,
                    row as int,
                ),
            decreases row - count,
        {
            count += 1;
        }
        Some(EditorVisualAnchor { document_line_index, local_visual_row: count })
    }

    /// The last row of a line of the document.
    #[must_use]
    pub fn last_visual_row_for_document_line(&self, document_line_index: usize) -> (r: Option<
        usize,
    >)
        ensures
            match last_row_of(self@, document_line_index as int, self@.len() as int) {
                Some(row) => r matches Some(n) && n == row,
                None => r is None,
            },
    {
        let mut row: usize = self.lines.len();
        while row > 0
            invariant
                row <= self.lines.len(),
                last_row_of(self@, document_line_index as int, row as int) == last_row_of(
                    self@,
                    document_line_index as int,
                    self@.len() as int,
                ),
            decreases row,
        {
            row -= 1;
            if self.lines[row].document_line_index == document_line_index {
                return Some(row);
            }
        }
        None
    }

    /// The row to stand at the top so that a row shows, with a margin.
    #[must_use]
    pub fn scroll_row_to_reveal_row(
        &self,
        target_row: usize,
        current_scroll_row: usize,
        visible_capacity: usize,
        margin: usize,
    ) -> (r: usize)
        ensures
            r == revealing_top_row(
                self@.len() as int,
                target_row as int,
                current_scroll_row as int,
                visible_capacity as int,
                margin as int,
            ),
    {
        let n: usize = self.lines.len();
        if n == 0 {
            return 0;
        }
        let capacity: usize = if visible_capacity < 1 {
            1
        } else {
            visible_capacity
        };
        let current: usize = self.clamp_scroll_row(current_scroll_row, capacity);
        let target: usize = if target_row < n {
            target_row
        } else {
            n - 1
        };
        let next: usize = if target < current || target - current < margin {
            target.saturating_sub(margin)
        } else if target - current >= capacity || margin >= capacity - (target - current) {
            if margin + 1 > capacity {
                let more: usize = margin + 1 - capacity;
                target.saturating_add(more)
            } else {
                target - (capacity - (margin + 1))
            }
        } else {
            current
        };
        self.clamp_scroll_row(next, capacity)
    }
}

/// Adds the rows of a line.
fn wrap_line(line: &EditorRenderLine, breaks: &Vec<usize>, lines: &mut Vec<EditorVisualLine>)
    requires
        rows_wf(row_views(old(lines)@)),
    ensures
        row_views(final(lines)@) == row_views(old(lines)@) + rows_of(*line, breaks@),
        rows_wf(row_views(final(lines)@)),
{
    let ghost before = row_views(lines@);
    let chars = chars_of(line.text.as_str());
    if chars.len() == 0 {
        lines.push(
            EditorVisualLine {
                document_line_index: line.document_line_index,
                source_columns: 0..0,
                text: String::new(),
                selected_columns: None,
                is_line_end: true,
                style: line.style,
            },
        );
        assert(row_views(lines@) =~= before + rows_of(*line, breaks@)) by {
            assert(row_views(lines@)[before.len() as int] =~= rows_of(*line, breaks@)[0]);
        }
        return;
    }
    let total = size_of(line.text.as_str());
    let mut start: usize = 0;
    let mut i: usize = 0;
    assert(breaks@.skip(0) =~= breaks@);
    assert(before + rows_of(*line, breaks@) =~= row_views(lines@) + rows_from(
        *line,
        breaks@.skip(0),
        0,
    ));
    while i < breaks.len()
        invariant
            chars@ == line.text@,
            total == utf8_size(line.text@),
            i <= breaks.len(),
            start <= chars.len(),
            rows_wf(row_views(lines@)),
            row_views(lines@) + rows_from(*line, breaks@.skip(i as int), start as int) == before
                + rows_of(*line, breaks@),
        decreases breaks.len() - i,
    {
        let ghost rest = breaks@.skip(i as int);
        let ghost so_far = row_views(lines@);
        assert(rest.drop_first() =~= breaks@.skip(i + 1));
        let end: usize = if breaks[i] >= total {
            chars.len()
        } else {
            let column = column_in(&chars, breaks[i]);
            snap_wrap_boundary_to_word_start(&chars, start, column)
        };
        if end > start {
            push_row(line, &chars, start, end, lines);
            assert(so_far + rows_from(*line, rest, start as int) =~= row_views(lines@)
                + rows_from(*line, breaks@.skip(i + 1), end as int));
            start = end;
        }
        i += 1;
    }
    assert(breaks@.skip(i as int) =~= Seq::empty());
    let ghost so_far = row_views(lines@);
    if start < chars.len() {
        push_row(line, &chars, start, chars.len(), lines);
    }
    assert(row_views(lines@) =~= so_far + rows_from(*line, Seq::empty(), start as int));
}

/// Adds a part of a line as a row.
fn push_row(
    line: &EditorRenderLine,
    chars: &Vec<char>,
    start: usize,
    end: usize,
    lines: &mut Vec<EditorVisualLine>,
)
    requires
        chars@ == line.text@,
        start < end <= chars@.len(),
        rows_wf(row_views(old(lines)@)),
    ensures
        row_views(final(lines)@) == row_views(old(lines)@).push(
            row_of(*line, start as int, end as int),
        ),
        rows_wf(row_views(final(lines)@)),
{
    let ghost before = row_views(lines@);
    let row = EditorVisualLine {
        document_line_index: line.document_line_index,
        source_columns: start..end,
        text: string_of_range(chars, start, end),
        selected_columns: selected_columns_for_visual_segment(&line.selected_columns, start, end),
        is_line_end: end == chars.len(),
        style: line.style,
    };
    assert(row@ =~= row_of(*line, start as int, end as int));
    lines.push(row);
    assert(row_views(lines@) =~= before.push(row_of(*line, start as int, end as int)));
    assert forall|i: int| 0 <= i < row_views(lines@).len() implies (
    #[trigger] row_views(lines@)[i]).start <= row_views(lines@)[i].end by {
        if i < before.len() {
            assert(row_views(lines@)[i] == before[i]);
        }
    }
}

/// The bytes at which a text may be broken, out of those that measuring it gave: each
/// moved to the start of its character, and those left out that are not behind the one
/// before or not within the text.
pub open spec fn usable_breaks(s: Seq<char>, measured: Seq<usize>) -> Seq<int>
    decreases measured.len(),
{
    if measured.len() == 0 {
        Seq::empty()
    } else {
        let before = usable_breaks(s, measured.drop_last());
        let last = if before.len() == 0 {
            0
        } else {
            before.last()
        };
        let at = utf8_size(s.take(column_at(s, measured.last() as int))) as int;
        if last < at < utf8_size(s) {
            before.push(at)
        } else {
            before
        }
    }
}

/// The bytes at which a text may be broken, out of those that measuring it gave.
#[must_use]
pub fn wrap_boundaries(text: &str, measured: &Vec<usize>) -> (r: Vec<usize>)
    ensures
        r@.len() == usable_breaks(text@, measured@).len(),
        forall|i: int|
            0 <= i < r@.len() ==> #[trigger] r@[i] == usable_breaks(text@, measured@)[i],
{
    let total = size_of(text);
    let mut breaks: Vec<usize> = Vec::new();
    let mut last: usize = 0;
    let mut i: usize = 0;
    assert(measured@.take(0) =~= Seq::empty());
    while i < measured.len()
        invariant
            i <= measured.len(),
            total == utf8_size(text@),
            breaks@.len() == usable_breaks(text@, measured@.take(i as int)).len(),
            forall|k: int|
                0 <= k < breaks@.len() ==> #[trigger] breaks@[k] == usable_breaks(
                    text@,
                    measured@.take(i as int),
                )[k],
            last == (if breaks@.len() == 0 {
                0
            } else {
                breaks@.last() as int
            }),
        decreases measured.len() - i,
    {
        let ghost upto = measured@.take(i + 1);
        assert(upto.drop_last() =~= measured@.take(i as int));
        assert(upto.last() == measured@[i as int]);
        let column = char_column_for_byte_index(text, measured[i]);
        let at = byte_offset_for_char_column(text, column);
        if at > last && at < total {
            breaks.push(at);
            last = at;
        }
        i += 1;
    }
    assert(measured@.take(i as int) =~= measured@);
    breaks
}

/// Whether rows follow one another from a column to the end of a line without a gap.
pub open spec fn rows_cover(rows: Seq<RowView>, s: Seq<char>, from: int) -> bool
    decreases rows.len(),
{
    if rows.len() == 0 {
        from == s.len()
    } else {
        &&& rows[0].start == from
        &&& from < rows[0].end <= s.len()
        &&& rows[0].text == s.subrange(rows[0].start, rows[0].end)
        &&& rows[0].is_line_end == (rows[0].end == s.len())
        &&& rows_cover(rows.drop_first(), s, rows[0].end)
    }
}

/// Wrapping loses nothing: the rows of a line follow one another from its start to its
/// end, and each shows just what stands there.
pub proof fn law_wrapping_loses_nothing(line: EditorRenderLine, breaks: Seq<usize>)
    requires
        line.text@.len() > 0,
    ensures
        rows_cover(rows_of(line, breaks), line.text@, 0),
{
    lemma_rows_cover(line, breaks, 0);
}

/// A break is never moved on.
pub proof fn lemma_break_for_within(s: Seq<char>, start: int, at: int)
    requires
        0 <= start,
        0 <= at <= s.len(),
    ensures
        break_for(s, start, at) <= at,
{
    if at > start {
        lemma_word_start_within(s, start, at);
    }
}

proof fn lemma_word_start_within(s: Seq<char>, start: int, at: int)
    requires
        start <= at,
    ensures
        start <= word_start(s, start, at) <= at,
    decreases at - start,
{
    if at > start && word_char(s[at - 1]) {
        lemma_word_start_within(s, start, at - 1);
    }
}

proof fn lemma_rows_cover(line: EditorRenderLine, breaks: Seq<usize>, start: int)
    requires
        0 <= start <= line.text@.len(),
    ensures
        rows_cover(rows_from(line, breaks, start), line.text@, start),
    decreases breaks.len(),
{
    let s = line.text@;
    let rows = rows_from(line, breaks, start);
    if breaks.len() == 0 {
        if start < s.len() {
            assert(rows.drop_first() =~= Seq::empty());
            assert(rows_cover(rows.drop_first(), s, s.len() as int));
        }
    } else {
        let end = row_end(s, start, breaks[0] as int);
        if breaks[0] < utf8_size(s) {
            lemma_column_at(s, breaks[0] as int);
            lemma_break_for_within(s, start, column_at(s, breaks[0] as int));
        }
        if end <= start {
            lemma_rows_cover(line, breaks.drop_first(), start);
        } else {
            lemma_rows_cover(line, breaks.drop_first(), end);
            assert(rows.drop_first() =~= rows_from(line, breaks.drop_first(), end));
        }
    }
}

/// Whether a column of a line stands in one of the rows, and in no other.
pub open spec fn in_one_row(rows: Seq<RowView>, column: int) -> bool {
    exists|i: int|
        0 <= i < rows.len() && holds_column(#[trigger] rows[i], column) && forall|j: int|
            0 <= j < rows.len() && holds_column(#[trigger] rows[j], column) ==> j == i
}

/// Every place of a line, the one behind its last character too, stands in just one of
/// its rows.
pub proof fn law_every_column_has_one_row(line: EditorRenderLine, breaks: Seq<usize>, column: int)
    requires
        0 <= column <= line.text@.len(),
    ensures
        in_one_row(rows_of(line, breaks), column),
{
    let rows = rows_of(line, breaks);
    if line.text@.len() == 0 {
        assert(holds_column(rows[0], column));
    } else {
        law_wrapping_loses_nothing(line, breaks);
        lemma_cover_holds(rows, line.text@, 0, column);
    }
}

proof fn lemma_cover_starts_behind(rows: Seq<RowView>, s: Seq<char>, from: int, column: int)
    requires
        rows_cover(rows, s, from),
        column < from,
    ensures
        forall|j: int| 0 <= j < rows.len() ==> !holds_column(#[trigger] rows[j], column),
    decreases rows.len(),
{
    if rows.len() > 0 {
        lemma_cover_starts_behind(rows.drop_first(), s, rows[0].end, column);
        assert forall|j: int| 0 <= j < rows.len() implies !holds_column(
            #[trigger] rows[j],
            column,
        ) by {
            if j > 0 {
                assert(rows[j] == rows.drop_first()[j - 1]);
            }
        }
    }
}

proof fn lemma_cover_holds(rows: Seq<RowView>, s: Seq<char>, from: int, column: int)
    requires
        rows_cover(rows, s, from),
        from <= column <= s.len(),
        from < s.len(),
    ensures
        in_one_row(rows, column),
    decreases rows.len(),
{
    let rest = rows.drop_first();
    assert(rows_cover(rest, s, rows[0].end));
    if holds_column(rows[0], column) {
        if rows[0].end == s.len() {
            assert(rest.len() == 0);
        } else {
            lemma_cover_starts_behind(rest, s, rows[0].end, column);
        }
        assert forall|j: int| 0 <= j < rows.len() && holds_column(
            #[trigger] rows[j],
            column,
        ) implies j == 0 by {
            if j > 0 {
                assert(rows[j] == rest[j - 1]);
            }
        }
    } else {
        lemma_cover_holds(rest, s, rows[0].end, column);
        let i = choose|i: int|
            0 <= i < rest.len() && holds_column(#[trigger] rest[i], column) && forall|j: int|
                0 <= j < rest.len() && holds_column(#[trigger] rest[j], column) ==> j == i;
        assert(rows[i + 1] == rest[i]);
        assert(holds_column(rows[i + 1], column));
        assert forall|j: int| 0 <= j < rows.len() && holds_column(
            #[trigger] rows[j],
            column,
        ) implies j == i + 1 by {
            if j > 0 {
                assert(rows[j] == rest[j - 1]);
            }
        }
    }
}

/// The row asked for shows: it stands within the window.
pub proof fn law_revealed_row_shows(
    rows: int,
    target: int,
    top: int,
    capacity: int,
    margin: int,
)
    requires
        0 <= target < rows,
        0 <= top,
        0 <= capacity,
        0 <= margin,
        2 * margin < at_least_one(capacity),
    ensures
        ({
            let r = revealing_top_row(rows, target, top, capacity, margin);
            r <= target < r + at_least_one(capacity)
        }),
{
}

} // verus!
