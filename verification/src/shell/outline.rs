//! The headings of a note.

use vstd::prelude::*;

use crate::text::{chars_of, string_of_range, trim, trim_start};

verus! {

broadcast use vstd::string::group_string_axioms;

use crate::text::{
    blank, law_trimming_takes_white_space_alone, texts, trim_start_chars, trimmed, white_space,
};

/// The deepest level of a heading.
pub const DEEPEST_HEADING: usize = 6;

/// A heading of a note.
#[derive(Clone, Debug, PartialEq, Eq)]
pub struct OutlineItem {
    pub label: String,
    pub level: u8,
    pub line_number: usize,
}

/// A heading of a note.
pub struct HeadingView {
    pub label: Seq<char>,
    pub level: int,
    pub line_number: int,
}

impl View for OutlineItem {
    type V = HeadingView;

    open spec fn view(&self) -> HeadingView {
        HeadingView {
            label: self.label@,
            level: self.level as int,
            line_number: self.line_number as int,
        }
    }
}

/// The headings of a list.
pub open spec fn headings(items: Seq<OutlineItem>) -> Seq<HeadingView> {
    Seq::new(items.len(), |i: int| items[i]@)
}

/// How many `#` follow one another from `from` on.
pub open spec fn hashes(s: Seq<char>, from: int) -> int
    decreases s.len() - from,
{
    if 0 <= from < s.len() && s[from] == '#' {
        1 + hashes(s, from + 1)
    } else {
        0
    }
}

/// The heading on a line: one to six `#`, then a title that is not blank.
pub open spec fn heading_on(line: Seq<char>) -> Option<(Seq<char>, int)> {
    let shown = trim_start_chars(line);
    let level = hashes(shown, 0);
    if level == 0 || level > DEEPEST_HEADING {
        None
    } else {
        let label = trimmed(shown.skip(level));
        if label.len() == 0 {
            None
        } else {
            Some((label, level))
        }
    }
}

/// The headings on the first `upto` lines, with the lines counted from one.
pub open spec fn outline_of(lines: Seq<Seq<char>>, upto: int) -> Seq<HeadingView>
    decreases upto,
{
    if upto <= 0 {
        Seq::empty()
    } else {
        match heading_on(lines[upto - 1]) {
            Some((label, level)) => outline_of(lines, upto - 1).push(
                HeadingView { label, level, line_number: upto },
            ),
            None => outline_of(lines, upto - 1),
        }
    }
}

proof fn lemma_hashes_from(s: Seq<char>, from: int, n: int)
    requires
        0 <= from <= n <= s.len(),
        forall|k: int| from <= k < n ==> s[k] == '#',
        n < s.len() ==> s[n] != '#',
    ensures
        hashes(s, from) == n - from,
    decreases n - from,
{
    if from < n {
        lemma_hashes_from(s, from + 1, n);
    }
}

fn heading_in(line: &str) -> (r: Option<(String, u8)>)
    ensures
        match heading_on(line@) {
            Some((label, level)) => r matches Some(found) && found.0@ == label && found.1 == level,
            None => r is None,
        },
{
    let shown = trim_start(line);
    let chars: Vec<char> = chars_of(shown.as_str());
    let mut level: usize = 0;
    while level < chars.len() && chars[level] == '#'
        invariant
            level <= chars.len(),
            forall|k: int| 0 <= k < level ==> chars@[k] == '#',
        decreases chars.len() - level,
    {
        level += 1;
    }
    proof {
        lemma_hashes_from(chars@, 0, level as int);
    }
    if level == 0 || level > DEEPEST_HEADING {
        return None;
    }
    let rest = string_of_range(chars.as_slice(), level, chars.len());
    assert(rest@ =~= shown@.skip(level as int));
    let label = trim(rest.as_str());
    if label.is_empty() {
        return None;
    }
    Some((label, level as u8))
}

/// The headings of a list of lines.
#[must_use]
pub fn extract_outline(lines: &[String]) -> (r: Vec<OutlineItem>)
    ensures
        headings(r@) == outline_of(texts(lines@), lines@.len() as int),
{
    let mut items: Vec<OutlineItem> = Vec::new();
    let mut i: usize = 0;
    assert(headings(items@) =~= outline_of(texts(lines@), 0));
    while i < lines.len()
        invariant
            i <= lines.len(),
            headings(items@) == outline_of(texts(lines@), i as int),
        decreases lines.len() - i,
    {
        assert(texts(lines@)[i as int] == lines@[i as int]@);
        if let Some((label, level)) = heading_in(lines[i].as_str()) {
            let ghost before = items@;
            let item = OutlineItem { label, level, line_number: i + 1 };
            let ghost shown = item@;
            items.push(item);
            assert(headings(items@) =~= headings(before).push(shown));
        }
        i += 1;
    }
    items
}

proof fn lemma_outline_lines(lines: Seq<Seq<char>>, upto: int)
    requires
        0 <= upto <= lines.len(),
    ensures
        forall|i: int|
            0 <= i < outline_of(lines, upto).len() ==> {
                let item = #[trigger] outline_of(lines, upto)[i];
                &&& 1 <= item.line_number <= upto
                &&& heading_on(lines[item.line_number - 1]) == Some((item.label, item.level))
            },
    decreases upto,
{
    if upto > 0 {
        lemma_outline_lines(lines, upto - 1);
        let shorter = outline_of(lines, upto - 1);
        assert forall|i: int| 0 <= i < outline_of(lines, upto).len() implies {
            let item = #[trigger] outline_of(lines, upto)[i];
            &&& 1 <= item.line_number <= upto
            &&& heading_on(lines[item.line_number - 1]) == Some((item.label, item.level))
        } by {
            if i < shorter.len() {
                assert(outline_of(lines, upto)[i] == shorter[i]);
            }
        }
    }
}

/// Every item of an outline is the heading that stands on its line, and the items come in
/// the order of their lines.
pub proof fn law_outline_follows_the_lines(lines: Seq<Seq<char>>, upto: int, i: int, j: int)
    requires
        0 <= upto <= lines.len(),
        0 <= i < j < outline_of(lines, upto).len(),
    ensures
        ({
            let a = outline_of(lines, upto)[i];
            let b = outline_of(lines, upto)[j];
            &&& 1 <= a.line_number < b.line_number <= upto
            &&& heading_on(lines[a.line_number - 1]) == Some((a.label, a.level))
            &&& heading_on(lines[b.line_number - 1]) == Some((b.label, b.level))
        }),
    decreases upto,
{
    lemma_outline_lines(lines, upto);
    if upto > 0 {
        lemma_outline_lines(lines, upto - 1);
        let shorter = outline_of(lines, upto - 1);
        if j < shorter.len() {
            law_outline_follows_the_lines(lines, upto - 1, i, j);
        } else {
            assert(outline_of(lines, upto)[i] == shorter[i]);
        }
    }
}

/// Every line that holds a heading is listed.
pub proof fn law_every_heading_is_listed(lines: Seq<Seq<char>>, upto: int, line: int)
    requires
        0 <= line < upto <= lines.len(),
        heading_on(lines[line]) is Some,
    ensures
        exists|i: int|
            0 <= i < outline_of(lines, upto).len() && (#[trigger] outline_of(
                lines,
                upto,
            )[i]).line_number == line + 1,
    decreases upto,
{
    let shorter = outline_of(lines, upto - 1);
    if line == upto - 1 {
        assert(outline_of(lines, upto)[shorter.len() as int].line_number == line + 1);
    } else {
        law_every_heading_is_listed(lines, upto - 1, line);
        let i = choose|i: int|
            0 <= i < shorter.len() && (#[trigger] shorter[i]).line_number == line + 1;
        assert(outline_of(lines, upto)[i] == shorter[i]);
    }
}

/// A line of number signs.
pub open spec fn signs(n: int) -> Seq<char> {
    Seq::new(n as nat, |i: int| '#')
}

/// One to six number signs in front of a title make a heading of that level; more than six, or
/// nothing but white space behind them, make none.
pub proof fn law_signs_in_front_make_a_heading(n: int, title: Seq<char>)
    requires
        1 <= n,
        title.len() > 0 ==> title[0] != '#',
    ensures
        n <= 6 && !blank(title) ==> heading_on(signs(n) + title) == Some((trimmed(title), n)),
        n > 6 || blank(title) ==> heading_on(signs(n) + title) is None,
{
    let line = signs(n) + title;
    assert(line[0] == '#');
    assert(!white_space('#'));
    assert(trim_start_chars(line) == line);
    lemma_hashes_from(line, 0, n);
    assert(line.skip(n) =~= title);
    law_trimming_takes_white_space_alone(title);
}

/// White space in front of a line does not matter, and a line that starts otherwise is no
/// heading.
pub proof fn law_only_lines_with_signs_are_headings(c: char, line: Seq<char>)
    ensures
        white_space(c) ==> heading_on(seq![c] + line) == heading_on(line),
        !white_space(c) && c != '#' ==> heading_on(seq![c] + line) is None,
        heading_on(Seq::empty()) is None,
{
    let longer = seq![c] + line;
    assert(longer.drop_first() =~= line);
    assert(longer[0] == c);
}

} // verus!
