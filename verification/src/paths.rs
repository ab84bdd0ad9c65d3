//! Paths as texts. A path is read as a list of names: slashes part them, how many stand in
//! a row or at the end does not matter, and neither does a `.` but at the very start. Two
//! paths are the same where their names are.

use vstd::prelude::*;

use crate::text::{chars_of, concat2, concat3, copy_str, string_of_range, to_ascii_lower};
use crate::text::str_eq;

verus! {

broadcast use vstd::string::group_string_axioms;

use crate::text::{ascii_lower_chars, texts};

/// Where what starts at `from` ends: at the next slash, or with the path.
pub open spec fn name_end(path: Seq<char>, from: int) -> int
    decreases path.len() - from,
{
    if from < 0 || from >= path.len() || path[from] == '/' {
        from
    } else {
        name_end(path, from + 1)
    }
}

/// Whether what stands between two slashes is a name of the path: it is not empty, and not
/// `.` but at the very start.
pub open spec fn counts(path: Seq<char>, from: int, end: int) -> bool {
    from < end && (from == 0 || path.subrange(from, end) != "."@)
}

/// Where the names of a path from `from` on start and end.
pub open spec fn spans_from(path: Seq<char>, from: int) -> Seq<(int, int)>
    decreases path.len() + 1 - from,
{
    if from < 0 || from >= path.len() {
        Seq::empty()
    } else {
        proof {
            lemma_name_end(path, from);
        }
        let end = name_end(path, from);
        if counts(path, from, end) {
            seq![(from, end)] + spans_from(path, end + 1)
        } else {
            spans_from(path, end + 1)
        }
    }
}

/// Whether a path starts at the root.
pub open spec fn is_rooted(path: Seq<char>) -> bool {
    path.len() > 0 && path[0] == '/'
}

/// Where the names of a path start and end; the slash of the root is the first of them.
pub open spec fn spans_of(path: Seq<char>) -> Seq<(int, int)> {
    if is_rooted(path) {
        seq![(0int, 1int)] + spans_from(path, 1)
    } else {
        spans_from(path, 0)
    }
}

/// What stands in a part of a path.
pub open spec fn within(path: Seq<char>, span: (int, int)) -> Seq<char> {
    path.subrange(span.0, span.1)
}

/// The names of a path.
pub open spec fn names_of(path: Seq<char>) -> Seq<Seq<char>> {
    Seq::new(spans_of(path).len(), |i: int| within(path, spans_of(path)[i]))
}

/// Whether two texts are the same path.
pub open spec fn same_path(a: Seq<char>, b: Seq<char>) -> bool {
    names_of(a) == names_of(b)
}

/// Whether one of the texts is a path.
pub open spec fn lists_path(paths: Seq<Seq<char>>, path: Seq<char>) -> bool {
    exists|i: int| 0 <= i < paths.len() && same_path(#[trigger] paths[i], path)
}

/// The name that a path ends in: nothing where it ends at the root, or leads nowhere or
/// upwards.
pub open spec fn file_name_of(path: Seq<char>) -> Option<Seq<char>> {
    let names = names_of(path);
    if names.len() == 0 || names.last() == "/"@ || names.last() == "."@ || names.last()
        == ".."@ {
        None
    } else {
        Some(names.last())
    }
}

/// The directory that a path is in: the path up to the name before its last.
pub open spec fn parent_of(path: Seq<char>) -> Option<Seq<char>> {
    let spans = spans_of(path);
    if spans.len() == 0 || spans.len() == 1 && is_rooted(path) {
        None
    } else if spans.len() == 1 {
        Some(Seq::empty())
    } else {
        Some(path.take(spans[spans.len() - 2].1))
    }
}

/// The place of the last point among the first `upto` characters.
pub open spec fn last_point(name: Seq<char>, upto: int) -> Option<int>
    decreases upto,
{
    if upto <= 0 {
        None
    } else if name[upto - 1] == '.' {
        Some(upto - 1)
    } else {
        last_point(name, upto - 1)
    }
}

/// What stands behind the last point of a name; a point that starts the name does not
/// count.
pub open spec fn extension_of(name: Seq<char>) -> Option<Seq<char>> {
    match last_point(name, name.len() as int) {
        Some(at) => if at == 0 {
            None
        } else {
            Some(name.skip(at + 1))
        },
        None => None,
    }
}

/// A name without its extension.
pub open spec fn stem_of(name: Seq<char>) -> Seq<char> {
    match last_point(name, name.len() as int) {
        Some(at) => if at == 0 {
            name
        } else {
            name.take(at)
        },
        None => name,
    }
}

/// Whether a path names a note: its extension is that of Markdown, in whatever case.
pub open spec fn is_note(path: Seq<char>) -> bool {
    match file_name_of(path) {
        Some(name) => match extension_of(name) {
            Some(ext) => ascii_lower_chars(ext) == "md"@ || ascii_lower_chars(ext)
                == "markdown"@,
            None => false,
        },
        None => false,
    }
}

/// Whether a path is a directory or lies in it: its first names are those of the directory.
pub open spec fn lies_in(path: Seq<char>, directory: Seq<char>) -> bool {
    names_of(directory).is_prefix_of(names_of(path))
}

/// A path as it is seen from a directory: the part below it, or the whole path where it
/// does not lie in it.
pub open spec fn seen_from(path: Seq<char>, directory: Seq<char>) -> Seq<char> {
    let spans = spans_of(path);
    let above = names_of(directory).len() as int;
    if !lies_in(path, directory) {
        path
    } else if spans.len() == above {
        Seq::empty()
    } else {
        path.subrange(spans[above].0, spans.last().1)
    }
}

/// A name in a directory.
pub open spec fn joined_path(directory: Seq<char>, name: Seq<char>) -> Seq<char> {
    if name.len() > 0 && name[0] == '/' {
        name
    } else if directory.len() == 0 || directory.last() == '/' {
        directory + name
    } else {
        directory.push('/') + name
    }
}

/// A path whose name has another extension; a path without a name stays. What stands behind
/// the name is dropped.
pub open spec fn with_extension(path: Seq<char>, extension: Seq<char>) -> Seq<char> {
    match file_name_of(path) {
        Some(name) => path.take(spans_of(path).last().0) + stem_of(name) + "."@ + extension,
        None => path,
    }
}

/// The path of a note: Markdown's extension takes the place of any other.
pub open spec fn note_path(path: Seq<char>) -> Seq<char> {
    if is_note(path) {
        path
    } else {
        with_extension(path, "md"@)
    }
}

/// What starts at a place ends at a slash or with the path, and no slash stands in it.
pub proof fn lemma_name_end(path: Seq<char>, from: int)
    requires
        0 <= from <= path.len(),
    ensures
        from <= name_end(path, from) <= path.len(),
        name_end(path, from) < path.len() ==> path[name_end(path, from)] == '/',
        forall|i: int| from <= i < name_end(path, from) ==> path[i] != '/',
    decreases path.len() - from,
{
    if from < path.len() && path[from] != '/' {
        lemma_name_end(path, from + 1);
    }
}

/// Whether a span is a name of a path: it is not empty, no slash stands in it, and one stands
/// before it where it does not start the path.
pub open spec fn is_span(path: Seq<char>, span: (int, int)) -> bool {
    &&& 0 <= span.0 < span.1 <= path.len()
    &&& span.0 > 0 ==> path[span.0 - 1] == '/'
    &&& forall|i: int| span.0 <= i < span.1 ==> path[i] != '/'
}

proof fn lemma_spans_from(path: Seq<char>, from: int)
    requires
        0 <= from,
        0 < from <= path.len() ==> path[from - 1] == '/',
    ensures
        forall|i: int|
            0 <= i < spans_from(path, from).len() ==> is_span(
                path,
                #[trigger] spans_from(path, from)[i],
            ) && from <= spans_from(path, from)[i].0,
        forall|i: int, j: int|
            0 <= i < j < spans_from(path, from).len() ==> (#[trigger] spans_from(path, from)[i]).1
                <= (#[trigger] spans_from(path, from)[j]).0,
    decreases path.len() + 1 - from,
{
    if from < path.len() {
        lemma_name_end(path, from);
        let end = name_end(path, from);
        let rest = spans_from(path, end + 1);
        lemma_spans_from(path, end + 1);
        let all = spans_from(path, from);
        assert forall|i: int| 0 <= i < all.len() implies is_span(path, #[trigger] all[i]) && from
            <= all[i].0 by {
            if counts(path, from, end) {
                if i > 0 {
                    assert(all[i] == rest[i - 1]);
                }
            } else {
                assert(all[i] == rest[i]);
            }
        }
        assert forall|i: int, j: int| 0 <= i < j < all.len() implies (#[trigger] all[i]).1
            <= (#[trigger] all[j]).0 by {
            if counts(path, from, end) {
                assert(all[j] == rest[j - 1]);
                if i > 0 {
                    assert(all[i] == rest[i - 1]);
                }
            } else {
                assert(all[i] == rest[i]);
                assert(all[j] == rest[j]);
            }
        }
    }
}

/// The names of a path stand in it one behind the other.
pub proof fn lemma_spans(path: Seq<char>)
    ensures
        forall|i: int|
            0 <= i < spans_of(path).len() ==> 0 <= (#[trigger] spans_of(path)[i]).0
                < spans_of(path)[i].1 <= path.len(),
        forall|i: int, j: int|
            0 <= i < j < spans_of(path).len() ==> (#[trigger] spans_of(path)[i]).1 <= (
            #[trigger] spans_of(path)[j]).0,
        forall|i: int|
            0 <= i < spans_of(path).len() && !(i == 0 && is_rooted(path)) ==> is_span(
                path,
                #[trigger] spans_of(path)[i],
            ),
{
    if is_rooted(path) {
        lemma_spans_from(path, 1);
        let rest = spans_from(path, 1);
        let all = spans_of(path);
        assert forall|i: int| 0 < i < all.len() implies is_span(path, #[trigger] all[i]) && 1
            <= all[i].0 by {
            assert(all[i] == rest[i - 1]);
        }
        assert forall|i: int, j: int| 0 <= i < j < all.len() implies (#[trigger] all[i]).1
            <= (#[trigger] all[j]).0 by {
            assert(all[j] == rest[j - 1]);
            if i > 0 {
                assert(all[i] == rest[i - 1]);
            }
        }
    } else {
        lemma_spans_from(path, 0);
    }
}

/// A path is longer than the one of the directory that it is in.
pub proof fn lemma_parent_is_shorter(path: Seq<char>)
    ensures
        parent_of(path) matches Some(directory) ==> directory.len() < path.len(),
{
    lemma_spans(path);
    let spans = spans_of(path);
    if spans.len() >= 2 {
        assert(spans[spans.len() - 2].1 <= spans[spans.len() - 1].0);
    } else if spans.len() == 1 {
        assert(spans[0].1 <= path.len());
    }
}

/// The spans as whole numbers.
spec fn span_views(spans: Seq<(usize, usize)>) -> Seq<(int, int)> {
    Seq::new(spans.len(), |i: int| (spans[i].0 as int, spans[i].1 as int))
}

fn name_end_in(chars: &Vec<char>, from: usize) -> (r: usize)
    requires
        from <= chars@.len(),
    ensures
        r == name_end(chars@, from as int),
        from <= r <= chars@.len(),
{
    let mut i: usize = from;
    while i < chars.len() && chars[i] != '/'
        invariant
            from <= i <= chars.len(),
            name_end(chars@, i as int) == name_end(chars@, from as int),
        decreases chars.len() - i,
    {
        i += 1;
    }
    i
}

fn spans_in(chars: &Vec<char>) -> (r: Vec<(usize, usize)>)
    ensures
        span_views(r@) == spans_of(chars@),
        forall|i: int|
            0 <= i < r@.len() ==> (#[trigger] r@[i]).0 < r@[i].1 <= chars@.len() && spans_of(
                chars@,
            )[i] == (r@[i].0 as int, r@[i].1 as int),
{
    let total: usize = chars.len();
    let mut r: Vec<(usize, usize)> = Vec::new();
    let mut i: usize = 0;
    if total > 0 && chars[0] == '/' {
        r.push((0, 1));
        i = 1;
        assert(span_views(r@) =~= seq![(0int, 1int)]);
    } else {
        assert(span_views(r@) =~= Seq::empty());
        assert(Seq::<(int, int)>::empty() + spans_from(chars@, 0) =~= spans_from(chars@, 0));
    }
    let mut more: bool = i < total;
    assert(span_views(r@) + spans_from(chars@, i as int) =~= spans_of(chars@));
    while more
        invariant
            total == chars@.len(),
            more ==> i < total,
            !more ==> span_views(r@) == spans_of(chars@),
            more ==> span_views(r@) + spans_from(chars@, i as int) == spans_of(chars@),
        decreases
                total - i,
                (if more {
                    1int
                } else {
                    0int
                }),
    {
        let end = name_end_in(chars, i);
        let point: bool = end == i + 1 && chars[i] == '.';
        proof {
            reveal_strlit(".");
            let piece = chars@.subrange(i as int, end as int);
            assert("."@.len() == 1 && "."@[0] == '.');
            assert(i <= end <= total);
            assert(piece.len() == end - i);
            if point {
                assert(piece =~= "."@);
            } else if piece == "."@ {
                assert(piece[0] == '.');
                assert(piece[0] == chars@[i as int]);
            }
            assert(point == (piece == "."@));
        }
        let ghost before = span_views(r@);
        let ghost rest = spans_from(chars@, end + 1);
        assert(counts(chars@, i as int, end as int) == (end > i && (i == 0 || !point)));
        assert(before + spans_from(chars@, i as int) == spans_of(chars@));
        if end > i && (i == 0 || !point) {
            r.push((i, end));
            assert(span_views(r@) =~= before.push((i as int, end as int)));
            assert(span_views(r@) + rest =~= before + (seq![(i as int, end as int)] + rest));
        } else {
            assert(spans_from(chars@, i as int) == rest);
        }
        assert(span_views(r@) + rest == spans_of(chars@));
        if end >= total {
            assert(span_views(r@) + rest =~= span_views(r@));
            more = false;
        } else {
            i = end + 1;
            if i >= total {
                assert(span_views(r@) + rest =~= span_views(r@));
                more = false;
            }
        }
    }
    proof {
        lemma_spans(chars@);
        assert forall|k: int| 0 <= k < r@.len() implies (#[trigger] r@[k]).0 < r@[k].1
            <= chars@.len() && spans_of(chars@)[k] == (r@[k].0 as int, r@[k].1 as int) by {
            assert(span_views(r@)[k] == spans_of(chars@)[k]);
        }
    }
    r
}

fn same_names(
    a: &Vec<char>,
    from_a: usize,
    end_a: usize,
    b: &Vec<char>,
    from_b: usize,
    end_b: usize,
) -> (r: bool)
    requires
        from_a <= end_a <= a@.len(),
        from_b <= end_b <= b@.len(),
    ensures
        r == (a@.subrange(from_a as int, end_a as int) == b@.subrange(
            from_b as int,
            end_b as int,
        )),
{
    let ghost x = a@.subrange(from_a as int, end_a as int);
    let ghost y = b@.subrange(from_b as int, end_b as int);
    if end_a - from_a != end_b - from_b {
        assert(x.len() != y.len());
        return false;
    }
    let n: usize = end_a - from_a;
    let mut i: usize = 0;
    while i < n
        invariant
            i <= n,
            n == end_a - from_a,
            n == end_b - from_b,
            from_a <= end_a <= a@.len(),
            from_b <= end_b <= b@.len(),
            x == a@.subrange(from_a as int, end_a as int),
            y == b@.subrange(from_b as int, end_b as int),
            forall|k: int| 0 <= k < i ==> x[k] == y[k],
        decreases n - i,
    {
        if a[from_a + i] != b[from_b + i] {
            assert(x[i as int] != y[i as int]);
            return false;
        }
        i += 1;
    }
    assert(x =~= y);
    true
}

/// Whether a path is a directory or lies in it.
#[must_use]
pub fn is_within(path: &str, directory: &str) -> (r: bool)
    ensures
        r == lies_in(path@, directory@),
{
    let chars = chars_of(path);
    let spans = spans_in(&chars);
    let above_chars = chars_of(directory);
    let above = spans_in(&above_chars);
    let ghost names = names_of(path@);
    let ghost above_names = names_of(directory@);
    assert(span_views(spans@).len() == spans@.len());
    assert(span_views(above@).len() == above@.len());
    if above.len() > spans.len() {
        return false;
    }
    let mut i: usize = 0;
    while i < above.len()
        invariant
            i <= above@.len() <= spans@.len(),
            chars@ == path@,
            above_chars@ == directory@,
            names == names_of(path@),
            above_names == names_of(directory@),
            spans@.len() == names.len(),
            above@.len() == above_names.len(),
            forall|k: int|
                0 <= k < spans@.len() ==> (#[trigger] spans@[k]).0 < spans@[k].1 <= chars@.len()
                    && spans_of(chars@)[k] == (spans@[k].0 as int, spans@[k].1 as int),
            forall|k: int|
                0 <= k < above@.len() ==> (#[trigger] above@[k]).0 < above@[k].1
                    <= above_chars@.len() && spans_of(above_chars@)[k] == (
                    above@[k].0 as int,
                    above@[k].1 as int,
                ),
            forall|k: int| 0 <= k < i ==> names[k] == above_names[k],
        decreases above@.len() - i,
    {
        let (from, end) = spans[i];
        let (above_from, above_end) = above[i];
        assert(spans@[i as int] == (from, end));
        assert(above@[i as int] == (above_from, above_end));
        if !same_names(&chars, from, end, &above_chars, above_from, above_end) {
            assert(names[i as int] != above_names[i as int]);
            return false;
        }
        i += 1;
    }
    assert(above_names.is_prefix_of(names));
    true
}

/// Whether two texts are the same path.
#[must_use]
pub fn is_same_path(a: &str, b: &str) -> (r: bool)
    ensures
        r == same_path(a@, b@),
{
    let r = is_within(a, b) && is_within(b, a);
    proof {
        let (x, y) = (names_of(a@), names_of(b@));
        if r {
            assert(x =~= y);
        } else if x == y {
            assert(x.is_prefix_of(x));
        }
    }
    r
}

/// Whether one of the texts is a path.
#[must_use]
pub fn contains_path(paths: &Vec<String>, path: &str) -> (r: bool)
    ensures
        r == lists_path(texts(paths@), path@),
{
    let mut i: usize = 0;
    while i < paths.len()
        invariant
            i <= paths.len(),
            forall|k: int| 0 <= k < i ==> !same_path(#[trigger] texts(paths@)[k], path@),
        decreases paths.len() - i,
    {
        if is_same_path(paths[i].as_str(), path) {
            assert(same_path(texts(paths@)[i as int], path@));
            return true;
        }
        i += 1;
    }
    false
}

/// The name that a path ends in.
#[must_use]
pub fn file_name(path: &str) -> (r: Option<String>)
    ensures
        match file_name_of(path@) {
            Some(name) => r matches Some(s) && s@ == name,
            None => r is None,
        },
{
    let chars = chars_of(path);
    let spans = spans_in(&chars);
    assert(span_views(spans@).len() == spans@.len());
    if spans.len() == 0 {
        return None;
    }
    let (from, end) = spans[spans.len() - 1];
    assert(spans@[spans@.len() - 1] == (from, end));
    let name = string_of_range(&chars, from, end);
    assert(name@ =~= names_of(path@).last());
    if str_eq(name.as_str(), "/") || str_eq(name.as_str(), ".") || str_eq(name.as_str(), "..") {
        None
    } else {
        Some(name)
    }
}

/// The directory that a path is in.
#[must_use]
pub fn parent(path: &str) -> (r: Option<String>)
    ensures
        match parent_of(path@) {
            Some(directory) => r matches Some(s) && s@ == directory,
            None => r is None,
        },
{
    let chars = chars_of(path);
    let spans = spans_in(&chars);
    assert(span_views(spans@).len() == spans@.len());
    let n: usize = spans.len();
    if n == 0 || n == 1 && chars.len() > 0 && chars[0] == '/' {
        None
    } else if n == 1 {
        Some(String::new())
    } else {
        let (from, end) = spans[n - 2];
        assert(spans@[n - 2] == (from, end));
        assert(path@.subrange(0, end as int) =~= path@.take(end as int));
        Some(string_of_range(&chars, 0, end))
    }
}

/// A path as it is seen from a directory.
#[must_use]
pub fn relative_to(path: &str, directory: &str) -> (r: String)
    ensures
        r@ == seen_from(path@, directory@),
{
    if !is_within(path, directory) {
        return copy_str(path);
    }
    let chars = chars_of(path);
    let spans = spans_in(&chars);
    let above_chars = chars_of(directory);
    let above: usize = spans_in(&above_chars).len();
    assert(span_views(spans@).len() == spans@.len());
    assert(above == spans_of(directory@).len());
    let n: usize = spans.len();
    if n == above {
        return String::new();
    }
    let (from, end) = spans[above];
    let (last_from, last_end) = spans[n - 1];
    proof {
        assert(spans@[above as int] == (from, end));
        assert(spans@[n - 1] == (last_from, last_end));
        lemma_spans(path@);
        if above < n - 1 {
            assert(spans_of(path@)[above as int].1 <= spans_of(path@)[n - 1].0);
        }
    }
    string_of_range(&chars, from, last_end)
}

fn last_point_in(chars: &Vec<char>) -> (r: Option<usize>)
    ensures
        match last_point(chars@, chars@.len() as int) {
            Some(at) => r matches Some(i) && i == at && i < chars@.len(),
            None => r is None,
        },
{
    let mut i: usize = chars.len();
    while i > 0
        invariant
            i <= chars.len(),
            last_point(chars@, i as int) == last_point(chars@, chars@.len() as int),
        decreases i,
    {
        i -= 1;
        if chars[i] == '.' {
            return Some(i);
        }
    }
    None
}

/// A name without its extension.
#[must_use]
pub fn stem(name: &str) -> (r: String)
    ensures
        r@ == stem_of(name@),
{
    let chars = chars_of(name);
    match last_point_in(&chars) {
        Some(at) => if at == 0 {
            copy_str(name)
        } else {
            assert(name@.subrange(0, at as int) =~= name@.take(at as int));
            string_of_range(&chars, 0, at)
        },
        None => copy_str(name),
    }
}

/// Whether a path names a note.
#[must_use]
pub fn is_markdown_path(path: &str) -> (r: bool)
    ensures
        r == is_note(path@),
{
    match file_name(path) {
        Some(name) => {
            let chars = chars_of(name.as_str());
            match last_point_in(&chars) {
                Some(at) => if at == 0 {
                    false
                } else {
                    let total: usize = chars.len();
                    assert(at < total);
                    let ext = string_of_range(&chars, at + 1, total);
                    assert(ext@ =~= name@.skip(at + 1));
                    let lower = to_ascii_lower(ext.as_str());
                    str_eq(lower.as_str(), "md") || str_eq(lower.as_str(), "markdown")
                },
                None => false,
            }
        },
        None => false,
    }
}

/// A name in a directory.
#[must_use]
pub fn join(directory: &str, name: &str) -> (r: String)
    ensures
        r@ == joined_path(directory@, name@),
{
    let chars = chars_of(directory);
    let name_chars = chars_of(name);
    if name_chars.len() > 0 && name_chars[0] == '/' {
        copy_str(name)
    } else if chars.len() == 0 || chars[chars.len() - 1] == '/' {
        concat2(directory, name)
    } else {
        proof {
            reveal_strlit("/");
        }
        let r = concat3(directory, "/", name);
        assert(directory@ + "/"@ =~= directory@.push('/'));
        r
    }
}

/// The path of a note.
#[must_use]
pub fn normalize_markdown_target(path: &str) -> (r: String)
    ensures
        r@ == note_path(path@),
{
    if is_markdown_path(path) {
        return copy_str(path);
    }
    match file_name(path) {
        Some(name) => {
            let chars = chars_of(path);
            let spans = spans_in(&chars);
            assert(span_views(spans@).len() == spans@.len());
            let (from, end) = spans[spans.len() - 1];
            assert(spans@[spans@.len() - 1] == (from, end));
            let mut r = string_of_range(&chars, 0, from);
            assert(r@ =~= path@.take(from as int));
            let stem = stem(name.as_str());
            r.push_str(stem.as_str());
            r.push_str(".");
            r.push_str("md");
            r
        },
        None => copy_str(path),
    }
}

proof fn lemma_name_end_before(base: Seq<char>, tail: Seq<char>, from: int)
    requires
        base.len() > 0,
        base.last() == '/',
        0 <= from < base.len(),
    ensures
        name_end(base + tail, from) == name_end(base, from),
        name_end(base, from) < base.len(),
    decreases base.len() - from,
{
    assert((base + tail)[from] == base[from]);
    if base[from] != '/' {
        lemma_name_end_before(base, tail, from + 1);
    }
}

proof fn lemma_name_end_of_name(path: Seq<char>, from: int)
    requires
        0 <= from <= path.len(),
        forall|i: int| from <= i < path.len() ==> path[i] != '/',
    ensures
        name_end(path, from) == path.len(),
    decreases path.len() - from,
{
    if from < path.len() {
        lemma_name_end_of_name(path, from + 1);
    }
}

proof fn lemma_spans_before(base: Seq<char>, name: Seq<char>, from: int)
    requires
        base.len() > 0,
        base.last() == '/',
        0 <= from <= base.len(),
        name.len() > 0,
        name != "."@,
        forall|i: int| 0 <= i < name.len() ==> name[i] != '/',
    ensures
        spans_from(base + name, from) == spans_from(base, from).push(
            (base.len() as int, (base + name).len() as int),
        ),
    decreases base.len() - from,
{
    let path = base + name;
    if from < base.len() {
        lemma_name_end_before(base, name, from);
        lemma_name_end(base, from);
        let end = name_end(base, from);
        lemma_spans_before(base, name, end + 1);
        assert(path.subrange(from, end) =~= base.subrange(from, end));
        let rest = spans_from(base, end + 1);
        let last = (base.len() as int, path.len() as int);
        assert(seq![(from, end)] + rest.push(last) =~= (seq![(from, end)] + rest).push(last));
    } else {
        assert forall|i: int| from <= i < path.len() implies path[i] != '/' by {
            assert(path[i] == name[i - from]);
        }
        lemma_name_end_of_name(path, from);
        assert(path.subrange(from, path.len() as int) =~= name);
        assert(spans_from(path, path.len() as int + 1) =~= Seq::empty());
        assert(spans_from(base, from) =~= Seq::empty());
        assert(seq![(from, path.len() as int)] + Seq::empty() =~= Seq::empty().push(
            (from, path.len() as int),
        ));
    }
}

/// A name behind a slash is the last of the path's.
proof fn lemma_name_is_last(base: Seq<char>, name: Seq<char>)
    requires
        base.len() == 0 || base.last() == '/',
        name.len() > 0,
        base.len() > 0 ==> name != "."@,
        forall|i: int| 0 <= i < name.len() ==> name[i] != '/',
    ensures
        spans_of(base + name) == spans_of(base).push(
            (base.len() as int, (base + name).len() as int),
        ),
        names_of(base + name) == names_of(base).push(name),
{
    let path = base + name;
    let last = (base.len() as int, path.len() as int);
    if base.len() == 0 {
        assert(path =~= name);
        lemma_name_end_of_name(path, 0);
        assert(spans_from(path, path.len() as int + 1) =~= Seq::empty());
        assert(spans_of(path) =~= seq![last]);
        assert(spans_of(base) =~= Seq::empty());
    } else {
        assert(path[0] == base[0]);
        if is_rooted(base) {
            lemma_spans_before(base, name, 1);
            assert(seq![(0int, 1int)] + spans_from(base, 1).push(last) =~= (seq![(0int, 1int)]
                + spans_from(base, 1)).push(last));
        } else {
            lemma_spans_before(base, name, 0);
        }
    }
    lemma_spans(base);
    let (all, before) = (names_of(path), names_of(base));
    assert(path.subrange(last.0, last.1) =~= name);
    assert forall|i: int| 0 <= i < before.len() implies all[i] == #[trigger] before[i] by {
        let span = spans_of(base)[i];
        assert(spans_of(path)[i] == span);
        assert(path.subrange(span.0, span.1) =~= base.subrange(span.0, span.1));
    }
    assert(all =~= before.push(name));
}

proof fn lemma_spans_with_slash(path: Seq<char>, from: int)
    requires
        0 <= from,
    ensures
        spans_from(path.push('/'), from) == spans_from(path, from),
    decreases path.len() + 1 - from,
{
    let longer = path.push('/');
    if from < path.len() {
        lemma_end_with_slash(path, from);
        lemma_name_end(path, from);
        let end = name_end(path, from);
        lemma_spans_with_slash(path, end + 1);
        assert(longer.subrange(from, end) =~= path.subrange(from, end));
    } else if from == path.len() {
        assert(name_end(longer, from) == from);
        assert(spans_from(longer, from + 1) =~= Seq::empty());
    }
}

proof fn lemma_end_with_slash(path: Seq<char>, from: int)
    requires
        0 <= from <= path.len(),
    ensures
        name_end(path.push('/'), from) == name_end(path, from),
    decreases path.len() - from,
{
    if from < path.len() && path[from] != '/' {
        lemma_end_with_slash(path, from + 1);
    }
}

/// How many slashes stand behind a path does not matter.
pub proof fn law_end_slash_does_not_matter(path: Seq<char>)
    requires
        path.len() > 0,
    ensures
        same_path(path.push('/'), path),
        file_name_of(path.push('/')) == file_name_of(path),
        parent_of(path.push('/')) == parent_of(path),
{
    let longer = path.push('/');
    assert(longer[0] == path[0]);
    lemma_spans_with_slash(path, 0);
    lemma_spans_with_slash(path, 1);
    assert(spans_of(longer) == spans_of(path));
    lemma_spans(path);
    let (a, b) = (names_of(longer), names_of(path));
    assert forall|i: int| 0 <= i < b.len() implies a[i] == #[trigger] b[i] by {
        let span = spans_of(path)[i];
        assert(longer.subrange(span.0, span.1) =~= path.subrange(span.0, span.1));
    }
    assert(a =~= b);
    if spans_of(path).len() >= 2 {
        let end = spans_of(path)[spans_of(path).len() - 2].1;
        assert(longer.take(end) =~= path.take(end));
    }
}

/// A name that is put in a directory is the last name of the path, and the path lies in the
/// directory.
pub proof fn law_joined_path_lies_in_directory(directory: Seq<char>, name: Seq<char>)
    requires
        name.len() > 0,
        name != "."@,
        forall|i: int| 0 <= i < name.len() ==> name[i] != '/',
    ensures
        names_of(joined_path(directory, name)) == names_of(directory).push(name),
        lies_in(joined_path(directory, name), directory),
        seen_from(joined_path(directory, name), directory) == name,
{
    let base = if directory.len() == 0 || directory.last() == '/' {
        directory
    } else {
        directory.push('/')
    };
    let path = joined_path(directory, name);
    assert(path =~= base + name);
    lemma_name_is_last(base, name);
    if base != directory {
        law_end_slash_does_not_matter(directory);
    }
    assert(names_of(directory).is_prefix_of(names_of(path)));
    assert(path.subrange(base.len() as int, path.len() as int) =~= name);
}

proof fn lemma_last_point_suffix(stem: Seq<char>, upto: int)
    requires
        stem.len() < upto <= stem.len() + 3,
    ensures
        last_point(stem + ".md"@, upto) == Some(stem.len() as int),
    decreases upto,
{
    reveal_strlit(".md");
    let name = stem + ".md"@;
    assert(name[upto - 1] == ".md"@[upto - 1 - stem.len()]);
    if upto > stem.len() + 1 {
        lemma_last_point_suffix(stem, upto - 1);
    }
}

proof fn lemma_last_point(name: Seq<char>, upto: int)
    requires
        0 <= upto <= name.len(),
    ensures
        last_point(name, upto) matches Some(at) ==> 0 <= at < upto,
    decreases upto,
{
    if upto > 0 && name[upto - 1] != '.' {
        lemma_last_point(name, upto - 1);
    }
}

proof fn lemma_note_name(base: Seq<char>, stem: Seq<char>)
    requires
        base.len() == 0 || base.last() == '/',
        stem.len() > 0,
        forall|i: int| 0 <= i < stem.len() ==> #[trigger] stem[i] != '/',
    ensures
        is_note(base + (stem + ".md"@)),
{
    reveal_strlit(".md");
    reveal_strlit(".");
    reveal_strlit("..");
    reveal_strlit("/");
    reveal_strlit("md");
    let name = stem + ".md"@;
    assert forall|i: int| 0 <= i < name.len() implies name[i] != '/' by {
        if i < stem.len() {
            assert(name[i] == stem[i]);
        } else {
            assert(name[i] == ".md"@[i - stem.len()]);
        }
    }
    assert(name.len() >= 4);
    lemma_name_is_last(base, name);
    assert(names_of(base + name).last() == name);
    assert(file_name_of(base + name) == Some(name));
    lemma_last_point_suffix(stem, name.len() as int);
    assert(name.skip(stem.len() as int + 1) =~= "md"@);
    assert(ascii_lower_chars("md"@) =~= "md"@);
}

/// A note's path stays as it is, and any other path that ends in a name becomes a
/// note's.
pub proof fn law_note_path_names_a_note(path: Seq<char>)
    requires
        file_name_of(path) is Some,
    ensures
        is_note(note_path(path)),
        is_note(path) ==> note_path(path) == path,
        note_path(note_path(path)) == note_path(path),
{
    if !is_note(path) {
        reveal_strlit(".md");
        reveal_strlit(".");
        reveal_strlit("/");
        reveal_strlit("md");
        lemma_spans(path);
        let span = spans_of(path).last();
        let start = span.0;
        let base = path.take(start);
        let name = within(path, span);
        if is_rooted(path) && spans_of(path).len() == 1 {
            assert(name =~= "/"@);
        }
        assert(is_span(path, span));
        let stem = stem_of(name);
        lemma_last_point(name, name.len() as int);
        let new_name = stem + ".md"@;
        let new_path = note_path(path);
        assert("."@ + "md"@ =~= ".md"@);
        assert(new_path =~= base + new_name);
        assert forall|i: int| 0 <= i < stem.len() implies #[trigger] stem[i] != '/' by {
            assert(stem[i] == name[i]);
            assert(name[i] == path[start + i]);
        }
        lemma_note_name(base, stem);
    }
}

proof fn lemma_span_ends(path: Seq<char>, from: int)
    requires
        0 <= from,
    ensures
        forall|i: int|
            0 <= i < spans_from(path, from).len() ==> (#[trigger] spans_from(path, from)[i]).1
                == path.len() || path[spans_from(path, from)[i].1] == '/',
    decreases path.len() + 1 - from,
{
    if from < path.len() {
        lemma_name_end(path, from);
        let end = name_end(path, from);
        let rest = spans_from(path, end + 1);
        let all = spans_from(path, from);
        lemma_span_ends(path, end + 1);
        assert forall|i: int| 0 <= i < all.len() implies (#[trigger] all[i]).1 == path.len()
            || path[all[i].1] == '/' by {
            if counts(path, from, end) {
                if i > 0 {
                    assert(all[i] == rest[i - 1]);
                }
            } else {
                assert(all[i] == rest[i]);
            }
        }
    }
}

proof fn lemma_end_cut(path: Seq<char>, cut: int, from: int)
    requires
        0 <= from <= cut < path.len(),
        path[cut] == '/',
    ensures
        name_end(path.take(cut), from) == name_end(path, from),
        name_end(path, from) <= cut,
    decreases cut - from,
{
    if from < cut && path[from] != '/' {
        lemma_end_cut(path, cut, from + 1);
    }
}

proof fn lemma_spans_cut(path: Seq<char>, cut: int, from: int)
    requires
        0 <= from <= cut + 1,
        0 <= cut < path.len(),
        path[cut] == '/',
    ensures
        spans_from(path, from) == spans_from(path.take(cut), from) + spans_from(path, cut + 1),
    decreases cut + 1 - from,
{
    let front = path.take(cut);
    if from < cut {
        lemma_end_cut(path, cut, from);
        lemma_name_end(path, from);
        let end = name_end(path, from);
        lemma_spans_cut(path, cut, end + 1);
        assert(front.subrange(from, end) =~= path.subrange(from, end));
        let (a, b) = (spans_from(front, end + 1), spans_from(path, cut + 1));
        assert(seq![(from, end)] + (a + b) =~= (seq![(from, end)] + a) + b);
    } else if from == cut {
        assert(name_end(path, from) == from);
        assert(spans_from(front, from) =~= Seq::empty());
        assert(Seq::<(int, int)>::empty() + spans_from(path, cut + 1) =~= spans_from(
            path,
            cut + 1,
        ));
    } else {
        assert(spans_from(front, from) =~= Seq::empty());
        assert(Seq::<(int, int)>::empty() + spans_from(path, cut + 1) =~= spans_from(
            path,
            cut + 1,
        ));
    }
}

/// The directory that a path is in has the path's names but the last. Only a path without
/// names and the root are in none.
pub proof fn law_directory_has_all_names_but_the_last(path: Seq<char>)
    ensures
        parent_of(path) matches Some(directory) ==> names_of(path).len() > 0 && names_of(directory)
            == names_of(path).drop_last(),
        parent_of(path) is None <==> names_of(path).len() == 0 || names_of(path).len() == 1
            && is_rooted(path),
{
    let all = spans_of(path);
    let names = names_of(path);
    lemma_spans(path);
    if let Some(directory) = parent_of(path) {
        if all.len() == 1 {
            assert(spans_of(directory) =~= Seq::empty());
            assert(names_of(directory) =~= names.drop_last());
        } else {
            let n = all.len() as int;
            let e = all[n - 2].1;
            let start: int = if is_rooted(path) {
                1
            } else {
                0
            };
            assert(e <= all[n - 1].0 && all[n - 1].0 < path.len());
            assert(is_rooted(directory) == is_rooted(path)) by {
                assert(all[n - 2].0 < e);
                assert(directory[0] == path[0]);
            }
            if is_rooted(path) && n == 2 {
                assert(directory.len() == 1);
                assert(spans_from(directory, 1) =~= Seq::empty());
                assert(spans_of(directory) =~= all.drop_last());
            } else {
                let rest = spans_from(path, start);
                lemma_span_ends(path, start);
                let at = n - 2 - start;
                assert(rest[at] == all[n - 2]);
                assert(path[e] == '/');
                lemma_spans_from(path, start);
                assert(start <= rest[at].0 < e);
                lemma_spans_cut(path, e, start);
                let (a, b) = (spans_from(directory, start), spans_from(path, e + 1));
                if start == 1 {
                    assert(directory[0] == '/');
                }
                lemma_spans_from(directory, start);
                lemma_spans_from(path, e + 1);
                assert(rest == a + b);
                if at >= a.len() {
                    assert(rest[at] == b[at - a.len()]);
                }
                assert(rest[at + 1] == all[n - 1]);
                if at + 1 < a.len() {
                    assert(rest[at + 1] == a[at + 1]);
                    assert(is_span(directory, a[at + 1]));
                }
                assert(a.len() == at + 1);
                assert(a =~= rest.drop_last());
                assert(spans_of(directory) =~= all.drop_last());
            }
            assert forall|i: int| 0 <= i < n - 1 implies names_of(directory)[i] == #[trigger] names[i]
                by {
                let span = all[i];
                assert(spans_of(directory)[i] == span);
                assert(span.1 <= e) by {
                    if i < n - 2 {
                        assert(all[i].1 <= all[n - 2].0);
                    }
                }
                assert(directory.subrange(span.0, span.1) =~= path.subrange(span.0, span.1));
            }
            assert(names_of(directory) =~= names.drop_last());
        }
    }
}

/// A name that is put in a directory is the name that the path ends in, and what it is put in
/// is the directory that the path is in.
pub proof fn law_joined_path_parts_again(directory: Seq<char>, name: Seq<char>)
    requires
        name.len() > 0,
        name != "."@,
        name != ".."@,
        forall|i: int| 0 <= i < name.len() ==> name[i] != '/',
    ensures
        file_name_of(joined_path(directory, name)) == Some(name),
        parent_of(joined_path(directory, name)) matches Some(parent) && same_path(
            parent,
            directory,
        ),
{
    reveal_strlit("/");
    reveal_strlit(".");
    law_joined_path_lies_in_directory(directory, name);
    let path = joined_path(directory, name);
    let names = names_of(path);
    assert(names.last() == name);
    assert("/"@[0] == '/');
    assert(name[0] != '/');
    if spans_of(path).len() == 1 && is_rooted(path) {
        assert(names[0] == name);
        lemma_spans(path);
        assert(within(path, spans_of(path)[0])[0] == path[spans_of(path)[0].0]);
        assert(spans_of(path)[0] == (0int, 1int));
    }
    law_directory_has_all_names_but_the_last(path);
    assert(names.drop_last() =~= names_of(directory));
}

proof fn lemma_last_point_of(stem: Seq<char>, ext: Seq<char>, upto: int)
    requires
        forall|i: int| 0 <= i < ext.len() ==> #[trigger] ext[i] != '.',
        stem.len() < upto <= stem.len() + 1 + ext.len(),
    ensures
        last_point(stem.push('.') + ext, upto) == Some(stem.len() as int),
    decreases upto,
{
    let name = stem.push('.') + ext;
    if upto > stem.len() + 1 {
        assert(name[upto - 1] == ext[upto - 2 - stem.len()]);
        lemma_last_point_of(stem, ext, upto - 1);
    } else {
        assert(name[upto - 1] == '.');
    }
}

/// The extension of a name stands behind its last point, and its stem before; a name without a
/// point has none.
pub proof fn law_extension_stands_behind_the_last_point(stem: Seq<char>, ext: Seq<char>)
    requires
        forall|i: int| 0 <= i < ext.len() ==> #[trigger] ext[i] != '.',
    ensures
        stem.len() > 0 ==> extension_of(stem.push('.') + ext) == Some(ext) && stem_of(
            stem.push('.') + ext,
        ) == stem,
        extension_of(ext) is None && stem_of(ext) == ext,
{
    let name = stem.push('.') + ext;
    lemma_last_point_of(stem, ext, name.len() as int);
    assert(name.skip(stem.len() as int + 1) =~= ext);
    assert(name.take(stem.len() as int) =~= stem);
    lemma_no_point(ext, ext.len() as int);
}

proof fn lemma_no_point(name: Seq<char>, upto: int)
    requires
        0 <= upto <= name.len(),
        forall|i: int| 0 <= i < name.len() ==> #[trigger] name[i] != '.',
    ensures
        last_point(name, upto) is None,
    decreases upto,
{
    if upto > 0 {
        lemma_no_point(name, upto - 1);
    }
}

/// A path is a note's just where the name that it ends in has the extension of Markdown, in
/// whatever capitals.
pub proof fn law_notes_end_as_markdown(directory: Seq<char>, stem: Seq<char>, ext: Seq<char>)
    requires
        stem.len() > 0,
        forall|i: int| 0 <= i < stem.len() ==> #[trigger] stem[i] != '/',
        forall|i: int| 0 <= i < ext.len() ==> #[trigger] ext[i] != '.' && ext[i] != '/',
        ext.len() > 0,
    ensures
        is_note(joined_path(directory, stem.push('.') + ext)) <==> ascii_lower_chars(ext) == "md"@
            || ascii_lower_chars(ext) == "markdown"@,
{
    reveal_strlit(".");
    reveal_strlit("..");
    let name = stem.push('.') + ext;
    assert(name.last() == ext.last());
    assert(name.len() >= 3);
    assert forall|i: int| 0 <= i < name.len() implies name[i] != '/' by {
        if i < stem.len() {
            assert(name[i] == stem[i]);
        } else if i > stem.len() {
            assert(name[i] == ext[i - stem.len() - 1]);
        }
    }
    law_joined_path_parts_again(directory, name);
    law_extension_stands_behind_the_last_point(stem, ext);
}

/// Lying in a directory goes from step to step: a path lies in itself, and what lies in
/// something that lies in a directory lies in it.
pub proof fn law_lying_in_a_directory_carries_on(a: Seq<char>, b: Seq<char>, c: Seq<char>)
    ensures
        lies_in(a, a),
        lies_in(a, b) && lies_in(b, c) ==> lies_in(a, c),
        lies_in(a, b) && lies_in(b, a) ==> same_path(a, b),
        same_path(a, b) ==> lies_in(a, c) == lies_in(b, c),
{
    assert(names_of(a).is_prefix_of(names_of(a)));
    if lies_in(a, b) && lies_in(b, c) {
        assert(names_of(c) =~= names_of(a).subrange(0, names_of(c).len() as int)) by {
            assert forall|i: int| 0 <= i < names_of(c).len() implies names_of(c)[i] == names_of(
                a,
            )[i] by {
                assert(names_of(c)[i] == names_of(b).subrange(0, names_of(c).len() as int)[i]);
                assert(names_of(b)[i] == names_of(a).subrange(0, names_of(b).len() as int)[i]);
            }
        }
    }
    if lies_in(a, b) && lies_in(b, a) {
        assert(names_of(a) =~= names_of(b));
    }
}

/// Another extension changes what stands behind the last point of the name, and nothing else.
pub proof fn law_other_extension_keeps_the_rest(
    directory: Seq<char>,
    stem: Seq<char>,
    ext: Seq<char>,
    other: Seq<char>,
)
    requires
        stem.len() > 0,
        ext.len() > 0,
        other.len() > 0,
        forall|i: int| 0 <= i < stem.len() ==> #[trigger] stem[i] != '/',
        forall|i: int| 0 <= i < ext.len() ==> #[trigger] ext[i] != '.' && ext[i] != '/',
    ensures
        with_extension(joined_path(directory, stem.push('.') + ext), other) == joined_path(
            directory,
            stem.push('.') + other,
        ),
{
    reveal_strlit(".");
    reveal_strlit("..");
    let name = stem.push('.') + ext;
    let path = joined_path(directory, name);
    assert forall|i: int| 0 <= i < name.len() implies name[i] != '/' by {
        if i < stem.len() {
            assert(name[i] == stem[i]);
        } else if i > stem.len() {
            assert(name[i] == ext[i - stem.len() - 1]);
        }
    }
    assert(name.len() >= 3);
    law_joined_path_parts_again(directory, name);
    law_extension_stands_behind_the_last_point(stem, ext);
    let base = if directory.len() == 0 || directory.last() == '/' {
        directory
    } else {
        directory.push('/')
    };
    assert(path =~= base + name);
    lemma_name_is_last(base, name);
    assert(path.take(base.len() as int) =~= base);
    assert((stem.push('.') + other)[0] == stem[0]);
    assert(base + stem + "."@ + other =~= base + (stem.push('.') + other));
    assert(joined_path(directory, stem.push('.') + other) =~= base + (stem.push('.') + other));
}

} // verus!
