//! The notes of a vault and the links between them.
//!
//! A link is written `[[target]]` or `[[target|shown text]]`.

use vstd::prelude::*;

use crate::paths::{
    file_name, is_same_path, join, normalize_markdown_target, parent, relative_to, stem,
};
use crate::text::{chars_of, copy_str, str_eq, string_of_range, to_ascii_lower, trim};

verus! {

broadcast use vstd::string::group_string_axioms;

use crate::paths::{
    file_name_of, joined_path, note_path, parent_of, same_path, seen_from, stem_of,
};
use crate::text::{ascii_lower_chars, opt_chars, texts, trimmed};

/// A note of a vault.
#[derive(Clone, Debug, PartialEq, Eq)]
pub struct VaultNote {
    pub path: String,
    pub label: String,
    pub parent_label: String,
}

/// A line of another note that links to a note.
#[derive(Clone, Debug, PartialEq, Eq)]
pub struct Backlink {
    pub path: String,
    pub label: String,
    pub line_number: usize,
    pub snippet: String,
}

/// A link into a note, with the note it leads to.
#[derive(Clone, Debug, PartialEq, Eq)]
pub struct IncomingLink {
    pub target: String,
    pub link: Backlink,
}

/// The notes of a vault and the links between them.
#[derive(Debug, PartialEq, Eq)]
pub struct VaultIndex {
    pub notes: Vec<VaultNote>,
    pub incoming: Vec<IncomingLink>,
}

/// A note of a vault.
pub struct NoteView {
    pub path: Seq<char>,
    pub label: Seq<char>,
    pub parent_label: Seq<char>,
}

/// A line of another note that links to a note.
pub struct BacklinkView {
    pub path: Seq<char>,
    pub label: Seq<char>,
    pub line_number: usize,
    pub snippet: Seq<char>,
}

impl View for VaultNote {
    type V = NoteView;

    open spec fn view(&self) -> NoteView {
        NoteView { path: self.path@, label: self.label@, parent_label: self.parent_label@ }
    }
}

impl View for Backlink {
    type V = BacklinkView;

    open spec fn view(&self) -> BacklinkView {
        BacklinkView {
            path: self.path@,
            label: self.label@,
            line_number: self.line_number,
            snippet: self.snippet@,
        }
    }
}

/// The notes of a vault, and each link between them with the note that it leads to.
#[verifier::ext_equal]
pub struct IndexView {
    pub notes: Seq<NoteView>,
    pub incoming: Seq<(Seq<char>, BacklinkView)>,
}

impl View for VaultIndex {
    type V = IndexView;

    open spec fn view(&self) -> IndexView {
        IndexView {
            notes: note_views(self.notes@),
            incoming: Seq::new(
                self.incoming@.len(),
                |i: int| (self.incoming@[i].target@, self.incoming@[i].link@),
            ),
        }
    }
}

/// The links of a list.
pub open spec fn backlink_views(links: Seq<Backlink>) -> Seq<BacklinkView> {
    Seq::new(links.len(), |i: int| links[i]@)
}

/// The notes of a list.
pub open spec fn note_views(notes: Seq<VaultNote>) -> Seq<NoteView> {
    Seq::new(notes.len(), |i: int| notes[i]@)
}

/// The first place from `from` on where `c` stands twice.
pub open spec fn pair_from(s: Seq<char>, from: int, c: char) -> Option<int>
    decreases s.len() - from,
{
    if from < 0 || from + 1 >= s.len() {
        None
    } else if s[from] == c && s[from + 1] == c {
        Some(from)
    } else {
        pair_from(s, from + 1, c)
    }
}

/// A link's place: where its opening brackets begin, and where its closing ones do.
pub open spec fn link_from(s: Seq<char>, from: int) -> Option<(int, int)> {
    match pair_from(s, from, '[') {
        Some(open) => match pair_from(s, open + 2, ']') {
            Some(close) => Some((open, close)),
            None => None,
        },
        None => None,
    }
}

/// The number of characters before the first bar, all of them where there is none.
pub open spec fn bar_from(s: Seq<char>, from: int) -> int
    decreases s.len() - from,
{
    if 0 <= from < s.len() && s[from] != '|' {
        bar_from(s, from + 1)
    } else {
        from
    }
}

/// The target of a link: what stands before the bar, without white space at its ends.
pub open spec fn link_target(inner: Seq<char>) -> Seq<char> {
    trimmed(inner.take(bar_from(inner, 0)))
}

/// The targets of the links from `from` on, blank ones left out and each listed where it
/// comes first; `seen` holds those that were listed before.
pub open spec fn targets_from(s: Seq<char>, from: int, seen: Seq<Seq<char>>) -> Seq<Seq<char>>
    decreases s.len() - from,
{
    if from < 0 {
        seen
    } else {
        match link_from(s, from) {
            Some((open, close)) => if from <= open && open + 2 <= close && close + 1 < s.len() {
                let target = link_target(s.subrange(open + 2, close));
                targets_from(
                    s,
                    close + 2,
                    if target.len() == 0 || seen.contains(target) {
                        seen
                    } else {
                        seen.push(target)
                    },
                )
            } else {
                seen
            },
            None => seen,
        }
    }
}

/// The targets of a text's links.
pub open spec fn links_of(s: Seq<char>) -> Seq<Seq<char>> {
    targets_from(s, 0, Seq::empty())
}

/// The target of the link that covers a column, its brackets included.
pub open spec fn target_at(s: Seq<char>, from: int, column: int) -> Option<Seq<char>>
    decreases s.len() - from,
{
    if from < 0 {
        None
    } else {
        match link_from(s, from) {
            Some((open, close)) => if from <= open && open + 2 <= close && close + 1 < s.len() {
                if open <= column < close + 2 {
                    let target = link_target(s.subrange(open + 2, close));
                    if target.len() == 0 {
                        None
                    } else {
                        Some(target)
                    }
                } else {
                    target_at(s, close + 2, column)
                }
            } else {
                None
            },
            None => None,
        }
    }
}

fn find_pair(chars: &Vec<char>, from: usize, c: char) -> (r: Option<usize>)
    ensures
        match pair_from(chars@, from as int, c) {
            Some(at) => r matches Some(i) && i == at,
            None => r is None,
        },
        r matches Some(i) ==> from <= i && i + 1 < chars@.len(),
{
    let total: usize = chars.len();
    let mut i: usize = from;
    if total == 0 {
        return None;
    }
    while i < total - 1
        invariant
            total == chars@.len(),
            total > 0,
            from <= i,
            pair_from(chars@, from as int, c) == pair_from(chars@, i as int, c),
        decreases total - i,
    {
        if chars[i] == c && chars[i + 1] == c {
            return Some(i);
        }
        i += 1;
    }
    None
}

fn find_link(chars: &Vec<char>, from: usize) -> (r: Option<(usize, usize)>)
    ensures
        match link_from(chars@, from as int) {
            Some((open, close)) => r matches Some(place) && place.0 == open && place.1 == close,
            None => r is None,
        },
        r matches Some(place) ==> from <= place.0 && place.0 + 2 <= place.1 && place.1 + 1
            < chars@.len(),
{
    let total: usize = chars.len();
    match find_pair(chars, from, '[') {
        Some(open) => {
            assert(open + 2 <= total);
            match find_pair(chars, open + 2, ']') {
                Some(close) => Some((open, close)),
                None => None,
            }
        },
        None => None,
    }
}

fn target_of(chars: &Vec<char>, start: usize, end: usize) -> (r: String)
    requires
        start <= end <= chars@.len(),
    ensures
        r@ == link_target(chars@.subrange(start as int, end as int)),
{
    let ghost inner = chars@.subrange(start as int, end as int);
    let mut bar: usize = start;
    while bar < end && chars[bar] != '|'
        invariant
            start <= bar <= end <= chars@.len(),
            inner == chars@.subrange(start as int, end as int),
            bar_from(inner, bar - start) == bar_from(inner, 0),
        decreases end - bar,
    {
        bar += 1;
    }
    let shown = string_of_range(chars, start, bar);
    assert(shown@ =~= inner.take(bar - start));
    trim(shown.as_str())
}

fn contains_text(list: &Vec<String>, text: &str) -> (r: bool)
    ensures
        r == texts(list@).contains(text@),
{
    let mut i: usize = 0;
    while i < list.len()
        invariant
            i <= list.len(),
            forall|k: int| 0 <= k < i ==> #[trigger] texts(list@)[k] != text@,
        decreases list.len() - i,
    {
        if str_eq(list[i].as_str(), text) {
            assert(texts(list@)[i as int] == text@);
            return true;
        }
        i += 1;
    }
    false
}

/// The targets of a text's links, each once, in the order of their first appearance.
#[must_use]
pub fn extract_wikilinks(text: &str) -> (r: Vec<String>)
    ensures
        texts(r@) == links_of(text@),
{
    let chars: Vec<char> = chars_of(text);
    let mut found: Vec<String> = Vec::new();
    let mut from: usize = 0;
    assert(texts(found@) =~= Seq::empty());
    while from < chars.len()
        invariant
            chars@ == text@,
            targets_from(text@, from as int, texts(found@)) == links_of(text@),
        decreases chars.len() - from,
    {
        match find_link(&chars, from) {
            Some((open, close)) => {
                let target = target_of(&chars, open + 2, close);
                if !target.is_empty() && !contains_text(&found, target.as_str()) {
                    let ghost before = found@;
                    let ghost listed = target@;
                    found.push(target);
                    assert(texts(found@) =~= texts(before).push(listed));
                }
                from = close + 2;
            },
            None => {
                return found;
            },
        }
    }
    found
}

/// The target of the link at a column of a line.
#[must_use]
pub fn wikilink_at_column(line: &str, column: usize) -> (r: Option<String>)
    ensures
        match target_at(line@, 0, column as int) {
            Some(target) => r matches Some(s) && s@ == target,
            None => r is None,
        },
{
    let chars: Vec<char> = chars_of(line);
    let mut from: usize = 0;
    while from < chars.len()
        invariant
            chars@ == line@,
            target_at(line@, from as int, column as int) == target_at(line@, 0, column as int),
        decreases chars.len() - from,
    {
        match find_link(&chars, from) {
            Some((open, close)) => {
                if open <= column && column < close + 2 {
                    let target = target_of(&chars, open + 2, close);
                    return if target.is_empty() {
                        None
                    } else {
                        Some(target)
                    };
                }
                from = close + 2;
            },
            None => {
                return None;
            },
        }
    }
    None
}

/// Whether a path holds `..` as one of its names.
pub open spec fn climbs(s: Seq<char>) -> bool {
    exists|i: int| #[trigger] climbs_at(s, i)
}

/// Whether `..` stands as a name at a place.
pub open spec fn climbs_at(s: Seq<char>, i: int) -> bool {
    &&& 0 <= i
    &&& i + 2 <= s.len()
    &&& s[i] == '.'
    &&& s[i + 1] == '.'
    &&& i == 0 || s[i - 1] == '/'
    &&& i + 2 == s.len() || s[i + 2] == '/'
}

fn leads_upwards(chars: &Vec<char>) -> (r: bool)
    ensures
        r == climbs(chars@),
{
    let total: usize = chars.len();
    if total < 2 {
        return false;
    }
    let mut i: usize = 0;
    while i < total - 1
        invariant
            2 <= total == chars@.len(),
            i <= total - 1,
            forall|k: int| 0 <= k < i ==> !climbs_at(chars@, k),
        decreases total - i,
    {
        if chars[i] == '.' && chars[i + 1] == '.' && (i == 0 || chars[i - 1] == '/') && (i + 2
            == total || chars[i + 2] == '/') {
            assert(climbs_at(chars@, i as int));
            return true;
        }
        i += 1;
    }
    false
}

/// Where a note that a link names is made: beside the active note, at the root where none
/// is active. A target that is blank, absolute or leads upwards names no note.
pub open spec fn new_link_path(
    root: Seq<char>,
    active: Option<Seq<char>>,
    link: Seq<char>,
) -> Option<Seq<char>> {
    let target = link_target(link);
    if target.len() == 0 || target[0] == '/' || climbs(target) {
        None
    } else {
        let directory = match active {
            Some(path) => match parent_of(path) {
                Some(directory) => directory,
                None => root,
            },
            None => root,
        };
        Some(note_path(joined_path(directory, target)))
    }
}

/// Where a note that a link names is made.
#[must_use]
pub fn new_wikilink_path(root: &str, active: &Option<String>, link: &str) -> (r: Option<String>)
    ensures
        match new_link_path(root@, opt_chars(*active), link@) {
            Some(path) => r matches Some(s) && s@ == path,
            None => r is None,
        },
{
    let chars: Vec<char> = chars_of(link);
    assert(chars@.subrange(0, chars@.len() as int) =~= link@);
    let target = target_of(&chars, 0, chars.len());
    let target_chars: Vec<char> = chars_of(target.as_str());
    if target_chars.len() == 0 || target_chars[0] == '/' || leads_upwards(&target_chars) {
        return None;
    }
    let directory: String = match active {
        Some(path) => match parent(path.as_str()) {
            Some(directory) => directory,
            None => copy_str(root),
        },
        None => copy_str(root),
    };
    let path = join(directory.as_str(), target.as_str());
    Some(normalize_markdown_target(path.as_str()))
}

/// The title of the note that a link names: the last name of its target.
pub open spec fn link_title(link: Seq<char>) -> Option<Seq<char>> {
    file_name_of(link_target(link))
}

/// The title of the note that a link names.
#[must_use]
pub fn wikilink_title(link: &str) -> (r: Option<String>)
    ensures
        match link_title(link@) {
            Some(title) => r matches Some(s) && s@ == title,
            None => r is None,
        },
{
    let chars: Vec<char> = chars_of(link);
    assert(chars@.subrange(0, chars@.len() as int) =~= link@);
    let target = target_of(&chars, 0, chars.len());
    file_name(target.as_str())
}

/// Whether a link names a note: its target is the name of the note's file without the
/// extension, in any case.
pub open spec fn names_note(link: Seq<char>, path: Seq<char>) -> bool {
    match file_name_of(path) {
        Some(name) => ascii_lower_chars(stem_of(name)) == ascii_lower_chars(link_target(link)),
        None => false,
    }
}

/// The first note from `from` on that a link names.
pub open spec fn resolved_from(notes: Seq<NoteView>, from: int, link: Seq<char>) -> Option<
    Seq<char>,
>
    decreases notes.len() - from,
{
    if from < 0 || from >= notes.len() {
        None
    } else if names_note(link, notes[from].path) {
        Some(notes[from].path)
    } else {
        resolved_from(notes, from + 1, link)
    }
}

/// Whether the characters of `query` from `q` on stand in `label` from `from` on, in their
/// order.
pub open spec fn follows(query: Seq<char>, q: int, label: Seq<char>, from: int) -> bool
    decreases label.len() - from,
{
    if q >= query.len() {
        true
    } else if q < 0 || from < 0 || from >= label.len() {
        false
    } else if query[q] == label[from] {
        follows(query, q + 1, label, from + 1)
    } else {
        follows(query, q, label, from + 1)
    }
}

/// Whether a note's label holds the characters of a query in their order, in any case.
pub open spec fn note_matches(note: NoteView, query: Seq<char>) -> bool {
    follows(ascii_lower_chars(query), 0, ascii_lower_chars(note.label), 0)
}

/// The first `limit` notes of the first `upto` that a query finds.
pub open spec fn found_notes(
    notes: Seq<NoteView>,
    upto: int,
    query: Seq<char>,
    limit: int,
) -> Seq<NoteView>
    decreases upto,
{
    if upto <= 0 {
        Seq::empty()
    } else {
        let before = found_notes(notes, upto - 1, query, limit);
        if before.len() < limit && note_matches(notes[upto - 1], query) {
            before.push(notes[upto - 1])
        } else {
            before
        }
    }
}

/// The links into a note among the first `upto`.
pub open spec fn links_into(
    incoming: Seq<(Seq<char>, BacklinkView)>,
    upto: int,
    path: Seq<char>,
) -> Seq<BacklinkView>
    decreases upto,
{
    if upto <= 0 {
        Seq::empty()
    } else if same_path(incoming[upto - 1].0, path) {
        links_into(incoming, upto - 1, path).push(incoming[upto - 1].1)
    } else {
        links_into(incoming, upto - 1, path)
    }
}

fn copy_backlink(link: &Backlink) -> (r: Backlink)
    ensures
        r@ == link@,
{
    Backlink {
        path: link.path.clone(),
        label: link.label.clone(),
        line_number: link.line_number,
        snippet: link.snippet.clone(),
    }
}

fn stands_in_order(query: &Vec<char>, label: &Vec<char>) -> (r: bool)
    ensures
        r == follows(query@, 0, label@, 0),
{
    let mut q: usize = 0;
    let mut i: usize = 0;
    while i < label.len() && q < query.len()
        invariant
            i <= label.len(),
            q <= query.len(),
            follows(query@, q as int, label@, i as int) == follows(query@, 0, label@, 0),
        decreases label.len() - i,
    {
        if query[q] == label[i] {
            q += 1;
        }
        i += 1;
    }
    q == query.len()
}

impl IndexView {
    /// An index of nothing.
    pub open spec fn nothing() -> Self {
        IndexView { notes: Seq::empty(), incoming: Seq::empty() }
    }

    /// The links into a note.
    pub open spec fn backlinks_of(self, path: Seq<char>) -> Seq<BacklinkView> {
        links_into(self.incoming, self.incoming.len() as int, path)
    }

    /// The note that a link names.
    pub open spec fn note_of(self, link: Seq<char>) -> Option<Seq<char>> {
        resolved_from(self.notes, 0, link)
    }

    /// The first notes that a query finds.
    pub open spec fn notes_found(self, query: Seq<char>, limit: int) -> Seq<NoteView> {
        found_notes(self.notes, self.notes.len() as int, query, limit)
    }
}

/// A note as it was read: its path and its lines.
#[derive(Clone, Debug, PartialEq, Eq)]
pub struct NoteText {
    pub path: String,
    pub lines: Vec<String>,
}

/// A note as it was read: its path and its lines.
pub struct NoteTextView {
    pub path: Seq<char>,
    pub lines: Seq<Seq<char>>,
}

impl View for NoteText {
    type V = NoteTextView;

    open spec fn view(&self) -> NoteTextView {
        NoteTextView { path: self.path@, lines: texts(self.lines@) }
    }
}

/// How a note is listed: by the name of its file, and by the directory that it is in as
/// seen from the vault.
pub open spec fn listed_note(root: Seq<char>, path: Seq<char>) -> NoteView {
    NoteView {
        path,
        label: match file_name_of(path) {
            Some(name) => name,
            None => path,
        },
        parent_label: match parent_of(path) {
            Some(directory) => seen_from(directory, root),
            None => Seq::empty(),
        },
    }
}

/// How the notes of a vault are listed.
pub open spec fn listed_notes(root: Seq<char>, notes: Seq<NoteText>) -> Seq<NoteView> {
    Seq::new(notes.len(), |i: int| listed_note(root, notes[i]@.path))
}

/// The links of a note's line among its first `upto` targets: each target that names a
/// note leads there.
pub open spec fn line_links(
    notes: Seq<NoteView>,
    from: BacklinkView,
    upto: int,
) -> Seq<(Seq<char>, BacklinkView)>
    decreases upto,
{
    if upto <= 0 {
        Seq::empty()
    } else {
        let before = line_links(notes, from, upto - 1);
        match resolved_from(notes, 0, links_of(from.snippet)[upto - 1]) {
            Some(path) => before.push((path, from)),
            None => before,
        }
    }
}

/// What stands for a line of a note where it links elsewhere. Lines are numbered from one.
pub open spec fn line_of(note: NoteView, lines: Seq<Seq<char>>, at: int) -> BacklinkView {
    BacklinkView {
        path: note.path,
        label: note.label,
        line_number: (at + 1) as usize,
        snippet: lines[at],
    }
}

/// The links of a note's first `upto` lines.
pub open spec fn text_links(
    notes: Seq<NoteView>,
    note: NoteView,
    lines: Seq<Seq<char>>,
    upto: int,
) -> Seq<(Seq<char>, BacklinkView)>
    decreases upto,
{
    if upto <= 0 {
        Seq::empty()
    } else {
        text_links(notes, note, lines, upto - 1) + line_links(
            notes,
            line_of(note, lines, upto - 1),
            links_of(lines[upto - 1]).len() as int,
        )
    }
}

/// The links of a vault's first `upto` notes.
pub open spec fn vault_links(
    listed: Seq<NoteView>,
    notes: Seq<NoteText>,
    upto: int,
) -> Seq<(Seq<char>, BacklinkView)>
    decreases upto,
{
    if upto <= 0 {
        Seq::empty()
    } else {
        vault_links(listed, notes, upto - 1) + text_links(
            listed,
            listed[upto - 1],
            notes[upto - 1]@.lines,
            notes[upto - 1]@.lines.len() as int,
        )
    }
}

/// The index of a vault.
pub open spec fn index_of_notes(root: Seq<char>, notes: Seq<NoteText>) -> IndexView {
    IndexView {
        notes: listed_notes(root, notes),
        incoming: vault_links(listed_notes(root, notes), notes, notes.len() as int),
    }
}

fn listed(root: &str, path: &str) -> (r: VaultNote)
    ensures
        r@ == listed_note(root@, path@),
{
    VaultNote {
        path: copy_str(path),
        label: match file_name(path) {
            Some(name) => name,
            None => copy_str(path),
        },
        parent_label: match parent(path) {
            Some(directory) => relative_to(directory.as_str(), root),
            None => String::new(),
        },
    }
}

impl VaultIndex {
    /// An index of nothing.
    #[must_use]
    pub fn empty() -> (r: Self)
        ensures
            r@ == IndexView::nothing(),
    {
        let index = VaultIndex { notes: Vec::new(), incoming: Vec::new() };
        assert(index@ =~= IndexView::nothing());
        index
    }

    /// The index of a vault's notes.
    #[must_use]
    pub fn build(root: &str, notes: &Vec<NoteText>) -> (r: Self)
        ensures
            r@ == index_of_notes(root@, notes@),
    {
        let mut index = VaultIndex::empty();
        let ghost all = listed_notes(root@, notes@);
        let mut i: usize = 0;
        while i < notes.len()
            invariant
                i <= notes.len(),
                all == listed_notes(root@, notes@),
                index@.notes == all.take(i as int),
                index@.incoming == Seq::<(Seq<char>, BacklinkView)>::empty(),
            decreases notes.len() - i,
        {
            let ghost before = index.notes@;
            index.notes.push(listed(root, notes[i].path.as_str()));
            assert(index@.notes =~= note_views(before).push(all[i as int]));
            assert(all.take(i + 1) =~= all.take(i as int).push(all[i as int]));
            assert(index@.incoming =~= Seq::<(Seq<char>, BacklinkView)>::empty());
            i += 1;
        }
        assert(all.take(i as int) =~= all);
        let mut n: usize = 0;
        while n < notes.len()
            invariant
                n <= notes.len(),
                all == listed_notes(root@, notes@),
                index@.notes == all,
                index@.incoming == vault_links(all, notes@, n as int),
            decreases notes.len() - n,
        {
            index.add_links_of(n, &notes[n]);
            n += 1;
        }
        assert(index@ =~= index_of_notes(root@, notes@));
        index
    }

    fn add_links_of(&mut self, at: usize, note: &NoteText)
        requires
            at < old(self)@.notes.len(),
        ensures
            final(self)@.notes == old(self)@.notes,
            final(self)@.incoming == old(self)@.incoming + text_links(
                old(self)@.notes,
                old(self)@.notes[at as int],
                note@.lines,
                note@.lines.len() as int,
            ),
    {
        let ghost v = self@;
        let mut i: usize = 0;
        assert(self@.incoming =~= v.incoming + text_links(
            v.notes,
            v.notes[at as int],
            note@.lines,
            0,
        ));
        while i < note.lines.len()
            invariant
                i <= note.lines.len(),
                at < v.notes.len(),
                self@.notes == v.notes,
                self@.incoming == v.incoming + text_links(
                    v.notes,
                    v.notes[at as int],
                    note@.lines,
                    i as int,
                ),
            decreases note.lines.len() - i,
        {
            let from = Backlink {
                path: self.notes[at].path.clone(),
                label: self.notes[at].label.clone(),
                line_number: i + 1,
                snippet: note.lines[i].clone(),
            };
            assert(from@ == line_of(v.notes[at as int], note@.lines, i as int)) by {
                assert(self@.notes[at as int] == self.notes@[at as int]@);
            }
            self.add_links_in(&from);
            assert(self@.incoming =~= v.incoming + text_links(
                v.notes,
                v.notes[at as int],
                note@.lines,
                i + 1,
            ));
            i += 1;
        }
    }

    fn add_links_in(&mut self, from: &Backlink)
        ensures
            final(self)@.notes == old(self)@.notes,
            final(self)@.incoming == old(self)@.incoming + line_links(
                old(self)@.notes,
                from@,
                links_of(from@.snippet).len() as int,
            ),
    {
        let ghost v = self@;
        let targets = extract_wikilinks(from.snippet.as_str());
        let mut i: usize = 0;
        assert(self@.incoming =~= v.incoming + line_links(v.notes, from@, 0));
        while i < targets.len()
            invariant
                i <= targets.len(),
                texts(targets@) == links_of(from@.snippet),
                self@.notes == v.notes,
                self@.incoming == v.incoming + line_links(v.notes, from@, i as int),
            decreases targets.len() - i,
        {
            assert(links_of(from@.snippet)[i as int] == targets@[i as int]@);
            if let Some(target) = self.resolve_wikilink_path(targets[i].as_str()) {
                let ghost before = self@;
                let link = copy_backlink(from);
                self.incoming.push(IncomingLink { target, link });
                assert(self@.incoming =~= before.incoming.push((target@, from@)));
                assert(self@.notes =~= v.notes);
            }
            assert(self@.incoming =~= v.incoming + line_links(v.notes, from@, i + 1));
            i += 1;
        }
    }

    /// The links into a note.
    #[must_use]
    pub fn backlinks_for(&self, path: &str) -> (r: Vec<Backlink>)
        ensures
            backlink_views(r@) == self@.backlinks_of(path@),
    {
        let mut found: Vec<Backlink> = Vec::new();
        let mut i: usize = 0;
        assert(backlink_views(found@) =~= links_into(self@.incoming, 0, path@));
        while i < self.incoming.len()
            invariant
                i <= self.incoming.len(),
                backlink_views(found@) == links_into(self@.incoming, i as int, path@),
            decreases self.incoming.len() - i,
        {
            if is_same_path(self.incoming[i].target.as_str(), path) {
                let ghost before = found@;
                let link = copy_backlink(&self.incoming[i].link);
                let ghost shown = link@;
                found.push(link);
                assert(backlink_views(found@) =~= backlink_views(before).push(shown));
            }
            i += 1;
        }
        found
    }

    /// The note that a link names.
    #[must_use]
    pub fn resolve_wikilink_path(&self, link: &str) -> (r: Option<String>)
        ensures
            match self@.note_of(link@) {
                Some(path) => r matches Some(s) && s@ == path,
                None => r is None,
            },
    {
        let chars: Vec<char> = chars_of(link);
        assert(chars@.subrange(0, chars@.len() as int) =~= link@);
        let target = target_of(&chars, 0, chars.len());
        let wanted = to_ascii_lower(target.as_str());
        let mut i: usize = 0;
        while i < self.notes.len()
            invariant
                i <= self.notes.len(),
                wanted@ == ascii_lower_chars(link_target(link@)),
                resolved_from(self@.notes, i as int, link@) == self@.note_of(link@),
            decreases self.notes.len() - i,
        {
            if let Some(name) = file_name(self.notes[i].path.as_str()) {
                let title = to_ascii_lower(stem(name.as_str()).as_str());
                if str_eq(title.as_str(), wanted.as_str()) {
                    return Some(self.notes[i].path.clone());
                }
            }
            i += 1;
        }
        None
    }

    /// The first notes whose label holds the characters of a query in their order.
    #[must_use]
    pub fn search_notes(&self, query: &str, limit: usize) -> (r: Vec<VaultNote>)
        ensures
            note_views(r@) == self@.notes_found(query@, limit as int),
    {
        let wanted: Vec<char> = chars_of(to_ascii_lower(query).as_str());
        let mut found: Vec<VaultNote> = Vec::new();
        let mut i: usize = 0;
        assert(note_views(found@) =~= found_notes(self@.notes, 0, query@, limit as int));
        while i < self.notes.len()
            invariant
                i <= self.notes.len(),
                wanted@ == ascii_lower_chars(query@),
                note_views(found@) == found_notes(self@.notes, i as int, query@, limit as int),
            decreases self.notes.len() - i,
        {
            let note = &self.notes[i];
            let label: Vec<char> = chars_of(to_ascii_lower(note.label.as_str()).as_str());
            if found.len() < limit && stands_in_order(&wanted, &label) {
                let ghost before = found@;
                let copy = VaultNote {
                    path: note.path.clone(),
                    label: note.label.clone(),
                    parent_label: note.parent_label.clone(),
                };
                let ghost shown = copy@;
                found.push(copy);
                assert(note_views(found@) =~= note_views(before).push(shown));
            }
            i += 1;
        }
        found
    }
}

proof fn lemma_targets_distinct(s: Seq<char>, from: int, seen: Seq<Seq<char>>)
    requires
        seen.no_duplicates(),
        forall|i: int| 0 <= i < seen.len() ==> (#[trigger] seen[i]).len() > 0,
    ensures
        targets_from(s, from, seen).no_duplicates(),
        forall|i: int|
            0 <= i < targets_from(s, from, seen).len() ==> (#[trigger] targets_from(
                s,
                from,
                seen,
            )[i]).len() > 0,
    decreases s.len() - from,
{
    if from >= 0 {
        if let Some((open, close)) = link_from(s, from) {
            if from <= open && open + 2 <= close && close + 1 < s.len() {
                let target = link_target(s.subrange(open + 2, close));
                if target.len() == 0 || seen.contains(target) {
                    lemma_targets_distinct(s, close + 2, seen);
                } else {
                    lemma_targets_distinct(s, close + 2, seen.push(target));
                }
            }
        }
    }
}

/// No link of a note is listed twice, and none is blank.
pub proof fn law_links_are_distinct(s: Seq<char>)
    ensures
        links_of(s).no_duplicates(),
        forall|i: int| 0 <= i < links_of(s).len() ==> (#[trigger] links_of(s)[i]).len() > 0,
{
    lemma_targets_distinct(s, 0, Seq::empty());
}

proof fn lemma_found(notes: Seq<NoteView>, upto: int, query: Seq<char>, limit: int, i: int)
    requires
        0 <= upto <= notes.len(),
        0 <= i < found_notes(notes, upto, query, limit).len(),
    ensures
        note_matches(found_notes(notes, upto, query, limit)[i], query),
    decreases upto,
{
    if upto > 0 {
        let before = found_notes(notes, upto - 1, query, limit);
        if i < before.len() {
            lemma_found(notes, upto - 1, query, limit, i);
        }
    }
}

proof fn lemma_found_short(notes: Seq<NoteView>, upto: int, query: Seq<char>, limit: int)
    requires
        0 <= upto <= notes.len(),
        0 <= limit,
    ensures
        found_notes(notes, upto, query, limit).len() <= limit,
    decreases upto,
{
    if upto > 0 {
        lemma_found_short(notes, upto - 1, query, limit);
    }
}

/// A search lists no more notes than it was asked for, and only notes that match.
pub proof fn law_search_keeps_to_its_limit(index: IndexView, query: Seq<char>, limit: int, i: int)
    requires
        0 <= i < index.notes_found(query, limit).len(),
        0 <= limit,
    ensures
        index.notes_found(query, limit).len() <= limit,
        note_matches(index.notes_found(query, limit)[i], query),
{
    lemma_found(index.notes, index.notes.len() as int, query, limit, i);
    lemma_found_short(index.notes, index.notes.len() as int, query, limit);
}

proof fn lemma_line_link(notes: Seq<NoteView>, from: BacklinkView, upto: int, at: int)
    requires
        0 <= at < upto,
        resolved_from(notes, 0, links_of(from.snippet)[at]) is Some,
    ensures
        line_links(notes, from, upto).contains(
            (resolved_from(notes, 0, links_of(from.snippet)[at])->0, from),
        ),
    decreases upto,
{
    let link = (resolved_from(notes, 0, links_of(from.snippet)[at])->0, from);
    let before = line_links(notes, from, upto - 1);
    let now = line_links(notes, from, upto);
    if at == upto - 1 {
        assert(now[now.len() - 1] == link);
    } else {
        lemma_line_link(notes, from, upto - 1, at);
        let i = choose|i: int| 0 <= i < before.len() && before[i] == link;
        assert(now[i] == link);
    }
}

proof fn lemma_text_link(
    notes: Seq<NoteView>,
    note: NoteView,
    lines: Seq<Seq<char>>,
    upto: int,
    line: int,
    link: (Seq<char>, BacklinkView),
)
    requires
        0 <= line < upto,
        line_links(notes, line_of(note, lines, line), links_of(lines[line]).len() as int).contains(
            link,
        ),
    ensures
        text_links(notes, note, lines, upto).contains(link),
    decreases upto,
{
    let before = text_links(notes, note, lines, upto - 1);
    let last = line_links(
        notes,
        line_of(note, lines, upto - 1),
        links_of(lines[upto - 1]).len() as int,
    );
    let now = text_links(notes, note, lines, upto);
    if line == upto - 1 {
        let i = choose|i: int| 0 <= i < last.len() && last[i] == link;
        assert(now[before.len() + i] == link);
    } else {
        lemma_text_link(notes, note, lines, upto - 1, line, link);
        let i = choose|i: int| 0 <= i < before.len() && before[i] == link;
        assert(now[i] == link);
    }
}

proof fn lemma_vault_link(
    listed: Seq<NoteView>,
    notes: Seq<NoteText>,
    upto: int,
    at: int,
    link: (Seq<char>, BacklinkView),
)
    requires
        0 <= at < upto,
        text_links(listed, listed[at], notes[at]@.lines, notes[at]@.lines.len() as int).contains(
            link,
        ),
    ensures
        vault_links(listed, notes, upto).contains(link),
    decreases upto,
{
    let before = vault_links(listed, notes, upto - 1);
    let last = text_links(
        listed,
        listed[upto - 1],
        notes[upto - 1]@.lines,
        notes[upto - 1]@.lines.len() as int,
    );
    let now = vault_links(listed, notes, upto);
    if at == upto - 1 {
        let i = choose|i: int| 0 <= i < last.len() && last[i] == link;
        assert(now[before.len() + i] == link);
    } else {
        lemma_vault_link(listed, notes, upto - 1, at, link);
        let i = choose|i: int| 0 <= i < before.len() && before[i] == link;
        assert(now[i] == link);
    }
}

proof fn lemma_link_into(
    incoming: Seq<(Seq<char>, BacklinkView)>,
    upto: int,
    at: int,
)
    requires
        0 <= at < upto <= incoming.len(),
    ensures
        links_into(incoming, upto, incoming[at].0).contains(incoming[at].1),
    decreases upto,
{
    let path = incoming[at].0;
    let now = links_into(incoming, upto, path);
    let before = links_into(incoming, upto - 1, path);
    if at == upto - 1 {
        assert(now[now.len() - 1] == incoming[at].1);
    } else {
        lemma_link_into(incoming, upto - 1, at);
        let i = choose|i: int| 0 <= i < before.len() && before[i] == incoming[at].1;
        assert(now[i] == incoming[at].1);
    }
}

/// Every link is known where it leads: the backlinks of the note that it names hold the
/// line that it stands in.
pub proof fn law_every_link_leads_back(
    root: Seq<char>,
    notes: Seq<NoteText>,
    note: int,
    line: int,
    target: int,
)
    requires
        0 <= note < notes.len(),
        0 <= line < notes[note]@.lines.len(),
        0 <= target < links_of(notes[note]@.lines[line]).len(),
        index_of_notes(root, notes).note_of(links_of(notes[note]@.lines[line])[target]) is Some,
    ensures
        ({
            let index = index_of_notes(root, notes);
            let named = index.note_of(links_of(notes[note]@.lines[line])[target])->0;
            index.backlinks_of(named).contains(
                line_of(index.notes[note], notes[note]@.lines, line),
            )
        }),
{
    let index = index_of_notes(root, notes);
    let lines = notes[note]@.lines;
    let from = line_of(index.notes[note], lines, line);
    let named = index.note_of(links_of(lines[line])[target])->0;
    let link = (named, from);
    lemma_line_link(index.notes, from, links_of(lines[line]).len() as int, target);
    lemma_text_link(index.notes, index.notes[note], lines, lines.len() as int, line, link);
    lemma_vault_link(index.notes, notes, notes.len() as int, note, link);
    let i = choose|i: int| 0 <= i < index.incoming.len() && index.incoming[i] == link;
    lemma_link_into(index.incoming, index.incoming.len() as int, i);
}

/// A doubled character is found where it stands first.
pub proof fn law_pair_is_found_where_it_stands_first(s: Seq<char>, from: int, c: char)
    requires
        0 <= from,
    ensures
        match pair_from(s, from, c) {
            Some(at) => from <= at && at + 1 < s.len() && s[at] == c && s[at + 1] == c && forall|
                k: int,
            | from <= k < at ==> !(#[trigger] s[k] == c && s[k + 1] == c),
            None => forall|k: int|
                from <= k && k + 1 < s.len() ==> !(#[trigger] s[k] == c && s[k + 1] == c),
        },
    decreases s.len() - from,
{
    if from + 1 < s.len() && !(s[from] == c && s[from + 1] == c) {
        law_pair_is_found_where_it_stands_first(s, from + 1, c);
    }
}

proof fn lemma_bar(s: Seq<char>, from: int)
    requires
        0 <= from <= s.len(),
    ensures
        from <= bar_from(s, from) <= s.len(),
        forall|k: int| from <= k < bar_from(s, from) ==> #[trigger] s[k] != '|',
        bar_from(s, from) < s.len() ==> s[bar_from(s, from)] == '|',
    decreases s.len() - from,
{
    if from < s.len() && s[from] != '|' {
        lemma_bar(s, from + 1);
    }
}

/// The target of a link is what stands before its first bar, and all of it without one, but
/// for the white space at its ends.
pub proof fn law_target_stands_before_the_bar(front: Seq<char>, behind: Seq<char>)
    requires
        forall|i: int| 0 <= i < front.len() ==> #[trigger] front[i] != '|',
    ensures
        link_target(front) == trimmed(front),
        link_target(front.push('|') + behind) == trimmed(front),
{
    let all = front.push('|') + behind;
    let n = front.len() as int;
    lemma_bar(front, 0);
    lemma_bar(all, 0);
    let b = bar_from(all, 0);
    if bar_from(front, 0) < n {
        assert(front[bar_from(front, 0)] == '|');
    }
    assert(all[n] == '|');
    if b < n {
        assert(all[b] == front[b]);
    }
    if n < b {
        assert(all[n] != '|');
    }
    assert(front.take(n) =~= front);
    assert(all.take(n) =~= front);
}

proof fn lemma_targets_keep(s: Seq<char>, from: int, seen: Seq<Seq<char>>)
    ensures
        seen.is_prefix_of(targets_from(s, from, seen)),
    decreases s.len() - from,
{
    if from >= 0 {
        if let Some((open, close)) = link_from(s, from) {
            if from <= open && open + 2 <= close && close + 1 < s.len() {
                let target = link_target(s.subrange(open + 2, close));
                let next = if target.len() == 0 || seen.contains(target) {
                    seen
                } else {
                    seen.push(target)
                };
                lemma_targets_keep(s, close + 2, next);
                assert(seen.is_prefix_of(next));
            }
        }
    }
}

/// A link whose brackets are the first from a place on is listed, unless its target is blank;
/// what was listed before stays in front.
pub proof fn law_next_link_is_listed(s: Seq<char>, from: int, seen: Seq<Seq<char>>)
    requires
        0 <= from,
    ensures
        seen.is_prefix_of(targets_from(s, from, seen)),
        match (pair_from(s, from, '['), link_from(s, from)) {
            (Some(open), Some((o, close))) => {
                &&& o == open
                &&& open + 2 <= close && close + 1 < s.len()
                &&& s[close] == ']' && s[close + 1] == ']'
                &&& link_target(s.subrange(open + 2, close)).len() > 0 ==> targets_from(
                    s,
                    from,
                    seen,
                ).contains(link_target(s.subrange(open + 2, close)))
            },
            (Some(open), None) => pair_from(s, open + 2, ']') is None && targets_from(
                s,
                from,
                seen,
            ) == seen,
            (None, link) => link is None && targets_from(s, from, seen) == seen,
        },
{
    lemma_targets_keep(s, from, seen);
    law_pair_is_found_where_it_stands_first(s, from, '[');
    if let Some(open) = pair_from(s, from, '[') {
        law_pair_is_found_where_it_stands_first(s, open + 2, ']');
        if let Some(close) = pair_from(s, open + 2, ']') {
            let target = link_target(s.subrange(open + 2, close));
            let next = if target.len() == 0 || seen.contains(target) {
                seen
            } else {
                seen.push(target)
            };
            lemma_targets_keep(s, close + 2, next);
            let all = targets_from(s, from, seen);
            assert(all == targets_from(s, close + 2, next));
            if target.len() > 0 {
                if seen.contains(target) {
                    let k = choose|k: int| 0 <= k < seen.len() && seen[k] == target;
                    assert(all[k] == target);
                } else {
                    assert(next[seen.len() as int] == target);
                    assert(all[seen.len() as int] == target);
                }
            }
        }
    }
}

/// The link at a column is the one whose brackets lie around it: from the first opening one to
/// the last closing one.
pub proof fn law_link_is_found_within_its_brackets(s: Seq<char>, from: int, column: int)
    requires
        0 <= from,
    ensures
        match link_from(s, from) {
            Some((open, close)) => {
                let target = link_target(s.subrange(open + 2, close));
                &&& open <= column < close + 2 && target.len() > 0 ==> target_at(s, from, column)
                    == Some(target)
                &&& open <= column < close + 2 && target.len() == 0 ==> target_at(s, from, column)
                    is None
                &&& column < open ==> target_at(s, from, column) is None
                &&& column >= close + 2 ==> target_at(s, from, column) == target_at(
                    s,
                    close + 2,
                    column,
                )
            },
            None => target_at(s, from, column) is None,
        },
    decreases s.len() - from,
{
    law_pair_is_found_where_it_stands_first(s, from, '[');
    if let Some(open) = pair_from(s, from, '[') {
        law_pair_is_found_where_it_stands_first(s, open + 2, ']');
        if let Some(close) = pair_from(s, open + 2, ']') {
            if column < open {
                law_link_is_found_within_its_brackets(s, close + 2, column);
                law_pair_is_found_where_it_stands_first(s, close + 2, '[');
            }
        }
    }
}

/// A link names the first note whose file is called as its target is, the ending and capitals
/// aside; where none is, it names none.
pub proof fn law_link_names_the_first_such_note(notes: Seq<NoteView>, from: int, link: Seq<char>)
    requires
        0 <= from,
    ensures
        match resolved_from(notes, from, link) {
            Some(path) => exists|i: int|
                from <= i < notes.len() && (#[trigger] notes[i]).path == path && (file_name_of(path)
                    matches Some(name) && ascii_lower_chars(stem_of(name)) == ascii_lower_chars(
                    link_target(link),
                )) && forall|k: int|
                    from <= k < i ==> !names_note(link, (#[trigger] notes[k]).path),
            None => forall|k: int|
                from <= k < notes.len() ==> !names_note(link, (#[trigger] notes[k]).path),
        },
    decreases notes.len() - from,
{
    if from < notes.len() {
        if names_note(link, notes[from].path) {
            assert(notes[from].path == resolved_from(notes, from, link)->0);
        } else {
            law_link_names_the_first_such_note(notes, from + 1, link);
            if let Some(path) = resolved_from(notes, from, link) {
                let i = choose|i: int|
                    from + 1 <= i < notes.len() && (#[trigger] notes[i]).path == path && (
                    file_name_of(path) matches Some(name) && ascii_lower_chars(stem_of(name))
                        == ascii_lower_chars(link_target(link))) && forall|k: int|
                        from + 1 <= k < i ==> !names_note(link, (#[trigger] notes[k]).path);
                assert(notes[i].path == path);
            }
        }
    }
}

/// Whether the characters of a query stand at places of a label, one behind the other.
pub open spec fn stand_at(query: Seq<char>, label: Seq<char>, places: Seq<int>) -> bool {
    &&& places.len() == query.len()
    &&& forall|i: int|
        0 <= i < places.len() ==> 0 <= #[trigger] places[i] < label.len() && label[places[i]]
            == query[i]
    &&& forall|i: int, j: int| 0 <= i < j < places.len() ==> places[i] < places[j]
}

proof fn lemma_follows_places(query: Seq<char>, q: int, label: Seq<char>, from: int) -> (places:
    Seq<int>)
    requires
        0 <= q <= query.len(),
        0 <= from <= label.len(),
        follows(query, q, label, from),
    ensures
        stand_at(query.skip(q), label, places),
        places.len() > 0 ==> from <= places[0],
    decreases label.len() - from,
{
    if q >= query.len() {
        Seq::empty()
    } else if query[q] == label[from] {
        let rest = lemma_follows_places(query, q + 1, label, from + 1);
        let places = seq![from] + rest;
        assert forall|i: int| 0 <= i < places.len() implies 0 <= #[trigger] places[i] < label.len()
            && label[places[i]] == query.skip(q)[i] by {
            if i > 0 {
                assert(places[i] == rest[i - 1]);
                assert(query.skip(q + 1)[i - 1] == query.skip(q)[i]);
            }
        }
        assert forall|i: int, j: int| 0 <= i < j < places.len() implies places[i] < places[j] by {
            assert(places[j] == rest[j - 1]);
            if i > 0 {
                assert(places[i] == rest[i - 1]);
            } else if j > 1 {
                assert(rest[0] < rest[j - 1]);
            }
        }
        places
    } else {
        lemma_follows_places(query, q, label, from + 1)
    }
}

proof fn lemma_places_follow(
    query: Seq<char>,
    q: int,
    label: Seq<char>,
    from: int,
    places: Seq<int>,
)
    requires
        0 <= q <= query.len(),
        0 <= from <= label.len(),
        stand_at(query.skip(q), label, places),
        places.len() > 0 ==> from <= places[0],
    ensures
        follows(query, q, label, from),
    decreases label.len() - from,
{
    if q < query.len() {
        assert(query.skip(q)[0] == query[q]);
        assert(places[0] < label.len());
        if query[q] == label[from] {
            let rest = places.drop_first();
            assert forall|i: int| 0 <= i < rest.len() implies 0 <= #[trigger] rest[i] < label.len()
                && label[rest[i]] == query.skip(q + 1)[i] by {
                assert(rest[i] == places[i + 1]);
                assert(query.skip(q + 1)[i] == query.skip(q)[i + 1]);
            }
            assert forall|i: int, j: int| 0 <= i < j < rest.len() implies rest[i] < rest[j] by {
                assert(places[i + 1] < places[j + 1]);
            }
            if rest.len() > 0 {
                assert(places[0] < places[1]);
            }
            lemma_places_follow(query, q + 1, label, from + 1, rest);
        } else {
            lemma_places_follow(query, q, label, from + 1, places);
        }
    }
}

/// A search finds a note just where the characters of the query stand in its label one behind
/// the other, capitals aside.
pub proof fn law_query_stands_in_order_in_what_it_finds(note: NoteView, query: Seq<char>)
    ensures
        note_matches(note, query) <==> exists|places: Seq<int>| #[trigger]
            stand_at(ascii_lower_chars(query), ascii_lower_chars(note.label), places),
{
    let q = ascii_lower_chars(query);
    let label = ascii_lower_chars(note.label);
    assert(q.skip(0) =~= q);
    if note_matches(note, query) {
        let places = lemma_follows_places(q, 0, label, 0);
        assert(stand_at(q, label, places));
    }
    if exists|places: Seq<int>| #[trigger] stand_at(q, label, places) {
        let places = choose|places: Seq<int>| #[trigger] stand_at(q, label, places);
        lemma_places_follow(q, 0, label, 0, places);
    }
}

proof fn lemma_found_grow(notes: Seq<NoteView>, i: int, n: int, query: Seq<char>, limit: int)
    requires
        0 <= i <= n <= notes.len(),
    ensures
        found_notes(notes, i, query, limit).is_prefix_of(found_notes(notes, n, query, limit)),
    decreases n,
{
    if i < n {
        lemma_found_grow(notes, i, n - 1, query, limit);
    }
}

/// A search leaves no note out that matches, before it has found as many as it was asked for;
/// those it finds come in the order of the vault.
pub proof fn law_search_finds_every_match(index: IndexView, query: Seq<char>, limit: int, i: int)
    requires
        0 <= i < index.notes.len(),
        note_matches(index.notes[i], query),
        found_notes(index.notes, i, query, limit).len() < limit,
    ensures
        ({
            let before = found_notes(index.notes, i, query, limit);
            let all = index.notes_found(query, limit);
            &&& before.is_prefix_of(all)
            &&& before.len() < all.len()
            &&& all[before.len() as int] == index.notes[i]
        }),
{
    let n = index.notes.len() as int;
    lemma_found_grow(index.notes, i, n, query, limit);
    lemma_found_grow(index.notes, i + 1, n, query, limit);
    let before = found_notes(index.notes, i, query, limit);
    let with = found_notes(index.notes, i + 1, query, limit);
    let all = index.notes_found(query, limit);
    assert(with == before.push(index.notes[i]));
    assert(with[before.len() as int] == all.subrange(0, with.len() as int)[before.len() as int]);
}

/// The backlinks of a note are the links that lead to its path, and no others.
pub proof fn law_backlinks_lead_to_the_note(index: IndexView, path: Seq<char>, k: int)
    requires
        0 <= k < index.backlinks_of(path).len(),
    ensures
        exists|i: int|
            0 <= i < index.incoming.len() && same_path((#[trigger] index.incoming[i]).0, path)
                && index.incoming[i].1 == index.backlinks_of(path)[k],
{
    lemma_into_from(index.incoming, index.incoming.len() as int, path, k);
}

proof fn lemma_into_from(
    incoming: Seq<(Seq<char>, BacklinkView)>,
    upto: int,
    path: Seq<char>,
    k: int,
)
    requires
        0 <= upto <= incoming.len(),
        0 <= k < links_into(incoming, upto, path).len(),
    ensures
        exists|i: int|
            0 <= i < upto && same_path((#[trigger] incoming[i]).0, path) && incoming[i].1
                == links_into(incoming, upto, path)[k],
    decreases upto,
{
    if upto > 0 {
        let before = links_into(incoming, upto - 1, path);
        if k < before.len() {
            lemma_into_from(incoming, upto - 1, path, k);
            let i = choose|i: int|
                0 <= i < upto - 1 && same_path((#[trigger] incoming[i]).0, path) && incoming[i].1
                    == before[k];
            assert(same_path(incoming[i].0, path));
        } else {
            assert(same_path(incoming[upto - 1].0, path));
        }
    }
}

/// A backlink tells the note that it stands in and its line, counted from one.
pub proof fn law_backlink_tells_its_line(note: NoteView, lines: Seq<Seq<char>>, at: int)
    requires
        0 <= at < lines.len(),
        lines.len() <= usize::MAX,
    ensures
        line_of(note, lines, at).line_number == at + 1,
        line_of(note, lines, at).snippet == lines[at],
        line_of(note, lines, at).path == note.path,
        line_of(note, lines, at).label == note.label,
{
}

} // verus!
