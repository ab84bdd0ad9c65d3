//! What the editor's state is and how each operation changes it.

use std::ops::Range;

use vstd::prelude::*;

use crate::shell::file_tree::FileKind;
use crate::workspace::WorkspaceTree;
use crate::shell::model::{
    NoteOnDisk, VaultScan, CURSOR_SCROLL_MARGIN, LIVE_METADATA_CHAR_LIMIT, MAX_RENDERED_LINES,
};

verus! {

broadcast use vstd::string::group_string_axioms;

use crate::paths::{
    is_note, lemma_parent_is_shorter, lies_in, lists_path, note_path, parent_of, same_path,
    seen_from,
};
use crate::shell::editor_buffer::{
    law_undo_reverts_edit, typed, typing_changes, undone,
    buffer_wf, edit_changes, edited, lemma_utf16_take_grows, min_of, moved_to, place_of,
    saved_buffer, selection_of, shown_line, utf16_falls_on, words_in, BufferView,
};
use crate::shell::file_tree::{
    first_note_among, folders_after_scan, most_height, rows_for_all, FileRow,
};
use crate::shell::note_names::titled_text;
use crate::shell::outline::{outline_of, HeadingView};
use crate::shell::rope::{lemma_position_in_line, line_count, utf16_len};
use crate::shell::vault_index::{
    link_title, links_of, new_link_path, target_at, BacklinkView, IndexView,
};
use crate::text::decimal;

/// An open note.
#[verifier::ext_equal]
pub struct TabView {
    pub path: Seq<char>,
    pub label: Seq<char>,
    pub dirty: bool,
    pub buffer: BufferView,
}

/// Numbers about the note being edited.
pub struct StatusView {
    pub words: int,
    pub lines: int,
    pub links: int,
    pub backlinks: int,
    pub rendered_lines: int,
}

impl StatusView {
    /// No note.
    pub open spec fn zero() -> Self {
        StatusView { words: 0, lines: 0, links: 0, backlinks: 0, rendered_lines: 0 }
    }
}

/// The editor's state.
#[verifier::ext_equal]
pub struct ShellView {
    pub tree: Option<WorkspaceTree>,
    pub index: IndexView,
    pub expanded: Seq<Seq<char>>,
    pub root: Seq<char>,
    pub active: Option<Seq<char>>,
    pub selected: Option<Seq<char>>,
    pub files: Seq<(int, FileRow)>,
    pub tabs: Seq<TabView>,
    pub document: BufferView,
    pub marked: Option<(int, int)>,
    pub start_line: int,
    pub lines: Seq<Seq<char>>,
    pub outline: Seq<HeadingView>,
    pub links: Seq<Seq<char>>,
    pub backlinks: Seq<BacklinkView>,
    pub status: StatusView,
    pub message: Seq<char>,
}

/// Rows numbered by their places.
pub open spec fn in_order(rows: Seq<FileRow>) -> Seq<(int, FileRow)> {
    Seq::new(rows.len(), |i: int| (i, rows[i]))
}

/// A well-formed state: the buffers are, the first line shown is a line of the note, the
/// marked range does not run backwards and the rows are numbered by their places.
pub open spec fn shell_wf(v: ShellView) -> bool {
    &&& buffer_wf(v.document)
    &&& forall|i: int| 0 <= i < v.tabs.len() ==> buffer_wf((#[trigger] v.tabs[i]).buffer)
    &&& 0 <= v.start_line < line_count(v.document.text)
    &&& v.marked matches Some((start, end)) ==> 0 <= start <= end
    &&& v.tree matches Some(tree) ==> most_height(tree.entries@, 0) <= usize::MAX
    &&& forall|i: int| 0 <= i < v.files.len() ==> (#[trigger] v.files[i]).0 == i
}

/// A path as it is shown: from the vault's root where it lies there.
pub open spec fn shown_path(v: ShellView, path: Seq<char>) -> Seq<char> {
    seen_from(path, v.root)
}

/// The note being edited, as it is shown.
pub open spec fn shown_active(v: ShellView) -> Seq<char> {
    match v.active {
        Some(path) => shown_path(v, path),
        None => "scratch"@,
    }
}

/// The lines of a text.
pub open spec fn lines_of(text: Seq<char>) -> Seq<Seq<char>> {
    Seq::new(line_count(text) as nat, |i: int| shown_line(text, i))
}

/// The lines of a text that are shown from a line on.
pub open spec fn window(text: Seq<char>, start: int) -> Seq<Seq<char>> {
    Seq::new(
        (min_of(start + MAX_RENDERED_LINES, line_count(text)) - start) as nat,
        |i: int| shown_line(text, start + i),
    )
}

/// The state with the first line shown brought into the note and the shown lines read from
/// it.
pub open spec fn viewed(v: ShellView) -> ShellView {
    let total = line_count(v.document.text);
    let start = min_of(v.start_line, total - 1);
    let lines = window(v.document.text, start);
    ShellView {
        start_line: start,
        lines,
        status: StatusView { lines: total, rendered_lines: lines.len() as int, ..v.status },
        ..v
    }
}

/// The state with everything that is shown about the note read from it. Of a long note only
/// the lines are.
pub open spec fn described(v: ShellView) -> ShellView {
    let shown = viewed(v);
    if v.document.text.len() > LIVE_METADATA_CHAR_LIMIT {
        ShellView {
            outline: Seq::empty(),
            links: Seq::empty(),
            backlinks: Seq::empty(),
            status: StatusView { words: 0, links: 0, backlinks: 0, ..shown.status },
            ..shown
        }
    } else {
        let links = links_of(v.document.text);
        let backlinks = match v.active {
            Some(path) => v.index.backlinks_of(path),
            None => Seq::empty(),
        };
        ShellView {
            outline: outline_of(lines_of(v.document.text), line_count(v.document.text)),
            links,
            backlinks,
            status: StatusView {
                words: words_in(v.document.pieces),
                links: links.len() as int,
                backlinks: backlinks.len() as int,
                ..shown.status
            },
            ..shown
        }
    }
}

/// The line that the cursor is on.
pub open spec fn cursor_line(v: ShellView) -> int {
    place_of(v.document.text, v.document.at.cursor).0
}

/// The first line to show so that the cursor is in view with some lines around it.
pub open spec fn followed_start(v: ShellView) -> int {
    let cursor = cursor_line(v);
    let total = line_count(v.document.text);
    let budget = min_of(MAX_RENDERED_LINES as int, total);
    let end = v.start_line + budget;
    if cursor < v.start_line + CURSOR_SCROLL_MARGIN && v.start_line > 0 {
        if cursor < CURSOR_SCROLL_MARGIN {
            0
        } else {
            cursor - CURSOR_SCROLL_MARGIN
        }
    } else if cursor + CURSOR_SCROLL_MARGIN >= end && end < total {
        let wanted = cursor + CURSOR_SCROLL_MARGIN + 1 - budget;
        min_of(
            if wanted < 0 {
                0
            } else {
                wanted
            },
            total - budget,
        )
    } else {
        v.start_line
    }
}

/// The state with the shown lines following the cursor.
pub open spec fn followed(v: ShellView) -> ShellView {
    if followed_start(v) != v.start_line {
        viewed(ShellView { start_line: followed_start(v), ..v })
    } else {
        v
    }
}

/// The state with another buffer being edited.
pub open spec fn with_document(v: ShellView, document: BufferView) -> ShellView {
    ShellView { document, ..v }
}

/// The state with another message.
pub open spec fn saying(v: ShellView, message: Seq<char>) -> ShellView {
    ShellView { message, ..v }
}

/// The first tab from `from` on that shows a path.
pub open spec fn tab_from(tabs: Seq<TabView>, path: Seq<char>, from: int) -> Option<int>
    decreases tabs.len() - from,
{
    if from < 0 || from >= tabs.len() {
        None
    } else if same_path(tabs[from].path, path) {
        Some(from)
    } else {
        tab_from(tabs, path, from + 1)
    }
}

/// The tab of the note being edited.
pub open spec fn active_tab(v: ShellView) -> Option<int> {
    match v.active {
        Some(path) => tab_from(v.tabs, path, 0),
        None => None,
    }
}

/// Whether a path is that of the note being edited.
pub open spec fn is_active(v: ShellView, path: Seq<char>) -> bool {
    v.active matches Some(active) && same_path(active, path)
}

/// Whether a buffer changed since it was saved.
pub open spec fn changed_since_saved(buffer: BufferView) -> bool {
    buffer.state_marker != buffer.saved_marker
}

/// The state with the note being edited put back into its tab.
pub open spec fn synced(v: ShellView) -> ShellView {
    match active_tab(v) {
        Some(i) => ShellView {
            tabs: v.tabs.update(
                i,
                TabView {
                    buffer: v.document,
                    dirty: changed_since_saved(v.document),
                    ..v.tabs[i]
                },
            ),
            ..v
        },
        None => v,
    }
}

/// The state with the tab of the note being edited marked as changed or not.
pub open spec fn flagged(v: ShellView) -> ShellView {
    match active_tab(v) {
        Some(i) => ShellView {
            tabs: v.tabs.update(
                i,
                TabView { dirty: changed_since_saved(v.document), ..v.tabs[i] },
            ),
            ..v
        },
        None => v,
    }
}

/// The state after the note's text changed.
pub open spec fn after_change(v: ShellView, action: Seq<char>) -> ShellView {
    let shown = if v.document.text.len() <= LIVE_METADATA_CHAR_LIMIT {
        described(v)
    } else {
        viewed(v)
    };
    let marked = flagged(shown);
    saying(marked, action + " "@ + shown_active(marked))
}

/// The state with a buffer being edited from its start.
pub open spec fn loaded(
    v: ShellView,
    path: Option<Seq<char>>,
    buffer: BufferView,
    message: Seq<char>,
) -> ShellView {
    saying(
        described(
            ShellView { active: path, document: buffer, marked: None, start_line: 0, ..v },
        ),
        message,
    )
}

/// The state with a tab being edited.
pub open spec fn tab_shown(v: ShellView, i: int) -> ShellView {
    let tab = v.tabs[i];
    loaded(
        ShellView { selected: Some(tab.path), ..v },
        Some(tab.path),
        tab.buffer,
        "Opened "@ + tab.label,
    )
}

/// What reading a file gave.
pub open spec fn read_view(read: Result<String, String>) -> Result<Seq<char>, Seq<char>> {
    match read {
        Ok(text) => Ok(text@),
        Err(error) => Err(error@),
    }
}

/// The state with a note opened: its tab where it has one, else a new tab with what reading
/// it gave.
pub open spec fn opened(
    v: ShellView,
    path: Seq<char>,
    read: Result<Seq<char>, Seq<char>>,
    pieces: Seq<Seq<char>>,
) -> ShellView {
    let s = synced(v);
    match tab_from(s.tabs, path, 0) {
        Some(i) => tab_shown(s, i),
        None => match read {
            Ok(text) => {
                let label = shown_path(s, path);
                let tab = TabView { path, label, dirty: false, buffer: saved_buffer(text, pieces) };
                loaded(
                    ShellView { selected: Some(path), tabs: s.tabs.push(tab), ..s },
                    Some(path),
                    saved_buffer(text, pieces),
                    "Opened "@ + label,
                )
            },
            Err(error) => saying(s, error),
        },
    }
}

/// The state with the rows of the tree made anew.
pub open spec fn relisted(v: ShellView) -> ShellView {
    ShellView {
        files: match v.tree {
            Some(tree) => in_order(rows_for_all(tree.entries@, 0, 0, v.expanded)),
            None => Seq::empty(),
        },
        ..v
    }
}

/// The state after a search of the vault.
pub open spec fn refreshed(
    v: ShellView,
    scan: Result<VaultScan, String>,
) -> ShellView {
    match scan {
        Ok(found) => {
            let rows = relisted(
                ShellView {
                    expanded: folders_after_scan(v.expanded, found.tree.entries@),
                    tree: Some(found.tree),
                    index: found.index@,
                    ..v
                },
            );
            let shown = described(rows);
            saying(shown, decimal(shown.files.len()) + " visible entries"@)
        },
        Err(error) => ShellView {
            files: Seq::empty(),
            tree: None,
            index: IndexView::nothing(),
            message: error@,
            ..v
        },
    }
}

/// The text that is shown for a vault without notes.
pub open spec fn no_notes_text() -> Seq<char> {
    "# Ocean GUI\n\nNo markdown files found in this workspace."@
}

/// The state with the vault's first note opened, or a text in its place where there is
/// none.
pub open spec fn first_opened(
    v: ShellView,
    read: Result<Seq<char>, Seq<char>>,
    pieces: Seq<Seq<char>>,
) -> ShellView {
    let first = match v.tree {
        Some(tree) => first_note_among(tree.entries@, 0),
        None => None,
    };
    match first {
        Some(path) => opened(v, path, read, pieces),
        None => loaded(
            v,
            None,
            saved_buffer(no_notes_text(), Seq::empty()),
            "No markdown files found"@,
        ),
    }
}

/// The state before anything was searched or opened.
pub open spec fn at_rest(root: Seq<char>) -> ShellView {
    ShellView {
        tree: None,
        index: IndexView::nothing(),
        expanded: Seq::empty(),
        root,
        active: None,
        selected: None,
        files: Seq::empty(),
        tabs: Seq::empty(),
        document: saved_buffer(Seq::empty(), Seq::empty()),
        marked: None,
        start_line: 0,
        lines: Seq::empty(),
        outline: Seq::empty(),
        links: Seq::empty(),
        backlinks: Seq::empty(),
        status: StatusView::zero(),
        message: "Ready"@,
    }
}

pub(crate) proof fn lemma_lines(text: Seq<char>, cursor: int)
    requires
        0 <= cursor <= text.len(),
    ensures
        0 <= place_of(text, cursor).0 < line_count(text),
{
    lemma_position_in_line(text, cursor);
}

/// Folders with one of them closed.
pub open spec fn folders_without(folders: Seq<Seq<char>>, path: Seq<char>, upto: int) -> Seq<Seq<char>>
    decreases upto,
{
    if upto <= 0 {
        Seq::empty()
    } else if same_path(folders[upto - 1], path) {
        folders_without(folders, path, upto - 1)
    } else {
        folders_without(folders, path, upto - 1).push(folders[upto - 1])
    }
}

/// Folders with one of them open.
pub open spec fn folders_with(folders: Seq<Seq<char>>, path: Seq<char>) -> Seq<Seq<char>> {
    if lists_path(folders, path) {
        folders
    } else {
        folders.push(path)
    }
}

/// The state with a folder opened or closed.
pub open spec fn toggled(v: ShellView, path: Seq<char>) -> ShellView {
    if lists_path(v.expanded, path) {
        saying(
            relisted(
                ShellView {
                    expanded: folders_without(v.expanded, path, v.expanded.len() as int),
                    ..v
                },
            ),
            "Collapsed "@ + shown_path(v, path),
        )
    } else {
        saying(
            relisted(ShellView { expanded: v.expanded.push(path), ..v }),
            "Expanded "@ + shown_path(v, path),
        )
    }
}

/// The state with a row of the tree chosen: a folder opens or closes, a note is opened.
pub open spec fn row_chosen(
    v: ShellView,
    row: int,
    read: Result<Seq<char>, Seq<char>>,
    pieces: Seq<Seq<char>>,
) -> ShellView {
    if 0 <= row < v.files.len() {
        let file = v.files[row].1;
        let chosen = ShellView { selected: Some(file.path), ..v };
        match file.kind {
            FileKind::Folder => toggled(chosen, file.path),
            FileKind::Markdown => opened(chosen, file.path, read, pieces),
        }
    } else {
        v
    }
}

/// The state with a tab closed. Where it was being edited, the next tab is, or the last, or
/// nothing.
pub open spec fn tab_closed(v: ShellView, i: int) -> ShellView {
    if 0 <= i < v.tabs.len() {
        let rest = ShellView { tabs: v.tabs.remove(i), ..v };
        if is_active(v, v.tabs[i].path) {
            if rest.tabs.len() == 0 {
                loaded(rest, None, saved_buffer(Seq::empty(), Seq::empty()), "No file open"@)
            } else {
                let next = if i < rest.tabs.len() {
                    rest.tabs[i]
                } else {
                    rest.tabs.last()
                };
                opened(rest, next.path, Err(Seq::empty()), Seq::empty())
            }
        } else {
            rest
        }
    } else {
        v
    }
}

/// The state with another vault.
pub open spec fn moved_vault(
    v: ShellView,
    root: Result<String, String>,
    scan: Result<VaultScan, String>,
    first_note: Result<Seq<char>, Seq<char>>,
    remembered: Result<(), String>,
    pieces: Seq<Seq<char>>,
) -> ShellView {
    match root {
        Ok(root) => {
            let bare = ShellView {
                root: root@,
                active: None,
                selected: None,
                tree: None,
                index: IndexView::nothing(),
                expanded: Seq::empty(),
                tabs: Seq::empty(),
                ..v
            };
            let shown = first_opened(refreshed(bare, scan), first_note, pieces);
            match remembered {
                Ok(_) => shown,
                Err(error) => saying(
                    shown,
                    shown.message + "; vault not remembered: "@ + error@,
                ),
            }
        },
        Err(error) => saying(v, error@),
    }
}

/// Whether a vault's tree is no deeper than a number can say.
pub open spec fn scan_fits(scan: Result<VaultScan, String>) -> bool {
    scan matches Ok(found) ==> most_height(found.tree.entries@, 0) <= usize::MAX
}

/// Well-formed but for the first line that is shown.
pub open spec fn sound(v: ShellView) -> bool {
    &&& buffer_wf(v.document)
    &&& forall|i: int| 0 <= i < v.tabs.len() ==> buffer_wf((#[trigger] v.tabs[i]).buffer)
    &&& 0 <= v.start_line
    &&& v.marked matches Some((start, end)) ==> 0 <= start <= end
    &&& v.tree matches Some(tree) ==> most_height(tree.entries@, 0) <= usize::MAX
    &&& forall|i: int| 0 <= i < v.files.len() ==> (#[trigger] v.files[i]).0 == i
}

pub(crate) proof fn lemma_described_wf(v: ShellView)
    requires
        sound(v),
    ensures
        shell_wf(viewed(v)),
        shell_wf(described(v)),
{
    lemma_lines(v.document.text, 0);
}

pub(crate) proof fn lemma_synced_wf(v: ShellView)
    requires
        sound(v),
    ensures
        sound(synced(v)),
        shell_wf(v) ==> shell_wf(synced(v)),
        synced(v).tabs.len() == v.tabs.len(),
        forall|i: int|
            0 <= i < v.tabs.len() ==> (#[trigger] synced(v).tabs[i]).path == v.tabs[i].path,
{
    lemma_tab_from(v.tabs, v.active->0, 0);
}

pub(crate) proof fn lemma_flagged_wf(v: ShellView)
    requires
        sound(v),
    ensures
        sound(flagged(v)),
        shell_wf(v) ==> shell_wf(flagged(v)),
{
    lemma_tab_from(v.tabs, v.active->0, 0);
}

pub(crate) proof fn lemma_tab_from(tabs: Seq<TabView>, path: Seq<char>, from: int)
    requires
        0 <= from,
    ensures
        tab_from(tabs, path, from) matches Some(i) ==> from <= i < tabs.len() && same_path(
            tabs[i].path,
            path,
        ) && forall|k: int| from <= k < i ==> !same_path((#[trigger] tabs[k]).path, path),
        tab_from(tabs, path, from) is None ==> forall|k: int|
            from <= k < tabs.len() ==> !same_path((#[trigger] tabs[k]).path, path),
    decreases tabs.len() - from,
{
    if from < tabs.len() && !same_path(tabs[from].path, path) {
        lemma_tab_from(tabs, path, from + 1);
    }
}

pub(crate) proof fn lemma_changed_wf(v: ShellView, action: Seq<char>)
    requires
        sound(v),
    ensures
        shell_wf(after_change(v, action)),
{
    lemma_described_wf(v);
    lemma_flagged_wf(described(v));
    lemma_flagged_wf(viewed(v));
}

pub(crate) proof fn lemma_opened_wf(
    v: ShellView,
    path: Seq<char>,
    read: Result<Seq<char>, Seq<char>>,
    pieces: Seq<Seq<char>>,
)
    requires
        shell_wf(v),
        read matches Ok(text) ==> buffer_wf(saved_buffer(text, pieces)),
    ensures
        shell_wf(opened(v, path, read, pieces)),
{
    let s = synced(v);
    lemma_synced_wf(v);
    lemma_tab_from(s.tabs, path, 0);
    match tab_from(s.tabs, path, 0) {
        Some(i) => {
            lemma_described_wf(
                ShellView {
                    selected: Some(s.tabs[i].path),
                    active: Some(s.tabs[i].path),
                    document: s.tabs[i].buffer,
                    marked: None,
                    start_line: 0,
                    ..s
                },
            );
        },
        None => {
            if let Ok(text) = read {
                let label = shown_path(s, path);
                let tab = TabView { path, label, dirty: false, buffer: saved_buffer(text, pieces) };
                lemma_described_wf(
                    ShellView {
                        selected: Some(path),
                        tabs: s.tabs.push(tab),
                        active: Some(path),
                        document: saved_buffer(text, pieces),
                        marked: None,
                        start_line: 0,
                        ..s
                    },
                );
            }
        },
    }
}

pub(crate) proof fn lemma_refreshed_wf(v: ShellView, scan: Result<VaultScan, String>)
    requires
        shell_wf(v),
        scan_fits(scan),
    ensures
        shell_wf(refreshed(v, scan)),
{
    if let Ok(found) = scan {
        let rows = relisted(
            ShellView {
                expanded: folders_after_scan(v.expanded, found.tree.entries@),
                tree: Some(found.tree),
                index: found.index@,
                ..v
            },
        );
        lemma_described_wf(rows);
    }
}

/// The state after an edit that may have left the text as it was.
pub open spec fn after_edit_to(
    v: ShellView,
    document: BufferView,
    changed: bool,
) -> ShellView {
    if changed {
        after_change(with_document(v, document), "Modified"@)
    } else {
        v
    }
}

/// The state with the shown lines moved to start at a line.
pub open spec fn shown_from(v: ShellView, line: int) -> ShellView {
    if line == v.start_line {
        v
    } else {
        viewed(ShellView { start_line: line, ..v })
    }
}

/// The line to start at after scrolling by a number of lines.
pub open spec fn scrolled_start(v: ShellView, delta: int) -> int {
    let last = line_count(v.document.text) - 1;
    if v.start_line + delta < 0 {
        0
    } else {
        min_of(v.start_line + delta, last)
    }
}

pub(crate) proof fn lemma_followed_wf(v: ShellView)
    requires
        shell_wf(v),
    ensures
        shell_wf(followed(v)),
{
    lemma_lines(v.document.text, v.document.at.cursor);
    lemma_described_wf(ShellView { start_line: followed_start(v), ..v });
}

/// The range that typed text replaces: the one that was given, in UTF-16 offsets, else the
/// marked one, else the selection, else the cursor's own place.
pub open spec fn replaced_range(
    v: ShellView,
    range: Option<Range<usize>>,
    start: int,
    end: int,
) -> bool {
    match range {
        Some(given) => utf16_falls_on(v.document.text, given.start as int, start)
            && utf16_falls_on(v.document.text, given.end as int, end),
        None => match v.marked {
            Some(marked) => marked == (start, end),
            None => match selection_of(v.document) {
                Some(selected) => selected == (start, end),
                None => start == v.document.at.cursor && end == start,
            },
        },
    }
}

/// The buffer with a range replaced, the range brought into the text.
pub open spec fn replaced(
    document: BufferView,
    start: int,
    end: int,
    text: Seq<char>,
    pieces: Seq<Seq<char>>,
) -> BufferView {
    edited(
        document,
        min_of(start, document.text.len() as int),
        min_of(end, document.text.len() as int),
        text,
        pieces,
    )
}

/// Whether replacing a range changes the text.
pub open spec fn replacing_changes(
    document: BufferView,
    start: int,
    end: int,
    text: Seq<char>,
) -> bool {
    edit_changes(
        document,
        min_of(start, document.text.len() as int),
        min_of(end, document.text.len() as int),
        text,
    )
}

pub(crate) proof fn lemma_falls_in_order(s: Seq<char>, u: int, w: int, i: int, j: int)
    requires
        u <= w,
        utf16_falls_on(s, u, i),
        utf16_falls_on(s, w, j),
    ensures
        i <= j,
{
    if j < i {
        lemma_utf16_take_grows(s, j + 1, i);
    }
}

pub(crate) proof fn lemma_falls_somewhere(s: Seq<char>, u: int, upto: int) -> (r: int)
    requires
        0 <= u,
        0 <= upto <= s.len(),
        upto < s.len() ==> u < utf16_len(s.take(upto + 1)),
    ensures
        utf16_falls_on(s, u, r),
    decreases upto,
{
    if utf16_len(s.take(upto)) <= u {
        upto
    } else {
        assert(utf16_len(s.take(0)) == 0);
        lemma_falls_somewhere(s, u, upto - 1)
    }
}

pub(crate) proof fn lemma_range_falls(s: Seq<char>, u: int, w: int) -> (r: (int, int))
    requires
        0 <= u,
        0 <= w,
    ensures
        utf16_falls_on(s, u, r.0),
        utf16_falls_on(s, w, r.1),
{
    (
        lemma_falls_somewhere(s, u, s.len() as int),
        lemma_falls_somewhere(s, w, s.len() as int),
    )
}

/// The directory that a new note goes to: the selected one, else that of the selected file,
/// else that of the note being edited, else the vault's root.
pub open spec fn new_note_directory(v: ShellView, selected_is_dir: bool) -> Seq<char> {
    let beside_active = match v.active {
        Some(path) => match parent_of(path) {
            Some(directory) => directory,
            None => v.root,
        },
        None => v.root,
    };
    match v.selected {
        Some(path) => if selected_is_dir {
            path
        } else {
            match parent_of(path) {
                Some(directory) => directory,
                None => beside_active,
            }
        },
        None => beside_active,
    }
}

/// The note that a command acts on: the selected one, or the one being edited where nothing
/// is selected.
pub open spec fn chosen_note(v: ShellView) -> Option<Seq<char>> {
    match v.selected {
        Some(path) => if is_note(path) {
            Some(path)
        } else {
            None
        },
        None => v.active,
    }
}

/// Whether a tab shows a note that changed since it was saved.
pub open spec fn has_unsaved_tab(v: ShellView, path: Seq<char>) -> bool {
    exists|i: int|
        0 <= i < v.tabs.len() && same_path((#[trigger] v.tabs[i]).path, path) && v.tabs[i].dirty
}

/// The tabs that do not show a path.
pub open spec fn tabs_without(tabs: Seq<TabView>, path: Seq<char>, upto: int) -> Seq<TabView>
    decreases upto,
{
    if upto <= 0 {
        Seq::empty()
    } else if same_path(tabs[upto - 1].path, path) {
        tabs_without(tabs, path, upto - 1)
    } else {
        tabs_without(tabs, path, upto - 1).push(tabs[upto - 1])
    }
}

/// The state with a new note opened, the cursor at its end.
pub open spec fn note_created(
    v: ShellView,
    path: Seq<char>,
    written: Result<(), String>,
    scan: Result<VaultScan, String>,
    read: Result<Seq<char>, Seq<char>>,
    pieces: Seq<Seq<char>>,
) -> ShellView {
    match written {
        Ok(_) => {
            let found = refreshed(v, scan);
            let unfolded = match parent_of(path) {
                Some(directory) => relisted(
                    ShellView { expanded: folders_with(found.expanded, directory), ..found },
                ),
                None => found,
            };
            let shown = opened(unfolded, path, read, pieces);
            followed(
                with_document(
                    shown,
                    moved_to(shown.document, shown.document.text.len() as int, false),
                ),
            )
        },
        Err(error) => saying(v, error@),
    }
}

/// What is said where a note cannot be renamed, or the note and its new path.
pub open spec fn rename_plan(v: ShellView, target: Seq<char>) -> Result<
    (Seq<char>, Seq<char>),
    Seq<char>,
> {
    match chosen_note(v) {
        None => Err("Select a note to rename"@),
        Some(source) => if !lies_in(note_path(target), v.root) {
            Err("Rename target must stay inside vault"@)
        } else if same_path(source, note_path(target)) {
            Err("Rename target is unchanged"@)
        } else {
            Ok((source, note_path(target)))
        },
    }
}

/// A path after a rename.
pub open spec fn renamed_path(path: Option<Seq<char>>, source: Seq<char>, target: Seq<char>) -> Option<
    Seq<char>,
> {
    match path {
        Some(p) => if same_path(p, source) {
            Some(target)
        } else {
            path
        },
        None => None,
    }
}

/// The tabs after a rename.
pub open spec fn renamed_tabs(
    tabs: Seq<TabView>,
    source: Seq<char>,
    target: Seq<char>,
    label: Seq<char>,
) -> Seq<TabView> {
    Seq::new(
        tabs.len(),
        |i: int|
            if same_path(tabs[i].path, source) {
                TabView { path: target, label, ..tabs[i] }
            } else {
                tabs[i]
            },
    )
}

/// The state after a rename.
pub open spec fn note_renamed(
    v: ShellView,
    source: Seq<char>,
    target: Seq<char>,
    renamed: Result<(), String>,
    scan: Result<VaultScan, String>,
) -> ShellView {
    match renamed {
        Ok(_) => {
            let moved = ShellView {
                expanded: match parent_of(target) {
                    Some(directory) => folders_with(v.expanded, directory),
                    None => v.expanded,
                },
                tabs: renamed_tabs(v.tabs, source, target, shown_path(v, target)),
                active: renamed_path(v.active, source, target),
                selected: renamed_path(v.selected, source, target),
                ..v
            };
            let found = refreshed(moved, scan);
            saying(
                ShellView { selected: Some(target), ..found },
                "Renamed "@ + shown_path(v, target),
            )
        },
        Err(error) => saying(v, error@),
    }
}

/// What is said where a note cannot be deleted, or the note.
pub open spec fn delete_plan(v: ShellView) -> Result<Seq<char>, Seq<char>> {
    match chosen_note(v) {
        None => Err("Select a note to delete"@),
        Some(path) => if has_unsaved_tab(v, path) {
            Err("Save or close dirty note before deleting"@)
        } else {
            Ok(path)
        },
    }
}

/// The state after a note was deleted: its tabs are closed, and where it was being edited
/// the last tab is, or the vault's first note.
pub open spec fn note_deleted(
    v: ShellView,
    path: Seq<char>,
    removed: Result<(), String>,
    scan: Result<VaultScan, String>,
    first_note: Result<Seq<char>, Seq<char>>,
    pieces: Seq<Seq<char>>,
) -> ShellView {
    match removed {
        Ok(_) => {
            let rest = ShellView {
                tabs: tabs_without(v.tabs, path, v.tabs.len() as int),
                selected: None,
                ..v
            };
            let shown = if is_active(v, path) {
                if rest.tabs.len() > 0 {
                    tab_shown(rest, rest.tabs.len() - 1)
                } else {
                    first_opened(
                        refreshed(ShellView { active: None, ..rest }, scan),
                        first_note,
                        pieces,
                    )
                }
            } else {
                refreshed(rest, scan)
            };
            saying(shown, "Deleted "@ + shown_path(v, path))
        },
        Err(error) => saying(v, error@),
    }
}

/// The state after the note being edited was read anew.
pub open spec fn reloaded(
    v: ShellView,
    read: Result<Seq<char>, Seq<char>>,
    pieces: Seq<Seq<char>>,
) -> ShellView {
    match (v.active, read) {
        (None, _) => saying(v, "No file open"@),
        (Some(path), Ok(text)) => {
            let label = shown_path(v, path);
            let tabs = match tab_from(v.tabs, path, 0) {
                Some(i) => v.tabs.update(
                    i,
                    TabView { buffer: saved_buffer(text, pieces), dirty: false, ..v.tabs[i] },
                ),
                None => v.tabs.push(
                    TabView { path, label, dirty: false, buffer: saved_buffer(text, pieces) },
                ),
            };
            loaded(
                ShellView { tabs, ..v },
                Some(path),
                saved_buffer(text, pieces),
                "Reloaded "@ + label,
            )
        },
        (Some(_), Err(error)) => saying(v, error),
    }
}

/// The state after the note being edited was found to be gone.
pub open spec fn missing_closed(v: ShellView, path: Seq<char>) -> ShellView {
    let rest = ShellView {
        tabs: tabs_without(v.tabs, path, v.tabs.len() as int),
        selected: None,
        ..v
    };
    let message = "Closed missing "@ + shown_path(v, path);
    if rest.tabs.len() > 0 {
        saying(tab_shown(rest, rest.tabs.len() - 1), message)
    } else {
        loaded(rest, None, saved_buffer(Seq::empty(), Seq::empty()), message)
    }
}

/// Whether a change at one of the paths concerns a note: at its own path, at a directory
/// above it or below it.
pub open spec fn concerns(paths: Seq<Seq<char>>, note: Seq<char>) -> bool {
    exists|i: int|
        0 <= i < paths.len() && (lies_in(note, #[trigger] paths[i]) || lies_in(paths[i], note))
}

/// The state after the vault changed on disk. `on_disk` is what reading the note being
/// edited gave, nothing where it is gone.
pub open spec fn vault_changed(
    v: ShellView,
    paths: Seq<Seq<char>>,
    scan: Result<VaultScan, String>,
    on_disk: Option<Result<Seq<char>, Seq<char>>>,
    pieces: Seq<Seq<char>>,
) -> ShellView {
    let found = refreshed(v, scan);
    match v.active {
        None => saying(found, "Vault updated"@),
        Some(path) => if paths.len() > 0 && !concerns(paths, path) {
            saying(found, "Vault updated"@)
        } else if has_unsaved_tab(v, path) {
            saying(found, "External change detected; save or reload manually"@)
        } else {
            match on_disk {
                Some(read) => reloaded(found, read, pieces),
                None => missing_closed(found, path),
            }
        },
    }
}

/// A buffer whose text counts as saved.
pub open spec fn as_saved(buffer: BufferView) -> BufferView {
    BufferView { saved_marker: buffer.state_marker, ..buffer }
}

/// The tabs of a note after it was saved.
pub open spec fn saved_tabs(tabs: Seq<TabView>, path: Seq<char>, document: BufferView) -> Seq<
    TabView,
> {
    Seq::new(
        tabs.len(),
        |i: int|
            if same_path(tabs[i].path, path) {
                TabView { buffer: document, dirty: false, ..tabs[i] }
            } else {
                tabs[i]
            },
    )
}

/// The state after the note being edited was written.
pub open spec fn note_saved(
    v: ShellView,
    written: Result<(), String>,
    index: IndexView,
) -> ShellView {
    match (v.active, written) {
        (None, _) => saying(v, "No file open"@),
        (Some(path), Ok(_)) => saying(
            described(
                ShellView {
                    document: as_saved(v.document),
                    tabs: saved_tabs(v.tabs, path, as_saved(v.document)),
                    index: if v.tree is Some {
                        index
                    } else {
                        IndexView::nothing()
                    },
                    ..v
                },
            ),
            "Saved "@ + shown_path(v, path),
        ),
        (Some(_), Err(error)) => saying(v, error@),
    }
}

/// Folders with those above a path open, up to the vault's root.
pub open spec fn folders_above(
    folders: Seq<Seq<char>>,
    directory: Option<Seq<char>>,
    root: Seq<char>,
) -> Seq<Seq<char>>
    decreases (match directory {
        Some(path) => path.len() + 1,
        None => 0,
    }),
{
    match directory {
        Some(path) => if !lies_in(path, root) {
            folders
        } else if same_path(path, root) {
            folders_with(folders, path)
        } else {
            proof {
                lemma_parent_is_shorter(path);
            }
            folders_above(folders_with(folders, path), parent_of(path), root)
        },
        None => folders,
    }
}

/// The state with a note of the vault opened and the folders above it open.
pub open spec fn note_opened(
    v: ShellView,
    path: Seq<char>,
    found: NoteOnDisk,
    pieces: Seq<Seq<char>>,
) -> ShellView {
    if !is_note(path) {
        saying(v, "Select a markdown note"@)
    } else if !lies_in(path, v.root) {
        saying(v, "Note must stay inside vault"@)
    } else {
        match found {
            NoteOnDisk::Missing(scan) => refreshed(
                saying(v, "Missing "@ + shown_path(v, path)),
                scan,
            ),
            NoteOnDisk::Present(read) => opened(
                relisted(
                    ShellView {
                        expanded: folders_above(v.expanded, parent_of(path), v.root),
                        ..v
                    },
                ),
                path,
                read_view(read),
                pieces,
            ),
        }
    }
}

/// What following a link asks for.
pub enum LinkPlan {
    Open(Seq<char>),
    Create(Seq<char>, Seq<char>),
    Invalid,
}

/// The target of the link at a line and column.
pub open spec fn link_under(v: ShellView, line: int, column: int) -> Option<Seq<char>> {
    if 0 <= line < line_count(v.document.text) {
        target_at(shown_line(v.document.text, line), 0, column)
    } else {
        None
    }
}

/// What following a link asks for: the note that it names, or a new one beside the note
/// being edited where there is none.
pub open spec fn link_plan(v: ShellView, link: Seq<char>) -> LinkPlan {
    match v.index.note_of(link) {
        Some(path) => LinkPlan::Open(path),
        None => match new_link_path(v.root, v.active, link) {
            Some(path) => if lies_in(path, v.root) {
                LinkPlan::Create(
                    path,
                    titled_text(
                        match link_title(link) {
                            Some(title) => title,
                            None => "Untitled"@,
                        },
                    ),
                )
            } else {
                LinkPlan::Invalid
            },
            None => LinkPlan::Invalid,
        },
    }
}

pub(crate) proof fn lemma_tabs_without(tabs: Seq<TabView>, path: Seq<char>, upto: int)
    requires
        0 <= upto <= tabs.len(),
        forall|i: int| 0 <= i < tabs.len() ==> buffer_wf((#[trigger] tabs[i]).buffer),
    ensures
        forall|i: int|
            0 <= i < tabs_without(tabs, path, upto).len() ==> buffer_wf(
                (#[trigger] tabs_without(tabs, path, upto)[i]).buffer,
            ) && !same_path(tabs_without(tabs, path, upto)[i].path, path),
    decreases upto,
{
    if upto > 0 {
        lemma_tabs_without(tabs, path, upto - 1);
    }
}

/// What reading a file gave, where there is one.
pub open spec fn disk_view(read: Option<Result<String, String>>) -> Option<
    Result<Seq<char>, Seq<char>>,
> {
    match read {
        Some(read) => Some(read_view(read)),
        None => None,
    }
}

/// Whether the shown lines are those of the note.
pub open spec fn shows_note(v: ShellView) -> bool {
    v.lines == window(v.document.text, v.start_line)
}

/// After every move the cursor's line is among the shown ones.
pub proof fn law_cursor_stays_in_view(v: ShellView)
    requires
        shell_wf(v),
        shows_note(v),
    ensures
        shows_note(followed(v)),
        followed(v).start_line <= cursor_line(v) < followed(v).start_line + followed(v).lines.len(),
        followed(v).lines[cursor_line(v) - followed(v).start_line] == shown_line(
            v.document.text,
            cursor_line(v),
        ),
        followed(v).lines.len() <= MAX_RENDERED_LINES,
{
    lemma_lines(v.document.text, v.document.at.cursor);
}

/// Reading the note anew shows its lines, whatever was shown before.
pub proof fn law_shown_lines_are_the_notes(v: ShellView, action: Seq<char>)
    requires
        sound(v),
    ensures
        shows_note(viewed(v)),
        shows_note(described(v)),
        shows_note(after_change(v, action)),
{
    lemma_lines(v.document.text, 0);
}

/// Scrolling keeps the note and the cursor, and shows lines of the note.
pub proof fn law_scrolling_keeps_the_cursor(v: ShellView, delta: int)
    requires
        shell_wf(v),
        shows_note(v),
    ensures
        shows_note(shown_from(v, scrolled_start(v, delta))),
        shown_from(v, scrolled_start(v, delta)).document == v.document,
        0 <= scrolled_start(v, delta) < line_count(v.document.text),
{
    lemma_lines(v.document.text, 0);
}

/// Going to another tab and back brings the note back as it was left, with what was not
/// saved and with its history.
pub proof fn law_switching_tabs_keeps_the_note(v: ShellView, i: int, j: int)
    requires
        shell_wf(v),
        active_tab(v) == Some(i),
        0 <= j < v.tabs.len(),
        !same_path(v.tabs[j].path, v.tabs[i].path),
    ensures
        ({
            let away = tab_shown(synced(v), j);
            let home = tab_shown(synced(away), i);
            &&& away.document == v.tabs[j].buffer
            &&& home.document == v.document
            &&& home.active matches Some(path) && same_path(path, v.active->0)
            &&& home.tabs[i].dirty == changed_since_saved(v.document)
        }),
{
    lemma_tab_from(v.tabs, v.active->0, 0);
    lemma_synced_wf(v);
    let left = synced(v);
    let away = tab_shown(left, j);
    assert(left.tabs[i].buffer == v.document);
    assert(left.tabs[j] == v.tabs[j]);
    assert(away.tabs == left.tabs);
    lemma_tab_from(away.tabs, away.active->0, 0);
}

/// A note that was saved is clean in every tab that shows it.
pub proof fn law_saved_note_is_clean(v: ShellView, index: IndexView, i: int)
    requires
        shell_wf(v),
        v.active is Some,
        0 <= i < v.tabs.len(),
        same_path(v.tabs[i].path, v.active->0),
    ensures
        ({
            let kept = note_saved(v, Ok(()), index);
            &&& !changed_since_saved(kept.document)
            &&& kept.document.text == v.document.text
            &&& !kept.tabs[i].dirty
            &&& kept.tabs[i].buffer == kept.document
            &&& !has_unsaved_tab(kept, v.active->0)
        }),
{
    let kept = note_saved(v, Ok(()), index);
    assert forall|k: int| 0 <= k < kept.tabs.len() implies !(same_path(
        (#[trigger] kept.tabs[k]).path,
        v.active->0,
    ) && kept.tabs[k].dirty) by {
        assert(kept.tabs[k] == saved_tabs(v.tabs, v.active->0, as_saved(v.document))[k]);
    }
}

/// A change on disk never takes the place of what was not saved.
pub proof fn law_unsaved_text_outlives_changes_on_disk(
    v: ShellView,
    paths: Seq<Seq<char>>,
    scan: Result<VaultScan, String>,
    on_disk: Option<Result<Seq<char>, Seq<char>>>,
    pieces: Seq<Seq<char>>,
)
    requires
        v.active matches Some(path) && has_unsaved_tab(v, path),
    ensures
        vault_changed(v, paths, scan, on_disk, pieces).document == v.document,
        vault_changed(v, paths, scan, on_disk, pieces).tabs == v.tabs,
        vault_changed(v, paths, scan, on_disk, pieces).active == v.active,
{
}

/// A note with something unsaved is never deleted.
pub proof fn law_unsaved_note_is_not_deleted(v: ShellView)
    requires
        chosen_note(v) matches Some(path) && has_unsaved_tab(v, path),
    ensures
        delete_plan(v) is Err,
{
}

/// A rename never leads out of the vault.
pub proof fn law_rename_stays_in_the_vault(v: ShellView, target: Seq<char>)
    ensures
        rename_plan(v, target) matches Ok((source, path)) ==> lies_in(path, v.root)
            && !same_path(source, path),
{
}

/// A link never makes a note outside the vault.
pub proof fn law_links_stay_in_the_vault(v: ShellView, link: Seq<char>)
    ensures
        link_plan(v, link) matches LinkPlan::Create(path, _) ==> lies_in(path, v.root),
{
}

/// After a rename nothing that is open has the old path.
pub proof fn law_old_path_is_forgotten(
    v: ShellView,
    source: Seq<char>,
    target: Seq<char>,
    scan: Result<VaultScan, String>,
    i: int,
)
    requires
        !same_path(source, target),
        0 <= i < v.tabs.len(),
    ensures
        ({
            let after = note_renamed(v, source, target, Ok(()), scan);
            &&& after.active matches Some(path) ==> !same_path(path, source)
            &&& after.selected == Some(target)
            &&& !same_path(after.tabs[i].path, source)
            &&& after.tabs[i].buffer == v.tabs[i].buffer
        }),
{
    let after = note_renamed(v, source, target, Ok(()), scan);
    assert(after.tabs == renamed_tabs(v.tabs, source, target, shown_path(v, target)));
}

proof fn lemma_without_absent(folders: Seq<Seq<char>>, path: Seq<char>, upto: int)
    requires
        0 <= upto <= folders.len(),
        !lists_path(folders, path),
    ensures
        folders_without(folders.push(path), path, upto) == folders.take(upto),
    decreases upto,
{
    if upto > 0 {
        lemma_without_absent(folders, path, upto - 1);
        assert(folders.push(path)[upto - 1] == folders[upto - 1]);
        assert(folders.take(upto) =~= folders.take(upto - 1).push(folders[upto - 1]));
    } else {
        assert(folders.take(0) =~= Seq::empty());
    }
}

/// A folder that is opened and closed again leaves the tree as it was.
pub proof fn law_folder_closes_again(v: ShellView, path: Seq<char>)
    requires
        !lists_path(v.expanded, path),
    ensures
        lists_path(toggled(v, path).expanded, path),
        toggled(toggled(v, path), path).expanded == v.expanded,
        toggled(toggled(v, path), path).files == relisted(v).files,
{
    let open = v.expanded.push(path);
    assert(same_path(open[v.expanded.len() as int], path));
    lemma_without_absent(v.expanded, path, v.expanded.len() as int);
    assert(v.expanded.take(v.expanded.len() as int) =~= v.expanded);
}

/// What was typed is taken back by one undo.
pub proof fn law_undo_reverts_typing(
    v: ShellView,
    text: Seq<char>,
    pieces: Seq<Seq<char>>,
    later_pieces: Seq<Seq<char>>,
)
    requires
        shell_wf(v),
        typing_changes(v.document, text),
    ensures
        ({
            let typed_in = after_change(
                with_document(v, typed(v.document, text, pieces)),
                "Modified"@,
            );
            let back = undone(typed_in.document, later_pieces);
            &&& back.text == v.document.text
            &&& back.at == v.document.at
            &&& changed_since_saved(back) == changed_since_saved(v.document)
        }),
{
    let (start, end) = match selection_of(v.document) {
        Some((start, end)) => (start, end),
        None => (v.document.at.cursor, v.document.at.cursor),
    };
    if selection_of(v.document) is None {
        assert(v.document.text.subrange(start, end).len() == 0);
    }
    law_undo_reverts_edit(v.document, start, end, text, pieces, later_pieces);
}

} // verus!
