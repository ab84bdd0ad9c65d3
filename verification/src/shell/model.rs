//! The editor's state: the vault's tree, the open notes and the note being edited.
//!
//! Nothing here touches the disk. What a file operation gave is handed in, and the state
//! moves on from there.

use std::ops::Range;

use vstd::prelude::*;

use crate::paths::{
    contains_path, file_name, is_markdown_path, is_same_path, is_within,
    normalize_markdown_target, parent, relative_to,
};
use crate::shell::editor_buffer::{EditorCursor, TextBuffer};
use crate::shell::file_tree::{
    first_markdown_path, seed_expanded_dirs, visible_markdown_tree, FileEntry, FileKind,
};
use crate::shell::note_names::titled;
use crate::shell::outline::{extract_outline, OutlineItem};
use crate::shell::vault_index::{
    extract_wikilinks, new_wikilink_path, wikilink_at_column, wikilink_title, Backlink, VaultIndex,
};
use crate::text::{chars_of, concat2, concat3, copy_opt, copy_str, decimal_usize};
use crate::workspace::WorkspaceTree;

verus! {

broadcast use vstd::string::group_string_axioms;

use crate::paths::{file_name_of, lemma_parent_is_shorter, lies_in, lists_path, parent_of, same_path};
use crate::shell::editor_buffer::{
    buffer_wf, deleted_backward, deleted_forward, extended_left, extended_right, min_of, moved_left,
    moved_right, moved_to, moved_vertically, offset_of, place_of, redone, runs_forwards,
    saved_buffer, selected_columns, selection_of, typed, typing_changes, undone, utf16_falls_on, utf16_of,
    with_selection, without_selection, word_at, word_selected,
};
use crate::shell::file_tree::{folders_after_scan, most_height, rows_of, FileRow};
use crate::shell::outline::headings;
use crate::shell::rope::{line_count, utf16_len};
use crate::shell::vault_index::{backlink_views, note_views, IndexView, NoteView};
use crate::text::{opt_chars, texts};
use crate::shell::shell_view::{
    after_change, after_edit_to, at_rest, changed_since_saved, chosen_note, concerns, cursor_line,
    delete_plan, described, disk_view, first_opened, flagged, folders_above, folders_with,
    folders_without, followed, followed_start, has_unsaved_tab, in_order, lemma_changed_wf,
    lemma_described_wf, lemma_falls_in_order, lemma_followed_wf, lemma_lines, lemma_opened_wf,
    lemma_range_falls, lemma_refreshed_wf, lemma_synced_wf, lemma_tab_from, lemma_tabs_without,
    lines_of, link_plan, link_under, loaded, missing_closed, moved_vault, new_note_directory,
    note_created, note_deleted, note_opened, note_renamed, note_saved, opened, read_view, refreshed,
    relisted, reloaded, rename_plan, renamed_path, renamed_tabs, replaced, replaced_range,
    replacing_changes, row_chosen, saved_tabs, saying, scan_fits, scrolled_start, shell_wf,
    shown_active, shown_from, shown_path, synced, tab_closed, tab_from, tab_shown, tabs_without,
    toggled, vault_changed, viewed, window, with_document, LinkPlan, ShellView, StatusView, TabView,
};

/// How many lines of a note are shown at once.
pub const MAX_RENDERED_LINES: usize = 72;

/// How many lines stay in view before and after the cursor.
pub const CURSOR_SCROLL_MARGIN: usize = 8;

/// The longest note whose outline, links and words follow every edit.
pub const LIVE_METADATA_CHAR_LIMIT: usize = 200_000;

/// How deep a vault is searched for notes.
pub const MAX_SCAN_DEPTH: usize = 6;

/// A note that a search found.
#[derive(Clone, Debug, Eq, PartialEq)]
pub struct NoteSearchResult {
    pub path: String,
    pub label: String,
    pub parent_label: String,
}

/// An open note.
pub struct EditorTab {
    pub path: String,
    pub label: String,
    pub dirty: bool,
    buffer: TextBuffer,
}

/// Numbers about the note being edited.
#[derive(Clone, Copy, Debug, Eq, PartialEq)]
pub struct DocumentStatus {
    pub words: usize,
    pub lines: usize,
    pub links: usize,
    pub backlinks: usize,
    pub rendered_lines: usize,
}

impl Default for DocumentStatus {
    fn default() -> (r: Self)
        ensures
            r@ == StatusView::zero(),
    {
        DocumentStatus { words: 0, lines: 0, links: 0, backlinks: 0, rendered_lines: 0 }
    }
}

/// What a search of the vault found.
pub struct VaultScan {
    pub tree: WorkspaceTree,
    pub index: VaultIndex,
}

/// The editor's state.
pub struct ShellState {
    tree: Option<WorkspaceTree>,
    vault_index: VaultIndex,
    expanded_dirs: Vec<String>,
    pub root: String,
    pub active_path: Option<String>,
    pub selected_path: Option<String>,
    pub files: Vec<FileEntry>,
    pub tabs: Vec<EditorTab>,
    document: TextBuffer,
    marked_text_range: Option<Range<usize>>,
    pub document_start_line: usize,
    pub document_lines: Vec<String>,
    pub outline: Vec<OutlineItem>,
    pub links: Vec<String>,
    pub backlinks: Vec<Backlink>,
    pub status: DocumentStatus,
    pub status_message: String,
}

impl View for EditorTab {
    type V = TabView;

    closed spec fn view(&self) -> TabView {
        TabView {
            path: self.path@,
            label: self.label@,
            dirty: self.dirty,
            buffer: self.buffer@,
        }
    }
}

impl View for DocumentStatus {
    type V = StatusView;

    open spec fn view(&self) -> StatusView {
        StatusView {
            words: self.words as int,
            lines: self.lines as int,
            links: self.links as int,
            backlinks: self.backlinks as int,
            rendered_lines: self.rendered_lines as int,
        }
    }
}

/// The tabs of a list.
pub open spec fn tab_views(tabs: Seq<EditorTab>) -> Seq<TabView> {
    Seq::new(tabs.len(), |i: int| tabs[i]@)
}

/// The rows of a list with their numbers.
pub open spec fn listed(files: Seq<FileEntry>) -> Seq<(int, FileRow)> {
    Seq::new(files.len(), |i: int| (files[i].id as int, files[i]@))
}

spec fn range_view(range: Option<Range<usize>>) -> Option<(int, int)> {
    match range {
        Some(r) => Some((r.start as int, r.end as int)),
        None => None,
    }
}

impl View for ShellState {
    type V = ShellView;

    closed spec fn view(&self) -> ShellView {
        ShellView {
            tree: self.tree,
            index: self.vault_index@,
            expanded: texts(self.expanded_dirs@),
            root: self.root@,
            active: opt_chars(self.active_path),
            selected: opt_chars(self.selected_path),
            files: listed(self.files@),
            tabs: tab_views(self.tabs@),
            document: self.document@,
            marked: range_view(self.marked_text_range),
            start_line: self.document_start_line as int,
            lines: texts(self.document_lines@),
            outline: headings(self.outline@),
            links: texts(self.links@),
            backlinks: backlink_views(self.backlinks@),
            status: self.status@,
            message: self.status_message@,
        }
    }
}

fn tab_index(tabs: &Vec<EditorTab>, path: &str) -> (r: Option<usize>)
    ensures
        match tab_from(tab_views(tabs@), path@, 0) {
            Some(at) => r matches Some(i) && i == at,
            None => r is None,
        },
        r matches Some(i) ==> i < tabs@.len() && same_path(tabs@[i as int]@.path, path@),
{
    let mut i: usize = 0;
    while i < tabs.len()
        invariant
            i <= tabs.len(),
            tab_from(tab_views(tabs@), path@, i as int) == tab_from(tab_views(tabs@), path@, 0),
        decreases tabs.len() - i,
    {
        if is_same_path(tabs[i].path.as_str(), path) {
            return Some(i);
        }
        i += 1;
    }
    None
}

impl EditorTab {
    /// A tab over a note as it was read.
    #[must_use]
    pub fn clean(path: String, label: String, text: String) -> (r: Self)
        ensures
            r@ == (TabView {
                path: path@,
                label: label@,
                dirty: false,
                buffer: saved_buffer(text@, r@.buffer.pieces),
            }),
            buffer_wf(r@.buffer),
    {
        EditorTab { path, label, dirty: false, buffer: TextBuffer::new_saved(text.as_str()) }
    }
}

impl ShellState {
    /// A well-formed state.
    pub open spec fn wf(self) -> bool {
        shell_wf(self@)
    }

    fn clamp_document_start_line(&mut self)
        ensures
            final(self)@ == (ShellView {
                start_line: min_of(
                    old(self)@.start_line,
                    line_count(old(self)@.document.text) - 1,
                ),
                ..old(self)@
            }),
    {
        proof {
            lemma_lines(self@.document.text, 0);
        }
        let last: usize = self.document.line_count() - 1;
        if self.document_start_line > last {
            self.document_start_line = last;
        }
        assert(self@ =~= ShellView { start_line: self.document_start_line as int, ..old(self)@ });
    }

    fn refresh_document_view(&mut self)
        ensures
            final(self)@ == viewed(old(self)@),
    {
        self.clamp_document_start_line();
        self.document_lines = self.document.rendered_lines_from(
            self.document_start_line,
            MAX_RENDERED_LINES,
        );
        let ghost start = self.document_start_line as int;
        proof {
            lemma_lines(self@.document.text, 0);
        }
        assert(texts(self.document_lines@) =~= window(self@.document.text, start));
        self.status = DocumentStatus {
            words: self.status.words,
            lines: self.document.line_count(),
            links: self.status.links,
            backlinks: self.status.backlinks,
            rendered_lines: if self.document_lines.len() < MAX_RENDERED_LINES {
                self.document_lines.len()
            } else {
                MAX_RENDERED_LINES
            },
        };
        assert(self@ =~= viewed(old(self)@));
    }

    fn refresh_document_metadata(&mut self)
        ensures
            final(self)@ == described(old(self)@),
    {
        self.refresh_document_view();
        if self.document.len_chars() > LIVE_METADATA_CHAR_LIMIT {
            self.outline = Vec::new();
            self.links = Vec::new();
            self.backlinks = Vec::new();
            self.status.words = 0;
            self.status.links = 0;
            self.status.backlinks = 0;
            assert(headings(self.outline@) =~= Seq::empty());
            assert(texts(self.links@) =~= Seq::empty());
            assert(backlink_views(self.backlinks@) =~= Seq::empty());
            assert(self@ =~= described(old(self)@));
            return;
        }
        let all_lines: Vec<String> = self.document.all_lines();
        let text = self.document.text();
        assert(texts(all_lines@) =~= lines_of(text@));
        self.outline = extract_outline(all_lines.as_slice());
        self.links = extract_wikilinks(text.as_str());
        self.backlinks = match &self.active_path {
            Some(path) => self.vault_index.backlinks_for(path.as_str()),
            None => Vec::new(),
        };
        assert(self.active_path is None ==> backlink_views(self.backlinks@) =~= Seq::empty());
        self.status.words = self.document.word_count();
        self.status.links = self.links.len();
        self.status.backlinks = self.backlinks.len();
        assert(self@ =~= described(old(self)@));
    }

    fn ensure_cursor_visible(&mut self)
        requires
            buffer_wf(old(self)@.document),
            0 <= old(self)@.start_line < line_count(old(self)@.document.text),
        ensures
            final(self)@ == followed(old(self)@),
    {
        proof {
            lemma_lines(self@.document.text, self@.document.at.cursor);
        }
        let cursor_line: u128 = self.document.cursor_position().line as u128;
        let line_count: u128 = self.document.line_count() as u128;
        let start: u128 = self.document_start_line as u128;
        let window: u128 = MAX_RENDERED_LINES as u128;
        let margin: u128 = CURSOR_SCROLL_MARGIN as u128;
        let visible_budget: u128 = if window < line_count {
            window
        } else {
            line_count
        };
        let visible_end: u128 = start + visible_budget;
        let near_top = cursor_line < start + margin;
        let near_bottom = cursor_line + margin >= visible_end;
        let new_start: u128 = if near_top && start > 0 {
            if cursor_line < margin {
                0
            } else {
                cursor_line - margin
            }
        } else if near_bottom && visible_end < line_count {
            let wanted: u128 = if cursor_line + margin + 1 < visible_budget {
                0
            } else {
                cursor_line + margin + 1 - visible_budget
            };
            if wanted < line_count - visible_budget {
                wanted
            } else {
                line_count - visible_budget
            }
        } else {
            return;
        };
        let new_start: usize = new_start as usize;
        assert(new_start == followed_start(self@));
        if new_start != self.document_start_line {
            self.document_start_line = new_start;
            assert(self@ =~= ShellView { start_line: new_start as int, ..old(self)@ });
            self.refresh_document_view();
        }
    }

    fn after_cursor_move(&mut self)
        requires
            buffer_wf(old(self)@.document),
            0 <= old(self)@.start_line < line_count(old(self)@.document.text),
        ensures
            final(self)@ == followed(old(self)@),
    {
        self.ensure_cursor_visible();
    }

    fn update_active_tab_dirty(&mut self)
        ensures
            final(self)@ == flagged(old(self)@),
    {
        let found: Option<usize> = match &self.active_path {
            Some(path) => tab_index(&self.tabs, path.as_str()),
            None => None,
        };
        if let Some(i) = found {
            let dirty = self.document.is_dirty();
            let ghost before = self.tabs@;
            self.tabs[i].dirty = dirty;
            assert(tab_views(self.tabs@) =~= tab_views(before).update(
                i as int,
                TabView { dirty, ..tab_views(before)[i as int] },
            ));
        }
        assert(self@ =~= flagged(old(self)@));
    }

    fn sync_active_tab_buffer(&mut self)
        ensures
            final(self)@ == synced(old(self)@),
    {
        let found: Option<usize> = match &self.active_path {
            Some(path) => tab_index(&self.tabs, path.as_str()),
            None => None,
        };
        if let Some(i) = found {
            let dirty = self.document.is_dirty();
            let buffer = self.document.clone();
            let ghost before = self.tabs@;
            self.tabs[i].buffer = buffer;
            self.tabs[i].dirty = dirty;
            assert(tab_views(self.tabs@) =~= tab_views(before).update(
                i as int,
                TabView { dirty, buffer: self.document@, ..tab_views(before)[i as int] },
            ));
        }
        assert(self@ =~= synced(old(self)@));
    }

    fn display_path(&self, path: &str) -> (r: String)
        ensures
            r@ == shown_path(self@, path@),
    {
        relative_to(path, self.root.as_str())
    }

    /// The note being edited, as it is shown.
    #[must_use]
    pub fn active_label(&self) -> (r: String)
        ensures
            r@ == shown_active(self@),
    {
        match &self.active_path {
            Some(path) => self.display_path(path.as_str()),
            None => copy_str("scratch"),
        }
    }

    fn refresh_after(&mut self, action: &str)
        ensures
            final(self)@ == after_change(old(self)@, action@),
    {
        if self.document.len_chars() <= LIVE_METADATA_CHAR_LIMIT {
            self.refresh_document_metadata();
        } else {
            self.refresh_document_view();
        }
        self.update_active_tab_dirty();
        let label = self.active_label();
        self.status_message = concat3(action, " ", label.as_str());
        assert(self@ =~= after_change(old(self)@, action@));
    }

    fn after_edit(&mut self)
        ensures
            final(self)@ == after_change(old(self)@, "Modified"@),
    {
        self.refresh_after("Modified");
    }

    fn load_document_buffer(&mut self, path: Option<String>, buffer: TextBuffer, message: String)
        ensures
            final(self)@ == loaded(old(self)@, opt_chars(path), buffer@, message@),
    {
        self.active_path = path;
        self.document = buffer;
        self.marked_text_range = None;
        self.document_start_line = 0;
        assert(self@ =~= ShellView {
            active: opt_chars(path),
            document: buffer@,
            marked: None,
            start_line: 0,
            ..old(self)@
        });
        self.refresh_document_metadata();
        self.status_message = message;
        assert(self@ =~= loaded(old(self)@, opt_chars(path), buffer@, message@));
    }

    /// Starts to edit a text that counts as saved.
    pub fn load_document(&mut self, path: Option<String>, text: String, status_message: String)
        requires
            old(self).wf(),
        ensures
            final(self)@ == loaded(
                old(self)@,
                opt_chars(path),
                saved_buffer(text@, final(self)@.document.pieces),
                status_message@,
            ),
            final(self).wf(),
    {
        let buffer = TextBuffer::new_saved(text.as_str());
        self.load_document_buffer(path, buffer, status_message);
        proof {
            lemma_lines(self@.document.text, 0);
        }
    }
}

fn open_folder(folders: &mut Vec<String>, path: &str)
    ensures
        texts(final(folders)@) == folders_with(texts(old(folders)@), path@),
{
    if !contains_path(folders, path) {
        let ghost before = folders@;
        folders.push(copy_str(path));
        assert(texts(folders@) =~= texts(before).push(path@));
    }
}

fn close_folder(folders: &Vec<String>, path: &str) -> (r: Vec<String>)
    ensures
        texts(r@) == folders_without(texts(folders@), path@, folders@.len() as int),
{
    let mut kept: Vec<String> = Vec::new();
    let mut i: usize = 0;
    assert(texts(kept@) =~= Seq::empty());
    while i < folders.len()
        invariant
            i <= folders.len(),
            texts(kept@) == folders_without(texts(folders@), path@, i as int),
        decreases folders.len() - i,
    {
        if !is_same_path(folders[i].as_str(), path) {
            let ghost before = kept@;
            kept.push(folders[i].clone());
            assert(texts(kept@) =~= texts(before).push(folders@[i as int]@));
        }
        i += 1;
    }
    kept
}

impl ShellState {
    /// The state before anything was searched or opened.
    #[must_use]
    pub fn new(root: String) -> (r: Self)
        ensures
            r@ == at_rest(root@),
            r.wf(),
    {
        proof {
            reveal_strlit("");
        }
        let state = ShellState {
            tree: None,
            vault_index: VaultIndex::empty(),
            expanded_dirs: Vec::new(),
            root,
            active_path: None,
            selected_path: None,
            files: Vec::new(),
            tabs: Vec::new(),
            document: TextBuffer::new_saved(""),
            marked_text_range: None,
            document_start_line: 0,
            document_lines: Vec::new(),
            outline: Vec::new(),
            links: Vec::new(),
            backlinks: Vec::new(),
            status: DocumentStatus::default(),
            status_message: copy_str("Ready"),
        };
        proof {
            assert(""@ =~= Seq::<char>::empty());
            assert(texts(state.expanded_dirs@) =~= Seq::empty());
            assert(texts(state.document_lines@) =~= Seq::empty());
            assert(texts(state.links@) =~= Seq::empty());
            assert(listed(state.files@) =~= Seq::empty());
            assert(tab_views(state.tabs@) =~= Seq::empty());
            assert(headings(state.outline@) =~= Seq::empty());
            assert(backlink_views(state.backlinks@) =~= Seq::empty());
            assert(state@ =~= at_rest(root@));
            lemma_lines(state@.document.text, 0);
        }
        state
    }

    fn rebuild_visible_files(&mut self)
        requires
            old(self)@.tree matches Some(tree) ==> most_height(tree.entries@, 0) <= usize::MAX,
        ensures
            final(self)@ == relisted(old(self)@),
    {
        self.files = match &self.tree {
            Some(tree) => visible_markdown_tree(tree, &self.expanded_dirs),
            None => Vec::new(),
        };
        assert(self.tree is None ==> listed(self.files@) =~= Seq::empty());
        assert(self.tree is Some ==> listed(self.files@) =~= in_order(rows_of(self.files@)));
        assert(self@ =~= relisted(old(self)@));
    }
}

impl ShellState {
    /// The vault's name.
    #[must_use]
    pub fn root_label(&self) -> (r: String)
        ensures
            r@ == match file_name_of(self@.root) {
                Some(name) => name,
                None => self@.root,
            },
    {
        match file_name(self.root.as_str()) {
            Some(name) => name,
            None => self.root.clone(),
        }
    }

    /// Whether a note must be read to be opened: it must where no tab shows it.
    #[must_use]
    pub fn needs_reading(&self, path: &str) -> (r: bool)
        ensures
            r == (tab_from(self@.tabs, path@, 0) is None),
    {
        tab_index(&self.tabs, path).is_none()
    }

    /// Takes in what a search of the vault found.
    pub fn refresh_files(&mut self, scan: Result<VaultScan, String>)
        requires
            old(self).wf(),
            scan_fits(scan),
        ensures
            final(self).wf(),
            final(self)@ == refreshed(old(self)@, scan),
    {
        match scan {
            Ok(found) => {
                seed_expanded_dirs(&found.tree, &mut self.expanded_dirs);
                self.tree = Some(found.tree);
                self.vault_index = found.index;
                assert(self@ =~= ShellView {
                    expanded: folders_after_scan(old(self)@.expanded, found.tree.entries@),
                    tree: Some(found.tree),
                    index: found.index@,
                    ..old(self)@
                });
                self.rebuild_visible_files();
                self.refresh_document_metadata();
                let count = decimal_usize(self.files.len());
                self.status_message = concat2(count.as_str(), " visible entries");
                assert(self@ =~= refreshed(old(self)@, scan));
            },
            Err(error) => {
                self.files = Vec::new();
                self.tree = None;
                self.vault_index = VaultIndex::empty();
                self.status_message = error;
                assert(listed(self.files@) =~= Seq::empty());
                assert(self@ =~= refreshed(old(self)@, scan));
            },
        }
        proof {
            lemma_refreshed_wf(old(self)@, scan);
        }
    }

    fn open_tab_buffer(&mut self, tab_index: usize)
        requires
            tab_index < old(self)@.tabs.len(),
        ensures
            final(self)@ == tab_shown(old(self)@, tab_index as int),
    {
        let path = self.tabs[tab_index].path.clone();
        let buffer = self.tabs[tab_index].buffer.clone();
        let message = concat2("Opened ", self.tabs[tab_index].label.as_str());
        assert(self@.tabs[tab_index as int] == self.tabs@[tab_index as int]@);
        self.selected_path = Some(path.clone());
        assert(self@ =~= ShellView { selected: Some(path@), ..old(self)@ });
        self.load_document_buffer(Some(path), buffer, message);
    }

    fn open_path(&mut self, path: String, read: Result<String, String>)
        requires
            old(self).wf(),
        ensures
            final(self).wf(),
            final(self)@ == opened(old(self)@, path@, read_view(read), final(self)@.document.pieces),
    {
        self.sync_active_tab_buffer();
        let ghost s = self@;
        proof {
            lemma_synced_wf(old(self)@);
            lemma_tab_from(s.tabs, path@, 0);
            lemma_tab_from(old(self)@.tabs, path@, 0);
        }
        match tab_index(&self.tabs, path.as_str()) {
            Some(i) => {
                self.open_tab_buffer(i);
                proof {
                    lemma_opened_wf(old(self)@, path@, Err(Seq::empty()), Seq::empty());
                }
            },
            None => match read {
                Ok(text) => {
                    let label = self.display_path(path.as_str());
                    self.selected_path = Some(path.clone());
                    let ghost before = self.tabs@;
                    let tab = EditorTab::clean(path.clone(), label.clone(), text);
                    let buffer = tab.buffer.clone();
                    let ghost added = tab@;
                    self.tabs.push(tab);
                    assert(tab_views(self.tabs@) =~= tab_views(before).push(added));
                    assert(self@ =~= ShellView {
                        selected: Some(path@),
                        tabs: s.tabs.push(added),
                        ..s
                    });
                    let message = concat2("Opened ", label.as_str());
                    self.load_document_buffer(Some(path), buffer, message);
                    proof {
                        lemma_opened_wf(old(self)@, path@, read_view(read), self@.document.pieces);
                    }
                },
                Err(error) => {
                    self.status_message = error;
                    assert(self@ =~= saying(s, error@));
                    proof {
                        if let Some(i) = tab_from(old(self)@.tabs, path@, 0) {
                            assert(s.tabs[i].path == path@);
                        }
                    }
                },
            },
        }
    }

    fn open_first_markdown(&mut self, first_note: Result<String, String>)
        requires
            old(self).wf(),
        ensures
            final(self).wf(),
            final(self)@ == first_opened(
                old(self)@,
                read_view(first_note),
                final(self)@.document.pieces,
            ),
    {
        let first: Option<String> = match &self.tree {
            Some(tree) => first_markdown_path(tree),
            None => None,
        };
        proof {
            reveal_strlit("# Ocean GUI\n\nNo markdown files found in this workspace.");
        }
        match first {
            Some(path) => self.open_path(path, first_note),
            None => self.load_document(
                None,
                copy_str("# Ocean GUI\n\nNo markdown files found in this workspace."),
                copy_str("No markdown files found"),
            ),
        }
    }

    /// The state at the start: the vault as it was found, its first note open.
    #[must_use]
    pub fn seed_with_root(
        root: String,
        scan: Result<VaultScan, String>,
        first_note: Result<String, String>,
    ) -> (r: Self)
        requires
            scan_fits(scan),
        ensures
            r.wf(),
            r@ == first_opened(
                refreshed(at_rest(root@), scan),
                read_view(first_note),
                r@.document.pieces,
            ),
    {
        let mut state = ShellState::new(root);
        state.refresh_files(scan);
        state.open_first_markdown(first_note);
        state
    }
}

impl ShellState {
    fn toggle_folder(&mut self, path: String)
        requires
            old(self).wf(),
        ensures
            final(self).wf(),
            final(self)@ == toggled(old(self)@, path@),
    {
        let label = self.display_path(path.as_str());
        if contains_path(&self.expanded_dirs, path.as_str()) {
            self.expanded_dirs = close_folder(&self.expanded_dirs, path.as_str());
            self.rebuild_visible_files();
            self.status_message = concat2("Collapsed ", label.as_str());
        } else {
            open_folder(&mut self.expanded_dirs, path.as_str());
            self.rebuild_visible_files();
            self.status_message = concat2("Expanded ", label.as_str());
        }
        assert(self@ =~= toggled(old(self)@, path@));
    }

    /// Chooses a row of the tree. `read` is what reading its note gave.
    pub fn set_active_file(&mut self, file_id: usize, read: Result<String, String>)
        requires
            old(self).wf(),
        ensures
            final(self).wf(),
            final(self)@ == row_chosen(
                old(self)@,
                file_id as int,
                read_view(read),
                final(self)@.document.pieces,
            ),
    {
        if file_id >= self.files.len() {
            return;
        }
        let path = self.files[file_id].path.clone();
        let kind = self.files[file_id].kind;
        assert(self@.files[file_id as int].1 == self.files@[file_id as int]@);
        self.selected_path = Some(path.clone());
        assert(self@ =~= ShellView { selected: Some(path@), ..old(self)@ });
        match kind {
            FileKind::Folder => self.toggle_folder(path),
            FileKind::Markdown => self.open_path(path, read),
        }
    }

    /// Edits the note of a tab.
    pub fn set_active_tab(&mut self, tab_index: usize)
        requires
            old(self).wf(),
        ensures
            final(self).wf(),
            final(self)@ == if tab_index < old(self)@.tabs.len() {
                tab_shown(synced(old(self)@), tab_index as int)
            } else {
                old(self)@
            },
    {
        if tab_index >= self.tabs.len() {
            return;
        }
        self.sync_active_tab_buffer();
        proof {
            lemma_synced_wf(old(self)@);
        }
        let ghost s = self@;
        self.open_tab_buffer(tab_index);
        proof {
            let tab = s.tabs[tab_index as int];
            lemma_described_wf(
                ShellView {
                    selected: Some(tab.path),
                    active: Some(tab.path),
                    document: tab.buffer,
                    marked: None,
                    start_line: 0,
                    ..s
                }
            );
        }
    }

    /// Closes a tab.
    pub fn close_tab(&mut self, tab_index: usize)
        requires
            old(self).wf(),
        ensures
            final(self).wf(),
            final(self)@ == tab_closed(old(self)@, tab_index as int),
    {
        if tab_index >= self.tabs.len() {
            return;
        }
        let ghost v = self@;
        let ghost before = self.tabs@;
        let closed = self.tabs.remove(tab_index);
        assert(tab_views(self.tabs@) =~= v.tabs.remove(tab_index as int));
        assert(closed@ == v.tabs[tab_index as int]);
        let ghost rest = ShellView { tabs: v.tabs.remove(tab_index as int), ..v };
        assert(self@ =~= rest);
        let was_active = match &self.active_path {
            Some(path) => is_same_path(path.as_str(), closed.path.as_str()),
            None => false,
        };
        if was_active {
            let count: usize = self.tabs.len();
            if count == 0 {
                proof {
                    reveal_strlit("");
                    assert(""@ =~= Seq::<char>::empty());
                }
                self.load_document(None, copy_str(""), copy_str("No file open"));
            } else {
                let next: usize = if tab_index < count {
                    tab_index
                } else {
                    count - 1
                };
                let path = self.tabs[next].path.clone();
                assert(rest.tabs[next as int] == self.tabs@[next as int]@);
                proof {
                    lemma_tab_from(rest.tabs, path@, 0);
                    lemma_synced_wf(rest);
                    lemma_tab_from(synced(rest).tabs, path@, 0);
                    assert(synced(rest).tabs[next as int].path == path@);
                }
                self.open_path(path, Err(String::new()));
            }
        }
    }

    /// Moves to another vault. `root` is where it lies or why it cannot be opened; the others
    /// are what searching it, reading its first note and remembering it gave.
    pub fn set_workspace_root(
        &mut self,
        root: Result<String, String>,
        scan: Result<VaultScan, String>,
        first_note: Result<String, String>,
        remembered: Result<(), String>,
    )
        requires
            old(self).wf(),
            scan_fits(scan),
        ensures
            final(self).wf(),
            final(self)@ == moved_vault(
                old(self)@,
                root,
                scan,
                read_view(first_note),
                remembered,
                final(self)@.document.pieces,
            ),
    {
        match root {
            Ok(path) => {
                self.root = path;
                self.active_path = None;
                self.selected_path = None;
                self.tree = None;
                self.vault_index = VaultIndex::empty();
                self.expanded_dirs = Vec::new();
                self.tabs = Vec::new();
                let ghost bare = ShellView {
                    root: path@,
                    active: None,
                    selected: None,
                    tree: None,
                    index: IndexView::nothing(),
                    expanded: Seq::empty(),
                    tabs: Seq::empty(),
                    ..old(self)@
                };
                proof {
                    assert(texts(self.expanded_dirs@) =~= Seq::empty());
                    assert(tab_views(self.tabs@) =~= Seq::empty());
                    assert(self@ =~= bare);
                }
                self.refresh_files(scan);
                self.open_first_markdown(first_note);
                if let Err(error) = remembered {
                    let ghost shown = self@;
                    self.status_message = concat3(
                        self.status_message.as_str(),
                        "; vault not remembered: ",
                        error.as_str(),
                    );
                    assert(self@ =~= saying(
                        shown,
                        shown.message + "; vault not remembered: "@ + error@,
                    ));
                }
            },
            Err(error) => {
                self.status_message = error;
                assert(self@ =~= saying(old(self)@, error@));
            },
        }
    }
}

impl ShellState {
    /// Types text over the selection or at the cursor, where a note is open.
    pub fn insert_text(&mut self, text: &str)
        requires
            old(self).wf(),
            old(self)@.document.next_marker < u64::MAX,
        ensures
            final(self).wf(),
            final(self)@ == after_edit_to(
                old(self)@,
                typed(old(self)@.document, text@, final(self)@.document.pieces),
                old(self)@.active is Some && typing_changes(old(self)@.document, text@),
            ),
    {
        if text.is_empty() || self.active_path.is_none() {
            return;
        }
        let changed = self.document.insert_text(text);
        assert(self@ =~= with_document(
            old(self)@,
            typed(old(self)@.document, text@, self@.document.pieces),
        ));
        if changed {
            let ghost v = self@;
            self.after_edit();
            proof {
                lemma_changed_wf(v, "Modified"@);
            }
        }
    }

    /// Types a line break.
    pub fn insert_newline(&mut self)
        requires
            old(self).wf(),
            old(self)@.document.next_marker < u64::MAX,
        ensures
            final(self).wf(),
            final(self)@ == after_edit_to(
                old(self)@,
                typed(old(self)@.document, "\n"@, final(self)@.document.pieces),
                old(self)@.active is Some && typing_changes(old(self)@.document, "\n"@),
            ),
    {
        self.insert_text("\n");
    }

    /// Types four spaces.
    pub fn insert_tab(&mut self)
        requires
            old(self).wf(),
            old(self)@.document.next_marker < u64::MAX,
        ensures
            final(self).wf(),
            final(self)@ == after_edit_to(
                old(self)@,
                typed(old(self)@.document, "    "@, final(self)@.document.pieces),
                old(self)@.active is Some && typing_changes(old(self)@.document, "    "@),
            ),
    {
        self.insert_text("    ");
    }

    /// Deletes the selection, or the character before the cursor, where a note is open.
    pub fn delete_backward(&mut self)
        requires
            old(self).wf(),
            old(self)@.document.next_marker < u64::MAX,
        ensures
            final(self).wf(),
            final(self)@ == after_edit_to(
                old(self)@,
                deleted_backward(old(self)@.document, final(self)@.document.pieces),
                old(self)@.active is Some && (selection_of(old(self)@.document) is Some
                    || old(self)@.document.at.cursor > 0)
            ),
    {
        if self.active_path.is_none() {
            return;
        }
        let changed = self.document.delete_backward();
        assert(self@ =~= with_document(
            old(self)@,
            deleted_backward(old(self)@.document, self@.document.pieces),
        ));
        if changed {
            let ghost v = self@;
            self.after_edit();
            proof {
                lemma_changed_wf(v, "Modified"@);
            }
        }
    }

    /// Deletes the selection, or the character after the cursor, where a note is open.
    pub fn delete_forward(&mut self)
        requires
            old(self).wf(),
            old(self)@.document.next_marker < u64::MAX,
        ensures
            final(self).wf(),
            final(self)@ == after_edit_to(
                old(self)@,
                deleted_forward(old(self)@.document, final(self)@.document.pieces),
                old(self)@.active is Some && (selection_of(old(self)@.document) is Some
                    || old(self)@.document.at.cursor < old(self)@.document.text.len())
            ),
    {
        if self.active_path.is_none() {
            return;
        }
        let changed = self.document.delete_forward();
        assert(self@ =~= with_document(
            old(self)@,
            deleted_forward(old(self)@.document, self@.document.pieces),
        ));
        if changed {
            let ghost v = self@;
            self.after_edit();
            proof {
                lemma_changed_wf(v, "Modified"@);
            }
        }
    }

    /// Takes the last edit back.
    pub fn undo(&mut self)
        requires
            old(self).wf(),
        ensures
            final(self).wf(),
            final(self)@ == if old(self)@.active is None {
                saying(old(self)@, "No file open"@)
            } else if old(self)@.document.undo.len() == 0 {
                saying(old(self)@, "Nothing to undo"@)
            } else {
                after_change(
                    with_document(
                        old(self)@,
                        undone(old(self)@.document, final(self)@.document.pieces),
                    ),
                    "Undid edit"@,
                )
            },
    {
        if self.active_path.is_none() {
            self.status_message = copy_str("No file open");
            assert(self@ =~= saying(old(self)@, "No file open"@));
            return;
        }
        let changed = self.document.undo();
        assert(self@ =~= with_document(
            old(self)@,
            undone(old(self)@.document, self@.document.pieces),
        ));
        if !changed {
            self.status_message = copy_str("Nothing to undo");
            assert(self@ =~= saying(old(self)@, "Nothing to undo"@));
            return;
        }
        let ghost v = self@;
        self.refresh_after("Undid edit");
        proof {
            lemma_changed_wf(v, "Undid edit"@);
        }
    }

    /// Makes the last undone edit again.
    pub fn redo(&mut self)
        requires
            old(self).wf(),
        ensures
            final(self).wf(),
            final(self)@ == if old(self)@.active is None {
                saying(old(self)@, "No file open"@)
            } else if old(self)@.document.redo.len() == 0 {
                saying(old(self)@, "Nothing to redo"@)
            } else {
                after_change(
                    with_document(
                        old(self)@,
                        redone(old(self)@.document, final(self)@.document.pieces),
                    ),
                    "Redid edit"@,
                )
            },
    {
        if self.active_path.is_none() {
            self.status_message = copy_str("No file open");
            assert(self@ =~= saying(old(self)@, "No file open"@));
            return;
        }
        let changed = self.document.redo();
        assert(self@ =~= with_document(
            old(self)@,
            redone(old(self)@.document, self@.document.pieces),
        ));
        if !changed {
            self.status_message = copy_str("Nothing to redo");
            assert(self@ =~= saying(old(self)@, "Nothing to redo"@));
            return;
        }
        let ghost v = self@;
        self.refresh_after("Redid edit");
        proof {
            lemma_changed_wf(v, "Redid edit"@);
        }
    }

    /// Moves the cursor to the left.
    pub fn move_cursor_left(&mut self)
        requires
            old(self).wf(),
        ensures
            final(self).wf(),
            final(self)@ == followed(
                with_document(
                    old(self)@,
                    moved_left(old(self)@.document),
                ),
            ),
    {
        self.document.move_left();
        let ghost v = self@;
        assert(v =~= with_document(old(self)@, v.document));
        self.after_cursor_move();
        proof {
            lemma_followed_wf(v);
        }
    }

    /// Moves the cursor to the right.
    pub fn move_cursor_right(&mut self)
        requires
            old(self).wf(),
        ensures
            final(self).wf(),
            final(self)@ == followed(
                with_document(
                    old(self)@,
                    moved_right(old(self)@.document),
                ),
            ),
    {
        self.document.move_right();
        let ghost v = self@;
        assert(v =~= with_document(old(self)@, v.document));
        self.after_cursor_move();
        proof {
            lemma_followed_wf(v);
        }
    }

    /// Moves the cursor up a line.
    pub fn move_cursor_up(&mut self)
        requires
            old(self).wf(),
        ensures
            final(self).wf(),
            final(self)@ == followed(
                with_document(
                    old(self)@,
                    moved_vertically(old(self)@.document, -1, false),
                ),
            ),
    {
        self.document.move_up(false);
        let ghost v = self@;
        assert(v =~= with_document(old(self)@, v.document));
        self.after_cursor_move();
        proof {
            lemma_followed_wf(v);
        }
    }

    /// Moves the cursor down a line.
    pub fn move_cursor_down(&mut self)
        requires
            old(self).wf(),
        ensures
            final(self).wf(),
            final(self)@ == followed(
                with_document(
                    old(self)@,
                    moved_vertically(old(self)@.document, 1, false),
                ),
            ),
    {
        self.document.move_down(false);
        let ghost v = self@;
        assert(v =~= with_document(old(self)@, v.document));
        self.after_cursor_move();
        proof {
            lemma_followed_wf(v);
        }
    }

    /// Moves the cursor to the start.
    pub fn move_cursor_to_start(&mut self)
        requires
            old(self).wf(),
        ensures
            final(self).wf(),
            final(self)@ == followed(
                with_document(
                    old(self)@,
                    moved_to(old(self)@.document, 0, false),
                ),
            ),
    {
        self.document.move_to_start();
        let ghost v = self@;
        assert(v =~= with_document(old(self)@, v.document));
        self.after_cursor_move();
        proof {
            lemma_followed_wf(v);
        }
    }

    /// Moves the cursor to the end.
    pub fn move_cursor_to_end(&mut self)
        requires
            old(self).wf(),
        ensures
            final(self).wf(),
            final(self)@ == followed(
                with_document(
                    old(self)@,
                    moved_to(old(self)@.document, old(self)@.document.text.len() as int, false),
                ),
            ),
    {
        self.document.move_to_end();
        let ghost v = self@;
        assert(v =~= with_document(old(self)@, v.document));
        self.after_cursor_move();
        proof {
            lemma_followed_wf(v);
        }
    }

    /// Moves the cursor to a line and column.
    pub fn move_cursor_to_line_column(&mut self, line: usize, column: usize)
        requires
            old(self).wf(),
        ensures
            final(self).wf(),
            final(self)@ == followed(
                with_document(
                    old(self)@,
                    moved_to(
                        old(self)@.document,
                        offset_of(old(self)@.document.text, line as int, column as int),
                        false,
                    ),
                ),
            ),
    {
        self.document.move_to_line_column(line, column);
        let ghost v = self@;
        assert(v =~= with_document(old(self)@, v.document));
        self.after_cursor_move();
        proof {
            lemma_followed_wf(v);
        }
    }

    /// Draws the selection to a line and column.
    pub fn extend_cursor_to_line_column(&mut self, line: usize, column: usize)
        requires
            old(self).wf(),
        ensures
            final(self).wf(),
            final(self)@ == followed(
                with_document(
                    old(self)@,
                    moved_to(
                        old(self)@.document,
                        offset_of(old(self)@.document.text, line as int, column as int),
                        true,
                    ),
                ),
            ),
    {
        self.document.extend_to_line_column(line, column);
        let ghost v = self@;
        assert(v =~= with_document(old(self)@, v.document));
        self.after_cursor_move();
        proof {
            lemma_followed_wf(v);
        }
    }

    /// Draws the selection to the left.
    pub fn extend_cursor_left(&mut self)
        requires
            old(self).wf(),
        ensures
            final(self).wf(),
            final(self)@ == followed(
                with_document(
                    old(self)@,
                    extended_left(old(self)@.document),
                ),
            ),
    {
        self.document.extend_left();
        let ghost v = self@;
        assert(v =~= with_document(old(self)@, v.document));
        self.after_cursor_move();
        proof {
            lemma_followed_wf(v);
        }
    }

    /// Draws the selection to the right.
    pub fn extend_cursor_right(&mut self)
        requires
            old(self).wf(),
        ensures
            final(self).wf(),
            final(self)@ == followed(
                with_document(
                    old(self)@,
                    extended_right(old(self)@.document),
                ),
            ),
    {
        self.document.extend_right();
        let ghost v = self@;
        assert(v =~= with_document(old(self)@, v.document));
        self.after_cursor_move();
        proof {
            lemma_followed_wf(v);
        }
    }

    /// Draws the selection up a line.
    pub fn extend_cursor_up(&mut self)
        requires
            old(self).wf(),
        ensures
            final(self).wf(),
            final(self)@ == followed(
                with_document(
                    old(self)@,
                    moved_vertically(old(self)@.document, -1, true),
                ),
            ),
    {
        self.document.extend_up();
        let ghost v = self@;
        assert(v =~= with_document(old(self)@, v.document));
        self.after_cursor_move();
        proof {
            lemma_followed_wf(v);
        }
    }

    /// Draws the selection down a line.
    pub fn extend_cursor_down(&mut self)
        requires
            old(self).wf(),
        ensures
            final(self).wf(),
            final(self)@ == followed(
                with_document(
                    old(self)@,
                    moved_vertically(old(self)@.document, 1, true),
                ),
            ),
    {
        self.document.extend_down();
        let ghost v = self@;
        assert(v =~= with_document(old(self)@, v.document));
        self.after_cursor_move();
        proof {
            lemma_followed_wf(v);
        }
    }

    /// Selects the whole text.
    pub fn select_all(&mut self)
        requires
            old(self).wf(),
        ensures
            final(self).wf(),
            final(self)@ == with_document(
                old(self)@,
                with_selection(
                    old(self)@.document,
                    0,
                    old(self)@.document.text.len() as int,
                    false,
                ),
            ),
    {
        self.document.select_all();
        assert(self@ =~= with_document(old(self)@, self@.document));
    }

    /// Selects the word at a line and column. Tells whether there is one.
    pub fn select_word_at_line_column(&mut self, line: usize, column: usize) -> (r: bool)
        requires
            old(self).wf(),
        ensures
            final(self).wf(),
            r == (word_at(
                old(self)@.document.text,
                offset_of(old(self)@.document.text, line as int, column as int),
            ) is Some),
            final(self)@ == followed(
                ShellView {
                    document: word_selected(
                        old(self)@.document,
                        line as int,
                        column as int,
                    ),
                    marked: None,
                    ..old(self)@
                },
            ),
    {
        let selected = self.document.select_word_at_line_column(line, column);
        self.marked_text_range = None;
        let ghost v = self@;
        assert(v =~= ShellView { document: v.document, marked: None, ..old(self)@ });
        self.after_cursor_move();
        proof {
            lemma_followed_wf(v);
        }
        selected
    }

    /// Moves the cursor to a heading. Tells whether there is one of that number.
    pub fn jump_to_outline_item(&mut self, outline_index: usize) -> (r: bool)
        requires
            old(self).wf(),
        ensures
            final(self).wf(),
            r == (outline_index < old(self)@.outline.len()),
            final(self)@ == if outline_index < old(self)@.outline.len() {
                let heading = old(self)@.outline[outline_index as int];
                saying(
                    followed(
                        with_document(
                            old(self)@,
                            moved_to(
                                old(self)@.document,
                                offset_of(
                                    old(self)@.document.text,
                                    if heading.line_number == 0 {
                                        0
                                    } else {
                                        heading.line_number - 1
                                    },
                                    0,
                                ),
                                false,
                            ),
                        ),
                    ),
                    "Jumped to "@ + heading.label,
                )
            } else {
                saying(old(self)@, "Heading not found"@)
            },
    {
        if outline_index >= self.outline.len() {
            self.status_message = copy_str("Heading not found");
            assert(self@ =~= saying(old(self)@, "Heading not found"@));
            return false;
        }
        assert(self@.outline[outline_index as int] == self.outline@[outline_index as int]@);
        let number: usize = self.outline[outline_index].line_number;
        let line: usize = if number == 0 {
            0
        } else {
            number - 1
        };
        let message = concat2("Jumped to ", self.outline[outline_index].label.as_str());
        self.document.move_to_line_column(line, 0);
        let ghost v = self@;
        assert(v =~= with_document(old(self)@, v.document));
        self.after_cursor_move();
        proof {
            lemma_followed_wf(v);
        }
        self.status_message = message;
        assert(self@ =~= saying(followed(v), message@));
        true
    }

    /// Scrolls by a number of lines. Tells whether the shown lines moved.
    pub fn scroll_document_by_lines(&mut self, line_delta: isize) -> (r: bool)
        requires
            old(self).wf(),
        ensures
            final(self).wf(),
            r == (scrolled_start(old(self)@, line_delta as int) != old(self)@.start_line),
            final(self)@ == shown_from(
                old(self)@,
                scrolled_start(old(self)@, line_delta as int),
            ),
    {
        let last: i128 = self.document.line_count() as i128 - 1;
        let target: i128 = self.document_start_line as i128 + line_delta as i128;
        let next: i128 = if target < 0 {
            0
        } else if target <= last {
            target
        } else {
            last
        };
        self.show_from(next as usize)
    }

    /// Shows the note from a line on. Tells whether the shown lines moved.
    pub fn set_document_start_line(&mut self, line: usize) -> (r: bool)
        requires
            old(self).wf(),
        ensures
            final(self).wf(),
            ({
                let start = min_of(line as int, line_count(old(self)@.document.text) - 1);
                &&& r == (start != old(self)@.start_line)
                &&& final(self)@ == shown_from(old(self)@, start)
            }),
    {
        let last: usize = self.document.line_count() - 1;
        self.show_from(
            if line <= last {
                line
            } else {
                last
            },
        )
    }

    fn show_from(&mut self, line: usize) -> (r: bool)
        requires
            old(self).wf(),
            line < line_count(old(self)@.document.text),
        ensures
            final(self).wf(),
            r == (line != old(self)@.start_line),
            final(self)@ == shown_from(old(self)@, line as int),
    {
        if line == self.document_start_line {
            return false;
        }
        self.document_start_line = line;
        let ghost v = self@;
        assert(v =~= ShellView { start_line: line as int, ..old(self)@ });
        self.refresh_document_view();
        proof {
            lemma_described_wf(v);
        }
        true
    }
}

/// The character that a UTF-16 offset into a text falls on.
#[must_use]
pub fn utf16_offset_in_text_to_char_offset(text: &str, offset: usize) -> (r: usize)
    ensures
        utf16_falls_on(text@, offset as int, r as int),
{
    let chars: Vec<char> = chars_of(text);
    let mut i: usize = 0;
    let mut remaining: usize = offset;
    assert(utf16_len(text@.take(0)) == 0);
    while i < chars.len()
        invariant
            chars@ == text@,
            i <= chars.len(),
            utf16_len(text@.take(i as int)) + remaining == offset,
        decreases chars.len() - i,
    {
        let width: usize = if chars[i] >= '\u{10000}' {
            2
        } else {
            1
        };
        proof {
            assert(text@.take(i + 1).drop_last() =~= text@.take(i as int));
        }
        if remaining < width {
            return i;
        }
        remaining -= width;
        i += 1;
    }
    i
}

impl ShellState {
    /// The selected range, in characters.
    #[must_use]
    pub fn selection_range(&self) -> (r: Option<Range<usize>>)
        requires
            self.wf(),
        ensures
            match selection_of(self@.document) {
                Some((start, end)) => r matches Some(range) && range.start == start && range.end
                    == end,
                None => r is None,
            },
    {
        self.document.selection_range()
    }

    /// The selected text.
    #[must_use]
    pub fn selected_text(&self) -> (r: Option<String>)
        requires
            self.wf(),
        ensures
            match selection_of(self@.document) {
                Some((start, end)) => r matches Some(s) && s@ == self@.document.text.subrange(
                    start,
                    end,
                ),
                None => r is None,
            },
    {
        self.document.selected_text()
    }

    /// The selected columns of a line.
    #[must_use]
    pub fn selected_columns_for_line(&self, line: usize) -> (r: Option<Range<usize>>)
        requires
            self.wf(),
        ensures
            match selected_columns(self@.document, line as int) {
                Some((start, end)) => r matches Some(range) && range.start == start && range.end
                    == end,
                None => r is None,
            },
    {
        self.document.selected_columns_for_line(line)
    }

    /// The selection in UTF-16 offsets and whether the cursor is at its start.
    #[must_use]
    pub fn selected_utf16_range(&self) -> (r: (Range<usize>, bool))
        requires
            self.wf(),
        ensures
            match selection_of(self@.document) {
                Some((start, end)) => {
                    &&& r.0.start == utf16_of(self@.document.text, start)
                    &&& r.0.end == utf16_of(self@.document.text, end)
                    &&& r.1 == (self@.document.at.cursor == start)
                },
                None => {
                    &&& r.0.start == utf16_of(self@.document.text, self@.document.at.cursor)
                    &&& r.0.end == r.0.start
                    &&& !r.1
                },
            },
    {
        self.document.utf16_selection_range()
    }

    /// The marked range in UTF-16 offsets.
    #[must_use]
    pub fn marked_utf16_range(&self) -> (r: Option<Range<usize>>)
        ensures
            match self@.marked {
                Some((start, end)) => r matches Some(range) && range.start == utf16_of(
                    self@.document.text,
                    start,
                ) && range.end == utf16_of(self@.document.text, end),
                None => r is None,
            },
    {
        match &self.marked_text_range {
            Some(range) => Some(self.document.char_range_to_utf16(range)),
            None => None,
        }
    }

    /// The text in a range of UTF-16 offsets; `adjusted_range` takes the range that was read.
    #[must_use]
    pub fn text_for_utf16_range(
        &self,
        range: Range<usize>,
        adjusted_range: &mut Option<Range<usize>>,
    ) -> (s: String)
        requires
            runs_forwards(self@.document.text, range.start as int, range.end as int),
        ensures
            exists|a: int, b: int|
                #![trigger self@.document.text.subrange(a, b)]
                {
                    &&& utf16_falls_on(self@.document.text, range.start as int, a)
                    &&& utf16_falls_on(self@.document.text, range.end as int, b)
                    &&& a <= b
                    &&& s@ == self@.document.text.subrange(a, b)
                    &&& *final(adjusted_range) matches Some(adjusted)
                    &&& adjusted.start == utf16_of(self@.document.text, a)
                    &&& adjusted.end == utf16_of(self@.document.text, b)
                },
    {
        self.document.text_for_utf16_range(range, adjusted_range)
    }

    fn replacement_range(&self, range: Option<Range<usize>>) -> (r: Range<usize>)
        requires
            self.wf(),
            range matches Some(given) ==> runs_forwards(
                self@.document.text,
                given.start as int,
                given.end as int,
            ),
        ensures
            replaced_range(self@, range, r.start as int, r.end as int),
            r.start <= r.end,
    {
        match range {
            Some(given) => {
                let chars = self.document.utf16_range_to_char(&given);
                proof {
                    if given.start <= given.end {
                        lemma_falls_in_order(
                            self@.document.text,
                            given.start as int,
                            given.end as int,
                            chars.start as int,
                            chars.end as int,
                        );
                    }
                }
                chars
            },
            None => match &self.marked_text_range {
                Some(marked) => marked.start..marked.end,
                None => match self.selection_range() {
                    Some(selected) => selected,
                    None => {
                        let cursor: usize = self.document.cursor_char_offset();
                        cursor..cursor
                    },
                },
            },
        }
    }

    /// Replaces a range by text and takes the mark away. Tells whether the text changed.
    pub fn replace_text_in_utf16_range(&mut self, range: Option<Range<usize>>, text: &str) -> (r:
        bool)
        requires
            old(self).wf(),
            old(self)@.document.next_marker < u64::MAX,
            range matches Some(given) ==> runs_forwards(
                old(self)@.document.text,
                given.start as int,
                given.end as int,
            ),
        ensures
            final(self).wf(),
            exists|a: int, b: int|
                #![trigger replaced(old(self)@.document, a, b, text@, final(self)@.document.pieces)]
                {
                    &&& replaced_range(old(self)@, range, a, b)
                    &&& r == replacing_changes(old(self)@.document, a, b, text@)
                    &&& final(self)@ == after_edit_to(
                        ShellView { marked: None, ..old(self)@ },
                        replaced(old(self)@.document, a, b, text@, final(self)@.document.pieces),
                        r,
                    )
                },
    {
        let chosen = self.replacement_range(range);
        let ghost (a, b) = (chosen.start as int, chosen.end as int);
        self.marked_text_range = None;
        let changed = self.document.replace_range(chosen, text).is_some();
        let ghost v = self@;
        assert(v =~= with_document(
            ShellView { marked: None, ..old(self)@ },
            replaced(old(self)@.document, a, b, text@, v.document.pieces),
        ));
        if changed {
            self.after_edit();
            proof {
                lemma_changed_wf(v, "Modified"@);
            }
        }
        changed
    }

    /// Replaces a range by text and marks the text. Where `selected_range` is given, that
    /// part of the text is selected, in UTF-16 offsets. Tells whether the text changed.
    pub fn replace_and_mark_text_in_utf16_range(
        &mut self,
        range: Option<Range<usize>>,
        text: &str,
        selected_range: Option<Range<usize>>,
    ) -> (r: bool)
        requires
            old(self).wf(),
            old(self)@.document.next_marker < u64::MAX,
            range matches Some(given) ==> runs_forwards(
                old(self)@.document.text,
                given.start as int,
                given.end as int,
            ),
        ensures
            final(self).wf(),
            exists|a: int, b: int, from: int, upto: int|
                #![trigger replaced_range(old(self)@, range, a, b), with_selection(
                    replaced(
                        old(self)@.document,
                        a,
                        b,
                        text@,
                        final(self)@.document.pieces,
                    ),
                    from,
                    upto,
                    false,
                )]
                {
                    let start = min_of(a, old(self)@.document.text.len() as int);
                    let typed = replaced(
                        old(self)@.document,
                        a,
                        b,
                        text@,
                        final(self)@.document.pieces,
                    );
                    &&& replaced_range(old(self)@, range, a, b)
                    &&& r == replacing_changes(old(self)@.document, a, b, text@)
                    &&& selected_range matches Some(part) ==> {
                        &&& utf16_falls_on(text@, part.start as int, from - start)
                        &&& utf16_falls_on(text@, part.end as int, upto - start)
                    }
                    &&& final(self)@ == if r {
                        after_change(
                            ShellView {
                                marked: if text@.len() == 0 {
                                    None
                                } else {
                                    Some((start, start + text@.len()))
                                },
                                document: if selected_range is Some {
                                    with_selection(typed, from, upto, false)
                                } else {
                                    typed
                                },
                                ..old(self)@
                            },
                            "Modified"@
                        )
                    } else {
                        ShellView { marked: None, ..old(self)@ }
                    }
                },
    {
        let chosen = self.replacement_range(range);
        let ghost (a, b) = (chosen.start as int, chosen.end as int);
        let ghost start = min_of(a, self@.document.text.len() as int);
        let replacement = self.document.replace_range(chosen, text);
        let ghost typed = replaced(old(self)@.document, a, b, text@, self@.document.pieces);
        match replacement {
            None => {
                self.marked_text_range = None;
                assert(self@ =~= ShellView { marked: None, ..old(self)@ });
                proof {
                    assert(typed == replaced(
                        old(self)@.document,
                        a,
                        b,
                        text@,
                        self@.document.pieces,
                    ));
                    assert(replaced_range(old(self)@, range, a, b));
                    if let Some(part) = selected_range {
                        let (i, j) = lemma_range_falls(text@, part.start as int, part.end as int);
                        let w = with_selection(typed, start + i, start + j, false);
                    } else {
                        let w = with_selection(typed, 0, 0, false);
                    }
                }
                false
            },
            Some(inserted) => {
                self.marked_text_range = if text.is_empty() {
                    None
                } else {
                    Some(inserted.start..inserted.end)
                };
                let ghost marked = if text@.len() == 0 {
                    None
                } else {
                    Some((start, start + text@.len()))
                };
                let ghost mut from = 0;
                let ghost mut upto = 0;
                if let Some(part) = selected_range {
                    let i: usize = utf16_offset_in_text_to_char_offset(text, part.start);
                    let j: usize = utf16_offset_in_text_to_char_offset(text, part.end);
                    assert(start + text@.len() <= typed.text.len());
                    self.document.set_selection_range(
                        inserted.start + i..inserted.start + j,
                        false,
                    );
                    proof {
                        from = inserted.start + i;
                        upto = inserted.start + j;
                    }
                }
                let ghost v = self@;
                assert(v =~= ShellView {
                    marked,
                    document: if selected_range is Some {
                        with_selection(typed, from, upto, false)
                    } else {
                        typed
                    },
                    ..old(self)@
                });
                self.after_edit();
                proof {
                    lemma_changed_wf(v, "Modified"@);
                    assert(self@.document == v.document);
                    assert(typed == replaced(
                        old(self)@.document,
                        a,
                        b,
                        text@,
                        self@.document.pieces,
                    ));
                    assert(replaced_range(old(self)@, range, a, b));
                    let w = with_selection(typed, from, upto, false);
                }
                true
            },
        }
    }

    /// Takes the mark away.
    pub fn unmark_text(&mut self)
        requires
            old(self).wf(),
        ensures
            final(self).wf(),
            final(self)@ == (ShellView { marked: None, ..old(self)@ }),
    {
        self.marked_text_range = None;
        assert(self@ =~= ShellView { marked: None, ..old(self)@ });
    }

    /// The places of a range of UTF-16 offsets.
    #[must_use]
    pub fn editor_cursors_for_utf16_range(&self, range: Range<usize>) -> (r: (
        EditorCursor,
        EditorCursor,
    ))
        ensures
            exists|a: int, b: int|
                #![trigger place_of(self@.document.text, a), place_of(self@.document.text, b)]
                {
                    &&& utf16_falls_on(self@.document.text, range.start as int, a)
                    &&& utf16_falls_on(self@.document.text, range.end as int, b)
                    &&& (r.0.line as int, r.0.column as int) == place_of(self@.document.text, a)
                    &&& (r.1.line as int, r.1.column as int) == place_of(self@.document.text, b)
                },
    {
        let chars = self.document.utf16_range_to_char(&range);
        let start = self.document.line_column_for_char_offset(chars.start);
        let end = self.document.line_column_for_char_offset(chars.end);
        (start, end)
    }

    /// The UTF-16 offset of a line and column.
    #[must_use]
    pub fn utf16_index_for_line_column(&self, line: usize, column: usize) -> (n: usize)
        ensures
            n == utf16_of(
                self@.document.text,
                offset_of(self@.document.text, line as int, column as int),
            ),
    {
        self.document.utf16_offset_for_line_column(line, column)
    }

    /// Cuts the selected text out.
    pub fn take_selected_text(&mut self) -> (r: Option<String>)
        requires
            old(self).wf(),
            old(self)@.document.next_marker < u64::MAX,
        ensures
            final(self).wf(),
            match selection_of(old(self)@.document) {
                Some((start, end)) => {
                    &&& r matches Some(s) && s@ == old(self)@.document.text.subrange(start, end)
                    &&& final(self)@ == after_change(
                        ShellView {
                            document: without_selection(
                                old(self)@.document,
                                final(self)@.document.pieces,
                            ),
                            marked: None,
                            ..old(self)@
                        },
                        "Modified"@
                    )
                },
                None => r is None && final(self)@ == old(self)@,
            },
    {
        let taken = self.document.take_selected_text();
        match taken {
            Some(text) => {
                self.marked_text_range = None;
                let ghost v = self@;
                assert(v =~= ShellView {
                    document: without_selection(old(self)@.document, v.document.pieces),
                    marked: None,
                    ..old(self)@
                });
                self.after_edit();
                proof {
                    lemma_changed_wf(v, "Modified"@);
                }
                Some(text)
            },
            None => {
                assert(self@ =~= old(self)@);
                None
            },
        }
    }

    /// The cursor's line and column.
    #[must_use]
    pub fn cursor_position(&self) -> (c: EditorCursor)
        requires
            self.wf(),
        ensures
            (c.line as int, c.column as int) == place_of(
                self@.document.text,
                self@.document.at.cursor,
            ),
    {
        self.document.cursor_position()
    }

    /// The text of the note being edited.
    #[must_use]
    pub fn document_text(&self) -> (s: String)
        ensures
            s@ == self@.document.text,
    {
        self.document.text()
    }

    /// Whether the note being edited changed since it was saved.
    #[must_use]
    pub fn document_is_dirty(&self) -> (r: bool)
        ensures
            r == changed_since_saved(self@.document),
    {
        self.document.is_dirty()
    }

    /// Whether a folder of the tree is open.
    #[must_use]
    pub fn is_expanded(&self, path: &str) -> (r: bool)
        ensures
            r == lists_path(self@.expanded, path@),
    {
        contains_path(&self.expanded_dirs, path)
    }
}

/// A note as it was found on disk.
pub enum NoteOnDisk {
    /// No file is there; what searching the vault gave.
    Missing(Result<VaultScan, String>),
    /// A file is there; what reading it gave.
    Present(Result<String, String>),
}

/// What following a link asks for.
pub enum WikilinkStep {
    /// The note to open.
    Open(String),
    /// The note to write and then to open.
    Create(String, String),
    /// Nothing: the link names no note of the vault.
    Invalid,
}

impl View for WikilinkStep {
    type V = LinkPlan;

    open spec fn view(&self) -> LinkPlan {
        match self {
            WikilinkStep::Open(path) => LinkPlan::Open(path@),
            WikilinkStep::Create(path, text) => LinkPlan::Create(path@, text@),
            WikilinkStep::Invalid => LinkPlan::Invalid,
        }
    }
}

impl ShellState {
    /// The directory that a new note goes to; `selected_is_dir` tells whether what is
    /// selected is a directory.
    #[must_use]
    pub fn note_creation_dir(&self, selected_is_dir: bool) -> (r: String)
        ensures
            r@ == new_note_directory(self@, selected_is_dir),
    {
        if let Some(selected) = &self.selected_path {
            if selected_is_dir {
                return selected.clone();
            }
            if let Some(directory) = parent(selected.as_str()) {
                return directory;
            }
        }
        if let Some(active) = &self.active_path {
            if let Some(directory) = parent(active.as_str()) {
                return directory;
            }
        }
        self.root.clone()
    }

    /// The note that a command acts on.
    #[must_use]
    pub fn selected_note_path(&self) -> (r: Option<String>)
        ensures
            opt_chars(r) == chosen_note(self@),
    {
        match &self.selected_path {
            Some(path) => if is_markdown_path(path.as_str()) {
                Some(path.clone())
            } else {
                None
            },
            None => copy_opt(&self.active_path),
        }
    }

    fn open_tab_dirty(&self, path: &str) -> (r: bool)
        ensures
            r == has_unsaved_tab(self@, path@),
    {
        let mut i: usize = 0;
        while i < self.tabs.len()
            invariant
                i <= self.tabs.len(),
                forall|k: int|
                    0 <= k < i ==> !(same_path((#[trigger] self@.tabs[k]).path, path@)
                        && self@.tabs[k].dirty),
            decreases self.tabs.len() - i,
        {
            assert(self@.tabs[i as int] == self.tabs@[i as int]@);
            if is_same_path(self.tabs[i].path.as_str(), path) && self.tabs[i].dirty {
                return true;
            }
            i += 1;
        }
        false
    }

    fn drop_tabs_of(&mut self, path: &str)
        requires
            old(self).wf(),
        ensures
            final(self).wf(),
            final(self)@ == (ShellView {
                tabs: tabs_without(old(self)@.tabs, path@, old(self)@.tabs.len() as int),
                ..old(self)@
            }),
    {
        let ghost all = self@.tabs;
        let mut kept: Vec<EditorTab> = Vec::new();
        let mut tabs: Vec<EditorTab> = Vec::new();
        core::mem::swap(&mut self.tabs, &mut tabs);
        let ghost items = tabs@;
        assert(tab_views(items) == all);
        assert(tab_views(kept@) =~= tabs_without(all, path@, 0));
        for tab in it: tabs
            invariant
                it.seq() == items,
                tab_views(items) == all,
                tab_views(kept@) == tabs_without(all, path@, it.index() as int),
        {
            let ghost i = it.index() as int;
            assert(all[i] == items[i]@);
            if !is_same_path(tab.path.as_str(), path) {
                let ghost before = kept@;
                kept.push(tab);
                assert(tab_views(kept@) =~= tab_views(before).push(all[i]));
            }
        }
        self.tabs = kept;
        proof {
            lemma_tabs_without(all, path@, all.len() as int);
            assert(self@ =~= ShellView {
                tabs: tabs_without(all, path@, all.len() as int),
                ..old(self)@
            });
        }
    }

    /// Opens a note that was just made, the cursor at its end.
    pub fn create_note(
        &mut self,
        path: String,
        written: Result<(), String>,
        scan: Result<VaultScan, String>,
        read: Result<String, String>,
    )
        requires
            old(self).wf(),
            scan_fits(scan),
        ensures
            final(self).wf(),
            final(self)@ == note_created(
                old(self)@,
                path@,
                written,
                scan,
                read_view(read),
                final(self)@.document.pieces,
            ),
    {
        match written {
            Ok(_) => {
                self.refresh_files(scan);
                let ghost found = self@;
                if let Some(directory) = parent(path.as_str()) {
                    open_folder(&mut self.expanded_dirs, directory.as_str());
                    assert(self@ =~= ShellView {
                        expanded: folders_with(found.expanded, directory@),
                        ..found
                    });
                    self.rebuild_visible_files();
                }
                let ghost unfolded = self@;
                self.open_path(path, read);
                self.move_cursor_to_end();
            },
            Err(error) => {
                self.status_message = error;
                assert(self@ =~= saying(old(self)@, error@));
            },
        }
    }

    /// Plans a rename of the chosen note: gives the note and its new path, or says why not.
    pub fn rename_selected_to(&mut self, target: &str) -> (r: Option<(String, String)>)
        requires
            old(self).wf(),
        ensures
            final(self).wf(),
            match rename_plan(old(self)@, target@) {
                Ok((source, path)) => {
                    &&& r matches Some(plan) && plan.0@ == source && plan.1@ == path
                    &&& final(self)@ == synced(old(self)@)
                },
                Err(message) => r is None && final(self)@ == saying(old(self)@, message),
            },
    {
        let source = match self.selected_note_path() {
            Some(source) => source,
            None => {
                self.status_message = copy_str("Select a note to rename");
                assert(self@ =~= saying(old(self)@, "Select a note to rename"@));
                return None;
            },
        };
        let target = normalize_markdown_target(target);
        if !is_within(target.as_str(), self.root.as_str()) {
            self.status_message = copy_str("Rename target must stay inside vault");
            assert(self@ =~= saying(old(self)@, "Rename target must stay inside vault"@));
            return None;
        }
        if is_same_path(source.as_str(), target.as_str()) {
            self.status_message = copy_str("Rename target is unchanged");
            assert(self@ =~= saying(old(self)@, "Rename target is unchanged"@));
            return None;
        }
        self.sync_active_tab_buffer();
        proof {
            lemma_synced_wf(old(self)@);
        }
        Some((source, target))
    }

    fn update_open_paths_after_rename(&mut self, source: &str, target: &str)
        requires
            old(self).wf(),
        ensures
            final(self).wf(),
            final(self)@ == (ShellView {
                tabs: renamed_tabs(
                    old(self)@.tabs,
                    source@,
                    target@,
                    shown_path(old(self)@, target@),
                ),
                active: renamed_path(old(self)@.active, source@, target@),
                selected: renamed_path(old(self)@.selected, source@, target@),
                ..old(self)@
            }),
    {
        let label = self.display_path(target);
        let ghost v = self@;
        let ghost wanted = renamed_tabs(v.tabs, source@, target@, label@);
        let mut i: usize = 0;
        while i < self.tabs.len()
            invariant
                v == old(self)@,
                v == (ShellView { tabs: v.tabs, ..self@ }),
                label@ == shown_path(v, target@),
                wanted == renamed_tabs(v.tabs, source@, target@, label@),
                self.tabs@.len() == v.tabs.len(),
                i <= v.tabs.len(),
                forall|k: int| 0 <= k < i ==> (#[trigger] self.tabs@[k])@ == wanted[k],
                forall|k: int| i <= k < v.tabs.len() ==> (#[trigger] self.tabs@[k])@ == v.tabs[k],
            decreases v.tabs.len() - i,
        {
            if is_same_path(self.tabs[i].path.as_str(), source) {
                self.tabs[i].path = copy_str(target);
                self.tabs[i].label = label.clone();
            }
            i += 1;
        }
        assert(self@.tabs =~= wanted);
        let active_moved = match &self.active_path {
            Some(path) => is_same_path(path.as_str(), source),
            None => false,
        };
        if active_moved {
            self.active_path = Some(copy_str(target));
        }
        let selected_moved = match &self.selected_path {
            Some(path) => is_same_path(path.as_str(), source),
            None => false,
        };
        if selected_moved {
            self.selected_path = Some(copy_str(target));
        }
        assert(self@ =~= ShellView {
            tabs: wanted,
            active: renamed_path(v.active, source@, target@),
            selected: renamed_path(v.selected, source@, target@),
            ..v
        });
    }

    /// Takes in what renaming a note gave.
    pub fn finish_rename(
        &mut self,
        source: &str,
        target: &str,
        renamed: Result<(), String>,
        scan: Result<VaultScan, String>,
    )
        requires
            old(self).wf(),
            scan_fits(scan),
        ensures
            final(self).wf(),
            final(self)@ == note_renamed(old(self)@, source@, target@, renamed, scan),
    {
        match renamed {
            Ok(_) => {
                let ghost v = self@;
                if let Some(directory) = parent(target) {
                    open_folder(&mut self.expanded_dirs, directory.as_str());
                }
                let ghost expanded = self@.expanded;
                assert(self@ =~= ShellView { expanded, ..v });
                self.update_open_paths_after_rename(source, target);
                let ghost moved = self@;
                self.refresh_files(scan);
                let ghost found = self@;
                self.selected_path = Some(copy_str(target));
                let label = self.display_path(target);
                self.status_message = concat2("Renamed ", label.as_str());
                assert(self@ =~= saying(
                    ShellView { selected: Some(target@), ..found },
                    "Renamed "@ + shown_path(v, target@),
                ));
            },
            Err(error) => {
                self.status_message = error;
                assert(self@ =~= saying(old(self)@, error@));
            },
        }
    }

    /// Plans to delete the chosen note: gives it, or says why not.
    pub fn delete_selected_note(&mut self) -> (r: Option<String>)
        requires
            old(self).wf(),
        ensures
            final(self).wf(),
            match delete_plan(old(self)@) {
                Ok(path) => {
                    &&& r matches Some(s) && s@ == path
                    &&& final(self)@ == old(self)@
                },
                Err(message) => r is None && final(self)@ == saying(old(self)@, message),
            },
    {
        let path = match self.selected_note_path() {
            Some(path) => path,
            None => {
                self.status_message = copy_str("Select a note to delete");
                assert(self@ =~= saying(old(self)@, "Select a note to delete"@));
                return None;
            },
        };
        if self.open_tab_dirty(path.as_str()) {
            self.status_message = copy_str("Save or close dirty note before deleting");
            assert(self@ =~= saying(old(self)@, "Save or close dirty note before deleting"@));
            return None;
        }
        Some(path)
    }

    /// Takes in what deleting a note gave.
    pub fn finish_delete(
        &mut self,
        path: &str,
        removed: Result<(), String>,
        scan: Result<VaultScan, String>,
        first_note: Result<String, String>,
    )
        requires
            old(self).wf(),
            scan_fits(scan),
        ensures
            final(self).wf(),
            final(self)@ == note_deleted(
                old(self)@,
                path@,
                removed,
                scan,
                read_view(first_note),
                final(self)@.document.pieces,
            ),
    {
        match removed {
            Ok(_) => {
                let ghost v = self@;
                let was_active = match &self.active_path {
                    Some(active) => is_same_path(active.as_str(), path),
                    None => false,
                };
                let label = self.display_path(path);
                self.drop_tabs_of(path);
                self.selected_path = None;
                let ghost rest = self@;
                assert(rest =~= ShellView {
                    tabs: tabs_without(v.tabs, path@, v.tabs.len() as int),
                    selected: None,
                    ..v
                });
                if was_active {
                    let count: usize = self.tabs.len();
                    if count > 0 {
                        self.show_last_tab();
                    } else {
                        self.active_path = None;
                        let ghost bare = self@;
                        assert(bare =~= ShellView { active: None, ..rest });
                        self.refresh_files(scan);
                        self.open_first_markdown(first_note);
                    }
                } else {
                    self.refresh_files(scan);
                }
                let ghost shown = self@;
                self.status_message = concat2("Deleted ", label.as_str());
                assert(self@ =~= saying(shown, "Deleted "@ + label@));
            },
            Err(error) => {
                self.status_message = error;
                assert(self@ =~= saying(old(self)@, error@));
            },
        }
    }

    fn show_last_tab(&mut self)
        requires
            old(self).wf(),
            old(self)@.tabs.len() > 0,
        ensures
            final(self).wf(),
            final(self)@ == tab_shown(old(self)@, old(self)@.tabs.len() - 1),
    {
        let ghost v = self@;
        let last: usize = self.tabs.len() - 1;
        self.open_tab_buffer(last);
        proof {
            let tab = v.tabs[last as int];
            lemma_described_wf(
                ShellView {
                    selected: Some(tab.path),
                    active: Some(tab.path),
                    document: tab.buffer,
                    marked: None,
                    start_line: 0,
                    ..v
                }
            );
        }
    }

    /// The file to show outside: the selected one, or the one being edited.
    #[must_use]
    pub fn reveal_target(&self) -> (r: Option<String>)
        ensures
            opt_chars(r) == match self@.selected {
                Some(path) => Some(path),
                None => self@.active,
            },
    {
        match &self.selected_path {
            Some(path) => Some(path.clone()),
            None => copy_opt(&self.active_path),
        }
    }

    /// Takes in what showing a file outside gave.
    pub fn reveal_selected(&mut self, revealed: Result<(), String>)
        requires
            old(self).wf(),
        ensures
            final(self).wf(),
            ({
                let target = match old(self)@.selected {
                    Some(path) => Some(path),
                    None => old(self)@.active,
                };
                final(self)@ == saying(
                    old(self)@,
                    match (target, revealed) {
                        (None, _) => "No file selected"@,
                        (Some(path), Ok(_)) => "Revealed "@ + shown_path(old(self)@, path),
                        (Some(_), Err(error)) => error@,
                    },
                )
            }),
    {
        self.status_message = match self.reveal_target() {
            None => copy_str("No file selected"),
            Some(path) => match revealed {
                Ok(_) => concat2("Revealed ", self.display_path(path.as_str()).as_str()),
                Err(error) => error,
            },
        };
        assert(self@ =~= saying(old(self)@, self@.message));
    }

    /// Takes in what opening the note being edited in another program gave.
    pub fn open_active_external(&mut self, started: Result<(), String>)
        requires
            old(self).wf(),
        ensures
            final(self).wf(),
            final(self)@ == saying(
                old(self)@,
                match (old(self)@.active, started) {
                    (None, _) => "No file open"@,
                    (Some(path), Ok(_)) => "Editing "@ + shown_path(old(self)@, path),
                    (Some(_), Err(error)) => error@,
                },
            ),
    {
        self.status_message = match &self.active_path {
            None => copy_str("No file open"),
            Some(path) => match started {
                Ok(_) => concat2("Editing ", self.display_path(path.as_str()).as_str()),
                Err(error) => error,
            },
        };
        assert(self@ =~= saying(old(self)@, self@.message));
    }

    /// Says that the vault could not be remembered.
    pub fn report_not_remembered(&mut self, error: &str)
        requires
            old(self).wf(),
        ensures
            final(self).wf(),
            final(self)@ == saying(
                old(self)@,
                old(self)@.message + "; vault not remembered: "@ + error@,
            ),
    {
        self.status_message = concat3(
            self.status_message.as_str(),
            "; vault not remembered: ",
            error,
        );
        assert(self@ =~= saying(old(self)@, self@.message));
    }

    /// Takes in what reading the note being edited anew gave.
    pub fn reload_active(&mut self, read: Result<String, String>)
        requires
            old(self).wf(),
        ensures
            final(self).wf(),
            final(self)@ == reloaded(old(self)@, read_view(read), final(self)@.document.pieces),
    {
        let ghost v = self@;
        let path = match copy_opt(&self.active_path) {
            Some(path) => path,
            None => {
                self.status_message = copy_str("No file open");
                assert(self@ =~= saying(v, "No file open"@));
                return;
            },
        };
        match read {
            Ok(text) => {
                let label = self.display_path(path.as_str());
                let ghost before = self.tabs@;
                proof {
                    lemma_tab_from(v.tabs, path@, 0);
                }
                let buffer = TextBuffer::new_saved(text.as_str());
                match tab_index(&self.tabs, path.as_str()) {
                    Some(i) => {
                        self.tabs[i].buffer = buffer.clone();
                        self.tabs[i].dirty = false;
                        assert(tab_views(self.tabs@) =~= tab_views(before).update(
                            i as int,
                            TabView {
                                buffer: buffer@,
                                dirty: false,
                                ..tab_views(before)[i as int]
                            },
                        ));
                    },
                    None => {
                        let tab = EditorTab {
                            path: path.clone(),
                            label: label.clone(),
                            dirty: false,
                            buffer: buffer.clone(),
                        };
                        let ghost added = tab@;
                        self.tabs.push(tab);
                        assert(tab_views(self.tabs@) =~= tab_views(before).push(added));
                    },
                }
                let ghost tabs = self@.tabs;
                assert(self@ =~= ShellView { tabs, ..v });
                let message = concat2("Reloaded ", label.as_str());
                self.load_document_buffer(Some(path), buffer, message);
                proof {
                    lemma_lines(self@.document.text, 0);
                }
            },
            Err(error) => {
                self.status_message = error;
                assert(self@ =~= saying(v, error@));
            },
        }
    }
}

fn any_concerns(paths: &Vec<String>, note: &str) -> (r: bool)
    ensures
        r == concerns(texts(paths@), note@),
{
    let mut i: usize = 0;
    while i < paths.len()
        invariant
            i <= paths.len(),
            forall|k: int|
                0 <= k < i ==> !(lies_in(note@, #[trigger] texts(paths@)[k]) || lies_in(
                    texts(paths@)[k],
                    note@,
                )),
        decreases paths.len() - i,
    {
        if is_within(note, paths[i].as_str()) || is_within(paths[i].as_str(), note) {
            assert(texts(paths@)[i as int] == paths@[i as int]@);
            return true;
        }
        i += 1;
    }
    false
}

impl ShellState {
    /// Takes in a change of the vault on disk.
    pub fn apply_external_vault_change(
        &mut self,
        paths: &Vec<String>,
        scan: Result<VaultScan, String>,
        on_disk: Option<Result<String, String>>,
    )
        requires
            old(self).wf(),
            scan_fits(scan),
        ensures
            final(self).wf(),
            final(self)@ == vault_changed(
                old(self)@,
                texts(paths@),
                scan,
                disk_view(on_disk),
                final(self)@.document.pieces,
            ),
    {
        self.refresh_files(scan);
        let ghost v = old(self)@;
        let ghost found = self@;
        let path = match copy_opt(&self.active_path) {
            Some(path) => path,
            None => {
                self.status_message = copy_str("Vault updated");
                assert(self@ =~= saying(found, "Vault updated"@));
                return;
            },
        };
        if paths.len() > 0 && !any_concerns(paths, path.as_str()) {
            self.status_message = copy_str("Vault updated");
            assert(self@ =~= saying(found, "Vault updated"@));
            return;
        }
        assert(found.tabs == v.tabs);
        if self.open_tab_dirty(path.as_str()) {
            self.status_message = copy_str("External change detected; save or reload manually");
            assert(self@ =~= saying(
                found,
                "External change detected; save or reload manually"@,
            ));
            return;
        }
        match on_disk {
            Some(read) => {
                self.reload_active(read);
            },
            None => {
                self.close_missing_active_path(path);
            },
        }
    }

    fn close_missing_active_path(&mut self, path: String)
        requires
            old(self).wf(),
        ensures
            final(self).wf(),
            final(self)@ == missing_closed(old(self)@, path@),
    {
        let ghost v = self@;
        let label = self.display_path(path.as_str());
        self.drop_tabs_of(path.as_str());
        self.selected_path = None;
        let ghost rest = self@;
        assert(rest =~= ShellView {
            tabs: tabs_without(v.tabs, path@, v.tabs.len() as int),
            selected: None,
            ..v
        });
        let message = concat2("Closed missing ", label.as_str());
        if self.tabs.len() > 0 {
            self.show_last_tab();
            let ghost shown = self@;
            self.status_message = message;
            assert(self@ =~= saying(shown, message@));
        } else {
            proof {
                reveal_strlit("");
                assert(""@ =~= Seq::<char>::empty());
            }
            self.load_document(None, copy_str(""), message);
        }
    }

    /// Takes in what writing the note being edited gave; `index` is what indexing the vault
    /// anew gave.
    pub fn save_active(&mut self, written: Result<(), String>, index: VaultIndex)
        requires
            old(self).wf(),
        ensures
            final(self).wf(),
            final(self)@ == note_saved(old(self)@, written, index@),
    {
        let ghost v = self@;
        let path = match copy_opt(&self.active_path) {
            Some(path) => path,
            None => {
                self.status_message = copy_str("No file open");
                assert(self@ =~= saying(v, "No file open"@));
                return;
            },
        };
        match written {
            Ok(_) => {
                self.document.mark_saved();
                let ghost document = self@.document;
                let ghost wanted = saved_tabs(v.tabs, path@, document);
                let mut i: usize = 0;
                while i < self.tabs.len()
                    invariant
                        (ShellView { document: v.document, tabs: v.tabs, ..self@ }) == v,
                        self@.document == document,
                        document.state_marker == document.saved_marker,
                        wanted == saved_tabs(v.tabs, path@, document),
                        self.tabs@.len() == v.tabs.len(),
                        i <= v.tabs.len(),
                        forall|k: int| 0 <= k < i ==> (#[trigger] self.tabs@[k])@ == wanted[k],
                        forall|k: int|
                            i <= k < v.tabs.len() ==> (#[trigger] self.tabs@[k])@ == v.tabs[k],
                    decreases v.tabs.len() - i,
                {
                    if is_same_path(self.tabs[i].path.as_str(), path.as_str()) {
                        let buffer = self.document.clone();
                        self.tabs[i].buffer = buffer;
                        self.tabs[i].dirty = false;
                    }
                    i += 1;
                }
                assert(self@.tabs =~= wanted);
                self.vault_index = if self.tree.is_some() {
                    index
                } else {
                    VaultIndex::empty()
                };
                let ghost kept = self@;
                assert(kept =~= ShellView {
                    document,
                    tabs: wanted,
                    index: if v.tree is Some {
                        index@
                    } else {
                        IndexView::nothing()
                    },
                    ..v
                });
                self.refresh_document_metadata();
                let ghost shown = self@;
                proof {
                    lemma_described_wf(kept);
                }
                let label = self.display_path(path.as_str());
                self.status_message = concat2("Saved ", label.as_str());
                assert(self@ =~= saying(shown, "Saved "@ + label@));
            },
            Err(error) => {
                self.status_message = error;
                assert(self@ =~= saying(v, error@));
            },
        }
    }

    fn expand_ancestors(&mut self, path: &str)
        requires
            old(self).wf(),
        ensures
            final(self).wf(),
            final(self)@ == (ShellView {
                expanded: folders_above(old(self)@.expanded, parent_of(path@), old(self)@.root),
                ..old(self)@
            }),
    {
        let ghost v = self@;
        let mut ancestor: Option<String> = parent(path);
        let mut more = true;
        while more
            invariant
                (ShellView { expanded: v.expanded, ..self@ }) == v,
                more ==> folders_above(self@.expanded, opt_chars(ancestor), v.root)
                    == folders_above(v.expanded, parent_of(path@), v.root),
                !more ==> self@.expanded == folders_above(v.expanded, parent_of(path@), v.root),
            decreases
                    (if more {
                        1int
                    } else {
                        0int
                    }),
                    (match ancestor {
                        Some(directory) => directory@.len() + 1,
                        None => 0,
                    }),
        {
            match ancestor {
                Some(directory) => {
                    if !is_within(directory.as_str(), self.root.as_str()) {
                        more = false;
                        ancestor = None;
                    } else {
                        open_folder(&mut self.expanded_dirs, directory.as_str());
                        if is_same_path(directory.as_str(), self.root.as_str()) {
                            more = false;
                            ancestor = None;
                        } else {
                            proof {
                                lemma_parent_is_shorter(directory@);
                            }
                            ancestor = parent(directory.as_str());
                        }
                    }
                },
                None => {
                    more = false;
                    ancestor = None;
                },
            }
        }
        assert(self@ =~= ShellView { expanded: self@.expanded, ..v });
    }

    /// Opens a note of the vault and the folders above it.
    pub fn open_note_path(&mut self, path: String, found: NoteOnDisk)
        requires
            old(self).wf(),
            found matches NoteOnDisk::Missing(scan) ==> scan_fits(scan),
        ensures
            final(self).wf(),
            final(self)@ == note_opened(old(self)@, path@, found, final(self)@.document.pieces),
    {
        let ghost v = self@;
        if !is_markdown_path(path.as_str()) {
            self.status_message = copy_str("Select a markdown note");
            assert(self@ =~= saying(v, "Select a markdown note"@));
            return;
        }
        if !is_within(path.as_str(), self.root.as_str()) {
            self.status_message = copy_str("Note must stay inside vault");
            assert(self@ =~= saying(v, "Note must stay inside vault"@));
            return;
        }
        match found {
            NoteOnDisk::Missing(scan) => {
                let label = self.display_path(path.as_str());
                self.status_message = concat2("Missing ", label.as_str());
                assert(self@ =~= saying(v, "Missing "@ + label@));
                self.refresh_files(scan);
            },
            NoteOnDisk::Present(read) => {
                self.expand_ancestors(path.as_str());
                self.rebuild_visible_files();
                self.open_path(path, read);
            },
        }
    }

    /// Plans to follow a link.
    pub fn open_or_create_wikilink(&mut self, link: &str) -> (r: WikilinkStep)
        requires
            old(self).wf(),
        ensures
            final(self).wf(),
            r@ == link_plan(old(self)@, link@),
            final(self)@ == if link_plan(old(self)@, link@) is Invalid {
                saying(old(self)@, "Invalid link"@)
            } else {
                old(self)@
            },
    {
        if let Some(path) = self.vault_index.resolve_wikilink_path(link) {
            return WikilinkStep::Open(path);
        }
        if let Some(path) = new_wikilink_path(self.root.as_str(), &self.active_path, link) {
            if is_within(path.as_str(), self.root.as_str()) {
                let title = match wikilink_title(link) {
                    Some(title) => title,
                    None => copy_str("Untitled"),
                };
                return WikilinkStep::Create(path, titled(title.as_str()));
            }
        }
        self.status_message = copy_str("Invalid link");
        assert(self@ =~= saying(old(self)@, "Invalid link"@));
        WikilinkStep::Invalid
    }

    /// Takes in what writing the note that a link names gave.
    pub fn finish_wikilink(
        &mut self,
        path: String,
        written: Result<(), String>,
        scan: Result<VaultScan, String>,
        found: NoteOnDisk,
    )
        requires
            old(self).wf(),
            scan_fits(scan),
            found matches NoteOnDisk::Missing(scan) ==> scan_fits(scan),
        ensures
            final(self).wf(),
            final(self)@ == match written {
                Ok(_) => note_opened(
                    refreshed(old(self)@, scan),
                    path@,
                    found,
                    final(self)@.document.pieces,
                ),
                Err(error) => saying(old(self)@, error@),
            },
    {
        match written {
            Ok(_) => {
                self.refresh_files(scan);
                self.open_note_path(path, found);
            },
            Err(error) => {
                self.status_message = error;
                assert(self@ =~= saying(old(self)@, error@));
            },
        }
    }

    /// Plans to follow the link at a line and column, where there is one.
    pub fn open_wikilink_at_line_column(&mut self, line: usize, column: usize) -> (r: Option<
        WikilinkStep,
    >)
        requires
            old(self).wf(),
        ensures
            final(self).wf(),
            match link_under(old(self)@, line as int, column as int) {
                Some(link) => {
                    &&& r matches Some(step) && step@ == link_plan(old(self)@, link)
                    &&& final(self)@ == if link_plan(old(self)@, link) is Invalid {
                        saying(old(self)@, "Invalid link"@)
                    } else {
                        old(self)@
                    }
                },
                None => r is None && final(self)@ == old(self)@,
            },
    {
        let text = match self.document.line_text(line) {
            Some(text) => text,
            None => {
                return None;
            },
        };
        match wikilink_at_column(text.as_str(), column) {
            Some(link) => Some(self.open_or_create_wikilink(link.as_str())),
            None => None,
        }
    }

    /// The notes that a search finds.
    #[must_use]
    pub fn searchable_notes(&self, query: &str, limit: usize) -> (r: Vec<NoteSearchResult>)
        ensures
            Seq::new(r@.len(), |i: int| r@[i]@) == self@.index.notes_found(
                query@,
                limit as int,
            ),
    {
        let notes = self.vault_index.search_notes(query, limit);
        let ghost items = notes@;
        let mut found: Vec<NoteSearchResult> = Vec::new();
        for note in it: notes
            invariant
                it.seq() == items,
                found@.len() == it.index(),
                forall|k: int| 0 <= k < it.index() ==> (#[trigger] found@[k])@ == items[k]@,
        {
            found.push(
                NoteSearchResult {
                    path: note.path,
                    label: note.label,
                    parent_label: note.parent_label,
                },
            );
        }
        assert(Seq::new(found@.len(), |i: int| found@[i]@) =~= note_views(items));
        found
    }
}

impl View for NoteSearchResult {
    type V = NoteView;

    open spec fn view(&self) -> NoteView {
        NoteView { path: self.path@, label: self.label@, parent_label: self.parent_label@ }
    }
}

} // verus!
