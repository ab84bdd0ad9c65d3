//! What opening, closing, saving, renaming and deleting notes does to what is open.

use std::ops::Range;

use vstd::prelude::*;

use crate::shell::model::{NoteOnDisk, VaultScan};

verus! {

use crate::paths::{is_note, lemma_parent_is_shorter, lies_in, lists_path, note_path, parent_of, same_path};
use crate::shell::editor_buffer::{
    buffer_wf, selection_of, shown_line, utf16_falls_on, words_in, BufferView,
};
use crate::shell::editing::{law_edit_replaces_the_range, range_replaced};
use crate::shell::outline::outline_of;
use crate::shell::rope::line_count;
use crate::shell::shell_view::{
    active_tab, at_rest, after_change, after_edit_to, changed_since_saved, chosen_note, concerns,
    cursor_line, delete_plan, described, folders_above, folders_with,
    folders_without, followed, followed_start, has_unsaved_tab, is_active, lemma_lines,
    lemma_synced_wf, lemma_tab_from, lines_of, link_plan, link_under, missing_closed, moved_vault,
    new_note_directory, note_created, note_deleted, note_opened, note_renamed, note_saved, opened,
    refreshed, relisted, reloaded, rename_plan, replaced, replaced_range,
    replacing_changes, row_chosen, scrolled_start, shell_wf,
    shown_active, shown_path, sound, synced, tab_closed, tab_from, tab_shown, tabs_without,
    toggled, vault_changed, viewed, with_document, LinkPlan, ShellView, TabView,
};
use crate::shell::vault_index::{links_of, new_link_path, target_at, IndexView};
use crate::text::decimal;

/// Whether a state differs from another in its message alone.
pub open spec fn only_says(before: ShellView, after: ShellView, message: Seq<char>) -> bool {
    &&& after.message == message
    &&& after.tree == before.tree
    &&& after.index == before.index
    &&& after.expanded == before.expanded
    &&& after.root == before.root
    &&& after.active == before.active
    &&& after.selected == before.selected
    &&& after.files == before.files
    &&& after.tabs == before.tabs
    &&& after.document == before.document
    &&& after.marked == before.marked
    &&& after.start_line == before.start_line
    &&& after.lines == before.lines
}

/// Whether the same notes are open in two states, in the same order.
pub open spec fn same_notes(before: ShellView, after: ShellView) -> bool {
    &&& after.tabs.len() == before.tabs.len()
    &&& forall|i: int|
        0 <= i < before.tabs.len() ==> (#[trigger] after.tabs[i]).path == before.tabs[i].path
            && after.tabs[i].label == before.tabs[i].label
}

/// What is shown is read from the note: its lines from the first shown one on, seventy-two at
/// most, and how many lines it has. The note itself stays.
pub proof fn law_view_shows_the_notes_lines(v: ShellView, i: int)
    requires
        sound(v),
        v.start_line < line_count(v.document.text),
    ensures
        ({
            let after = viewed(v);
            let total = line_count(v.document.text);
            &&& after.start_line == v.start_line
            &&& after.document == v.document
            &&& after.tabs == v.tabs
            &&& after.active == v.active
            &&& 0 <= i < after.lines.len() ==> after.lines[i] == shown_line(
                v.document.text,
                v.start_line + i,
            )
            &&& v.start_line + 72 <= total ==> after.lines.len() == 72
            &&& v.start_line + 72 > total ==> after.lines.len() == total - v.start_line
            &&& after.status.lines == total
            &&& after.status.rendered_lines == after.lines.len()
        }),
{
    lemma_lines(v.document.text, 0);
}

/// Of a note that is not long all its links and its outline are shown, with how many links
/// there are, how many words it has and which notes link to it; of a long one none of that is. The note and its
/// lines are shown in either case.
pub proof fn law_note_is_described(v: ShellView)
    requires
        sound(v),
    ensures
        ({
            let after = described(v);
            &&& after.document == v.document
            &&& after.tabs == v.tabs
            &&& after.active == v.active
            &&& after.lines == viewed(v).lines
            &&& after.start_line == viewed(v).start_line
            &&& after.status.lines == line_count(v.document.text)
            &&& after.status.links == after.links.len()
            &&& after.status.backlinks == after.backlinks.len()
            &&& after.status.rendered_lines == after.lines.len()
            &&& v.document.text.len() <= 200_000 ==> after.links == links_of(v.document.text)
                && after.status.words == words_in(v.document.pieces) && after.outline == outline_of(
                lines_of(v.document.text),
                line_count(v.document.text),
            )
            &&& v.document.text.len() <= 200_000 ==> (v.active matches Some(path)
                ==> after.backlinks == v.index.backlinks_of(path))
            &&& v.document.text.len() > 200_000 ==> after.links.len() == 0 && after.outline.len()
                == 0 && after.backlinks.len() == 0 && after.status.words == 0
            &&& v.active is None ==> after.backlinks.len() == 0
        }),
{
}

/// Putting the edited note back into its tab changes that tab alone: it holds the note, and
/// whether it changed since it was saved.
pub proof fn law_edited_note_goes_back_to_its_tab(v: ShellView, i: int)
    requires
        sound(v),
        0 <= i < v.tabs.len(),
    ensures
        ({
            let after = synced(v);
            &&& same_notes(v, after)
            &&& after.document == v.document
            &&& after.active == v.active
            &&& active_tab(v) == Some(i) ==> after.tabs[i].buffer == v.document
                && after.tabs[i].dirty == (v.document.state_marker != v.document.saved_marker)
            &&& active_tab(v) != Some(i) ==> after.tabs[i] == v.tabs[i]
        }),
{
    lemma_synced_wf(v);
    lemma_tab_from(v.tabs, v.active->0, 0);
}

/// A note that is opened for the first time is edited from its start, as it was read, and is
/// clean; its tab comes behind all others, and what was being edited is kept in its own.
pub proof fn law_new_note_is_edited(
    v: ShellView,
    path: Seq<char>,
    text: Seq<char>,
    pieces: Seq<Seq<char>>,
    i: int,
)
    requires
        shell_wf(v),
        tab_from(v.tabs, path, 0) is None,
    ensures
        ({
            let after = opened(v, path, Ok(text), pieces);
            &&& after.active == Some(path)
            &&& after.selected == Some(path)
            &&& after.document.text == text
            &&& after.document.at.cursor == 0
            &&& after.document.at.anchor is None
            &&& !changed_since_saved(after.document)
            &&& after.start_line == 0
            &&& after.marked is None
            &&& after.tabs.len() == v.tabs.len() + 1
            &&& after.tabs.last().path == path
            &&& after.tabs.last().label == shown_path(v, path)
            &&& after.tabs.last().buffer == after.document
            &&& !after.tabs.last().dirty
            &&& after.message == "Opened "@ + shown_path(v, path)
            &&& 0 <= i < v.tabs.len() ==> after.tabs[i].path == v.tabs[i].path
            &&& 0 <= i < v.tabs.len() && active_tab(v) == Some(i) ==> after.tabs[i].buffer
                == v.document
            &&& 0 <= i < v.tabs.len() && active_tab(v) != Some(i) ==> after.tabs[i] == v.tabs[i]
        }),
{
    lemma_synced_wf(v);
    lemma_tab_from(v.tabs, v.active->0, 0);
    lemma_tab_from(v.tabs, path, 0);
    let s = synced(v);
    lemma_tab_from(s.tabs, path, 0);
    lemma_lines(text, 0);
    if let Some(k) = tab_from(s.tabs, path, 0) {
        assert(s.tabs[k].path == v.tabs[k].path);
        assert(!same_path(v.tabs[k].path, path));
    }
}

/// A note that is open already is edited as its tab holds it, whatever is on disk; no tab is
/// added, and what was being edited is kept in its own.
pub proof fn law_open_note_is_edited_on(
    v: ShellView,
    path: Seq<char>,
    read: Result<Seq<char>, Seq<char>>,
    pieces: Seq<Seq<char>>,
    i: int,
)
    requires
        shell_wf(v),
        tab_from(v.tabs, path, 0) == Some(i),
    ensures
        ({
            let after = opened(v, path, read, pieces);
            &&& same_notes(v, after)
            &&& after.active == Some(v.tabs[i].path)
            &&& after.selected == Some(v.tabs[i].path)
            &&& active_tab(v) == Some(i) ==> after.document == v.document
            &&& active_tab(v) != Some(i) ==> after.document == v.tabs[i].buffer
            &&& active_tab(v) matches Some(k) ==> after.tabs[k].buffer == v.document
            &&& after.message == "Opened "@ + v.tabs[i].label
            &&& after.start_line == 0
        }),
{
    lemma_synced_wf(v);
    lemma_tab_from(v.tabs, path, 0);
    lemma_tab_from(v.tabs, v.active->0, 0);
    let s = synced(v);
    lemma_tab_from(s.tabs, path, 0);
    if let Some(k) = tab_from(s.tabs, path, 0) {
        assert(s.tabs[k].path == v.tabs[k].path);
        assert(s.tabs[i].path == v.tabs[i].path);
        if k < i {
            assert(!same_path(v.tabs[k].path, path));
        }
        if i < k {
            assert(!same_path(s.tabs[i].path, path));
        }
    } else {
        assert(s.tabs[i].path == v.tabs[i].path);
    }
    lemma_lines(s.tabs[i].buffer.text, 0);
}

/// A note that cannot be read is not opened: the error is told and the same note is edited.
pub proof fn law_unreadable_note_is_not_opened(
    v: ShellView,
    path: Seq<char>,
    error: Seq<char>,
    pieces: Seq<Seq<char>>,
)
    requires
        shell_wf(v),
        tab_from(v.tabs, path, 0) is None,
    ensures
        ({
            let after = opened(v, path, Err(error), pieces);
            &&& after.message == error
            &&& after.document == v.document
            &&& after.active == v.active
            &&& after.selected == v.selected
            &&& same_notes(v, after)
        }),
{
    lemma_synced_wf(v);
    lemma_tab_from(v.tabs, v.active->0, 0);
    lemma_tab_from(v.tabs, path, 0);
    let s = synced(v);
    lemma_tab_from(s.tabs, path, 0);
    if let Some(k) = tab_from(s.tabs, path, 0) {
        assert(s.tabs[k].path == v.tabs[k].path);
        assert(!same_path(v.tabs[k].path, path));
    }
}

/// A tab that is closed is gone and all others stay in order. Closing one that is not being
/// edited changes nothing else.
pub proof fn law_closed_tab_is_gone(v: ShellView, i: int, k: int)
    requires
        shell_wf(v),
        0 <= i < v.tabs.len(),
        forall|a: int, b: int|
            0 <= a < b < v.tabs.len() ==> !same_path(v.tabs[a].path, v.tabs[b].path),
    ensures
        ({
            let after = tab_closed(v, i);
            let left = v.tabs.remove(i);
            &&& after.tabs.len() == v.tabs.len() - 1
            &&& 0 <= k < i ==> after.tabs[k].path == v.tabs[k].path
            &&& i <= k < v.tabs.len() - 1 ==> after.tabs[k].path == v.tabs[k + 1].path
            &&& !is_active(v, v.tabs[i].path) ==> after.document == v.document && after.active
                == v.active && after.tabs == left
            &&& is_active(v, v.tabs[i].path) && v.tabs.len() == 1 ==> after.active is None
                && after.document.text.len() == 0
            &&& is_active(v, v.tabs[i].path) && i + 1 < v.tabs.len() ==> after.active == Some(
                v.tabs[i + 1].path,
            ) && after.document == v.tabs[i + 1].buffer
            &&& is_active(v, v.tabs[i].path) && i + 1 == v.tabs.len() && i > 0 ==> after.active
                == Some(v.tabs[i - 1].path) && after.document == v.tabs[i - 1].buffer
        }),
{
    let rest = ShellView { tabs: v.tabs.remove(i), ..v };
    if is_active(v, v.tabs[i].path) && rest.tabs.len() > 0 {
        let at = if i < rest.tabs.len() {
            i
        } else {
            rest.tabs.len() - 1
        };
        let next = rest.tabs[at];
        assert(next == rest.tabs.last() || at == i);
        assert forall|m: int| 0 <= m < rest.tabs.len() implies buffer_wf(
            (#[trigger] rest.tabs[m]).buffer,
        ) by {
            if m < i {
                assert(rest.tabs[m] == v.tabs[m]);
            } else {
                assert(rest.tabs[m] == v.tabs[m + 1]);
            }
        }
        assert forall|m: int| 0 <= m < rest.tabs.len() implies !same_path(
            (#[trigger] rest.tabs[m]).path,
            v.active->0,
        ) by {
            if m < i {
                assert(rest.tabs[m] == v.tabs[m]);
                assert(!same_path(v.tabs[m].path, v.tabs[i].path));
            } else {
                assert(rest.tabs[m] == v.tabs[m + 1]);
                assert(!same_path(v.tabs[i].path, v.tabs[m + 1].path));
            }
        }
        lemma_tab_from(rest.tabs, v.active->0, 0);
        assert(active_tab(rest) is None);
        assert(synced(rest) == rest);
        lemma_tab_from(rest.tabs, next.path, 0);
        let found = tab_from(rest.tabs, next.path, 0);
        assert(found == Some(at)) by {
            if found is None {
                assert(!same_path(rest.tabs[at].path, next.path));
            } else if found->0 < at {
                let f = found->0;
                let a = if f < i {
                    f
                } else {
                    f + 1
                };
                let b = if at < i {
                    at
                } else {
                    at + 1
                };
                assert(rest.tabs[f] == v.tabs[a]);
                assert(rest.tabs[at] == v.tabs[b]);
                assert(!same_path(v.tabs[a].path, v.tabs[b].path));
            } else if found->0 > at {
                assert(!same_path(rest.tabs[at].path, next.path));
            }
        }
        law_open_note_is_edited_on(rest, next.path, Err(Seq::empty()), Seq::empty(), at);
    }
}

/// After a change the note is as it was changed, its tab tells whether it differs from what
/// was saved, and no other tab changes; the action is told with the note's name.
pub proof fn law_change_marks_the_notes_tab(v: ShellView, action: Seq<char>, i: int)
    requires
        sound(v),
        0 <= i < v.tabs.len(),
    ensures
        ({
            let after = after_change(v, action);
            &&& after.document == v.document
            &&& after.active == v.active
            &&& after.tabs.len() == v.tabs.len()
            &&& active_tab(v) == Some(i) ==> after.tabs[i].dirty == (v.document.state_marker
                != v.document.saved_marker) && after.tabs[i].path == v.tabs[i].path
                && after.tabs[i].label == v.tabs[i].label
            &&& active_tab(v) != Some(i) ==> after.tabs[i] == v.tabs[i]
            &&& after.message == action + " "@ + shown_active(v)
        }),
{
    lemma_tab_from(v.tabs, v.active->0, 0);
}

/// An edit that changed the text is told as a modification; one that did not changes nothing.
pub proof fn law_edit_without_change_is_not_told(v: ShellView, document: BufferView)
    requires
        sound(with_document(v, document)),
    ensures
        after_edit_to(v, document, false) == v,
        after_edit_to(v, document, true).document == document,
        after_edit_to(v, document, true).message == "Modified"@ + " "@ + shown_active(v),
{
}

/// Where nothing is open, nothing is saved or read anew; where writing or reading failed, the
/// error is told. Nothing else changes.
pub proof fn law_failed_file_work_is_only_told(
    v: ShellView,
    error: String,
    index: IndexView,
    path: Seq<char>,
    target: Seq<char>,
    scan: Result<VaultScan, String>,
    pieces: Seq<Seq<char>>,
    first_note: Result<Seq<char>, Seq<char>>,
)
    ensures
        v.active is None ==> only_says(v, note_saved(v, Ok(()), index), "No file open"@),
        v.active is None ==> only_says(v, reloaded(v, Err(error@), pieces), "No file open"@),
        v.active is Some ==> only_says(v, note_saved(v, Err(error), index), error@),
        v.active is Some ==> only_says(v, reloaded(v, Err(error@), pieces), error@),
        only_says(v, note_renamed(v, path, target, Err(error), scan), error@),
        only_says(v, note_deleted(v, path, Err(error), scan, first_note, pieces), error@),
        only_says(
            v,
            note_created(v, path, Err(error), scan, first_note, pieces),
            error@,
        ),
        only_says(v, moved_vault(v, Err(error), scan, first_note, Ok(()), pieces), error@),
{
}

/// Saving keeps every other note and the text, and is told with the note's name.
pub proof fn law_saving_keeps_the_rest(v: ShellView, index: IndexView, i: int)
    requires
        sound(v),
        v.active is Some,
        0 <= i < v.tabs.len(),
    ensures
        ({
            let after = note_saved(v, Ok(()), index);
            &&& same_notes(v, after)
            &&& after.active == v.active
            &&& after.document.text == v.document.text
            &&& after.document.at == v.document.at
            &&& after.document.undo == v.document.undo
            &&& !same_path(v.tabs[i].path, v.active->0) ==> after.tabs[i] == v.tabs[i]
            &&& v.tree is Some ==> after.index == index
            &&& after.message == "Saved "@ + shown_path(v, v.active->0)
        }),
{
}

/// Reading the note anew puts what is on disk in its place, clean, in the editor and in its
/// tab; all other tabs stay.
pub proof fn law_reloaded_note_is_as_on_disk(
    v: ShellView,
    text: Seq<char>,
    pieces: Seq<Seq<char>>,
    i: int,
)
    requires
        sound(v),
        active_tab(v) is Some,
        0 <= i < v.tabs.len(),
    ensures
        ({
            let after = reloaded(v, Ok(text), pieces);
            &&& after.document.text == text
            &&& !changed_since_saved(after.document)
            &&& after.active == v.active
            &&& same_notes(v, after)
            &&& active_tab(v) == Some(i) ==> after.tabs[i].buffer == after.document
                && !after.tabs[i].dirty
            &&& active_tab(v) != Some(i) ==> after.tabs[i] == v.tabs[i]
        }),
{
    lemma_tab_from(v.tabs, v.active->0, 0);
}

/// After a rename every tab of the note has the new path and its name, and the text that it
/// had; the note that is edited stays the one that is edited. All other tabs stay.
pub proof fn law_renamed_note_keeps_its_text(
    v: ShellView,
    source: Seq<char>,
    target: Seq<char>,
    scan: Result<VaultScan, String>,
    i: int,
)
    requires
        0 <= i < v.tabs.len(),
    ensures
        ({
            let after = note_renamed(v, source, target, Ok(()), scan);
            &&& after.tabs.len() == v.tabs.len()
            &&& after.document == v.document
            &&& same_path(v.tabs[i].path, source) ==> after.tabs[i].path == target
                && after.tabs[i].label == shown_path(v, target) && after.tabs[i].buffer
                == v.tabs[i].buffer && after.tabs[i].dirty == v.tabs[i].dirty
            &&& !same_path(v.tabs[i].path, source) ==> after.tabs[i] == v.tabs[i]
            &&& v.active matches Some(path) ==> (same_path(path, source) ==> after.active == Some(
                target,
            )) && (!same_path(path, source) ==> after.active == v.active)
            &&& v.active is None ==> after.active is None
            &&& after.selected == Some(target)
            &&& after.message == "Renamed "@ + shown_path(v, target)
        }),
{
    let after = note_renamed(v, source, target, Ok(()), scan);
    assert(after.tabs[i].path == target || !same_path(v.tabs[i].path, source));
}

/// A rename is asked for just where a note is chosen and its new path, with Markdown's
/// ending, lies in the vault and is another one.
pub proof fn law_rename_is_planned_where_it_can_be(v: ShellView, target: Seq<char>)
    ensures
        chosen_note(v) matches Some(source) ==> (lies_in(note_path(target), v.root) && !same_path(
            source,
            note_path(target),
        ) ==> rename_plan(v, target) == Ok::<(Seq<char>, Seq<char>), Seq<char>>(
            (source, note_path(target)),
        )),
        rename_plan(v, target) is Ok ==> chosen_note(v) is Some,
        chosen_note(v) is None ==> rename_plan(v, target) == Err::<
            (Seq<char>, Seq<char>),
            Seq<char>,
        >("Select a note to rename"@),
{
}

/// A deletion is asked for just where a note is chosen that no tab holds unsaved.
pub proof fn law_deletion_is_planned_where_it_can_be(v: ShellView, i: int)
    ensures
        chosen_note(v) is None ==> delete_plan(v) is Err,
        delete_plan(v) matches Ok(path) ==> chosen_note(v) == Some(path) && (0 <= i < v.tabs.len()
            && same_path(v.tabs[i].path, path) ==> !v.tabs[i].dirty),
        chosen_note(v) matches Some(path) ==> ((forall|k: int|
            0 <= k < v.tabs.len() && same_path((#[trigger] v.tabs[k]).path, path)
                ==> !v.tabs[k].dirty) ==> delete_plan(v) == Ok::<Seq<char>, Seq<char>>(path)),
{
}

/// The note that a command acts on is the selected one, where that is a note; the one being
/// edited only where nothing is selected.
pub proof fn law_selected_note_is_chosen(v: ShellView)
    ensures
        v.selected matches Some(path) ==> (is_note(path) ==> chosen_note(v) == Some(path)) && (
        !is_note(path) ==> chosen_note(v) is None),
        v.selected is None ==> chosen_note(v) == v.active,
{
}

/// A new note goes to the selected directory, else beside the selected file, else beside the
/// edited note, and else to the vault's root.
pub proof fn law_new_note_goes_beside_what_is_selected(v: ShellView, selected_is_dir: bool)
    ensures
        v.selected matches Some(path) ==> (selected_is_dir ==> new_note_directory(
            v,
            selected_is_dir,
        ) == path),
        v.selected matches Some(path) ==> (!selected_is_dir ==> (parent_of(path) matches Some(
            directory,
        ) ==> new_note_directory(v, selected_is_dir) == directory)),
        v.selected is None ==> (v.active matches Some(path) ==> (parent_of(path) matches Some(
            directory,
        ) ==> new_note_directory(v, selected_is_dir) == directory)),
        v.selected is None && v.active is None ==> new_note_directory(v, selected_is_dir) == v.root,
{
}

proof fn lemma_tabs_left(tabs: Seq<TabView>, path: Seq<char>, upto: int, i: int)
    requires
        0 <= i < upto <= tabs.len(),
        !same_path(tabs[i].path, path),
    ensures
        tabs_without(tabs, path, upto).contains(tabs[i]),
    decreases upto,
{
    let left = tabs_without(tabs, path, upto);
    if i == upto - 1 {
        assert(left.last() == tabs[i]);
    } else {
        lemma_tabs_left(tabs, path, upto - 1, i);
        let before = tabs_without(tabs, path, upto - 1);
        let k = choose|k: int| 0 <= k < before.len() && before[k] == tabs[i];
        assert(left[k] == tabs[i]);
    }
}

proof fn lemma_no_tab_of(tabs: Seq<TabView>, path: Seq<char>, upto: int, k: int)
    requires
        0 <= upto <= tabs.len(),
        0 <= k < tabs_without(tabs, path, upto).len(),
    ensures
        !same_path(tabs_without(tabs, path, upto)[k].path, path),
        tabs.contains(tabs_without(tabs, path, upto)[k]),
    decreases upto,
{
    if upto > 0 {
        let before = tabs_without(tabs, path, upto - 1);
        if k < before.len() {
            lemma_no_tab_of(tabs, path, upto - 1, k);
        } else {
            assert(tabs_without(tabs, path, upto)[k] == tabs[upto - 1]);
        }
    }
}

/// The tabs without a note are all those that show another, and no others.
pub proof fn law_other_tabs_stay(tabs: Seq<TabView>, path: Seq<char>, i: int, k: int)
    ensures
        0 <= i < tabs.len() && !same_path(tabs[i].path, path) ==> tabs_without(
            tabs,
            path,
            tabs.len() as int,
        ).contains(tabs[i]),
        0 <= k < tabs_without(tabs, path, tabs.len() as int).len() ==> !same_path(
            tabs_without(tabs, path, tabs.len() as int)[k].path,
            path,
        ) && tabs.contains(tabs_without(tabs, path, tabs.len() as int)[k]),
{
    if 0 <= i < tabs.len() && !same_path(tabs[i].path, path) {
        lemma_tabs_left(tabs, path, tabs.len() as int, i);
    }
    if 0 <= k < tabs_without(tabs, path, tabs.len() as int).len() {
        lemma_no_tab_of(tabs, path, tabs.len() as int, k);
    }
}

/// A note that was deleted is open no more, and every other note still is. Where another note
/// is being edited, it stays so; otherwise the last tab is edited where one is left.
pub proof fn law_deleted_note_is_closed(
    v: ShellView,
    path: Seq<char>,
    scan: Result<VaultScan, String>,
    first_note: Result<Seq<char>, Seq<char>>,
    pieces: Seq<Seq<char>>,
    i: int,
)
    requires
        !is_active(v, path) || tabs_without(v.tabs, path, v.tabs.len() as int).len() > 0,
    ensures
        ({
            let after = note_deleted(v, path, Ok(()), scan, first_note, pieces);
            &&& forall|k: int|
                0 <= k < after.tabs.len() ==> !same_path((#[trigger] after.tabs[k]).path, path)
            &&& 0 <= i < v.tabs.len() && !same_path(v.tabs[i].path, path) ==> after.tabs.contains(
                v.tabs[i],
            )
            &&& !is_active(v, path) ==> after.document == v.document && after.active == v.active
                && after.selected is None
            &&& is_active(v, path) ==> after.active == Some(after.tabs.last().path)
                && after.document == after.tabs.last().buffer
            &&& after.message == "Deleted "@ + shown_path(v, path)
        }),
{
    let after = note_deleted(v, path, Ok(()), scan, first_note, pieces);
    let left = tabs_without(v.tabs, path, v.tabs.len() as int);
    assert(after.tabs == left);
    assert forall|k: int| 0 <= k < after.tabs.len() implies !same_path(
        (#[trigger] after.tabs[k]).path,
        path,
    ) by {
        law_other_tabs_stay(v.tabs, path, 0, k);
    }
    law_other_tabs_stay(v.tabs, path, i, 0);
}

/// A change on disk that does not concern the edited note leaves it; one that does, or that
/// names no path, reads it anew where nothing is unsaved, and closes it where it is gone.
pub proof fn law_changes_on_disk_reach_the_clean_note(
    v: ShellView,
    paths: Seq<Seq<char>>,
    scan: Result<VaultScan, String>,
    text: Seq<char>,
    pieces: Seq<Seq<char>>,
)
    requires
        sound(v),
        active_tab(v) is Some,
        !has_unsaved_tab(v, v.active->0),
    ensures
        paths.len() == 0 || concerns(paths, v.active->0) ==> vault_changed(
            v,
            paths,
            scan,
            Some(Ok(text)),
            pieces,
        ).document.text == text,
        paths.len() > 0 && !concerns(paths, v.active->0) ==> vault_changed(
            v,
            paths,
            scan,
            Some(Ok(text)),
            pieces,
        ).document == v.document,
        paths.len() == 0 || concerns(paths, v.active->0) ==> forall|k: int|
            0 <= k < vault_changed(v, paths, scan, None, pieces).tabs.len() ==> !same_path(
                (#[trigger] vault_changed(v, paths, scan, None, pieces).tabs[k]).path,
                v.active->0,
            ),
{
    let gone = vault_changed(v, paths, scan, None, pieces);
    if paths.len() == 0 || concerns(paths, v.active->0) {
        assert(gone.tabs == tabs_without(v.tabs, v.active->0, v.tabs.len() as int));
        assert forall|k: int| 0 <= k < gone.tabs.len() implies !same_path(
            (#[trigger] gone.tabs[k]).path,
            v.active->0,
        ) by {
            law_other_tabs_stay(v.tabs, v.active->0, 0, k);
        }
    }
}

/// A change concerns a note where it is at the note's own path, above it or below it.
pub proof fn law_change_at_the_notes_path_concerns_it(
    paths: Seq<Seq<char>>,
    note: Seq<char>,
    i: int,
)
    requires
        0 <= i < paths.len(),
        lies_in(note, paths[i]) || lies_in(paths[i], note) || same_path(paths[i], note),
    ensures
        concerns(paths, note),
{
    assert(lies_in(note, paths[i]) || lies_in(paths[i], note));
}

/// What is left when the edited note is gone: no tab of it, and the last tab being edited or,
/// without one, nothing.
pub proof fn law_missing_note_gives_way(v: ShellView, path: Seq<char>)
    ensures
        ({
            let after = missing_closed(v, path);
            let left = tabs_without(v.tabs, path, v.tabs.len() as int);
            &&& after.tabs == left
            &&& left.len() > 0 ==> after.active == Some(left.last().path) && after.document
                == left.last().buffer
            &&& left.len() == 0 ==> after.active is None && after.document.text.len() == 0
                && after.selected is None
            &&& after.message == "Closed missing "@ + shown_path(v, path)
        }),
{
}

proof fn lemma_folder_stays(folders: Seq<Seq<char>>, path: Seq<char>, upto: int, other: Seq<char>)
    requires
        0 <= upto <= folders.len(),
    ensures
        folders_without(folders, path, upto).contains(other) <==> !same_path(other, path)
            && exists|i: int| 0 <= i < upto && #[trigger] folders[i] == other,
    decreases upto,
{
    if upto > 0 {
        lemma_folder_stays(folders, path, upto - 1, other);
        let before = folders_without(folders, path, upto - 1);
        let after = folders_without(folders, path, upto);
        let last = folders[upto - 1];
        if !same_path(last, path) {
            assert(after == before.push(last));
            if before.contains(other) {
                let k = choose|k: int| 0 <= k < before.len() && before[k] == other;
                assert(after[k] == other);
            }
            if last == other {
                assert(after[before.len() as int] == other);
            }
            if after.contains(other) {
                let k = choose|k: int| 0 <= k < after.len() && after[k] == other;
                if k < before.len() {
                    assert(before[k] == other);
                }
            }
        }
    }
}

/// A folder that is closed is among the open ones no more, and all others still are; one that
/// is opened is, and no note changes in either case.
pub proof fn law_folders_open_and_close_alone(v: ShellView, path: Seq<char>, other: Seq<char>)
    requires
        !same_path(other, path),
    ensures
        ({
            let after = toggled(v, path);
            &&& lists_path(after.expanded, path) <==> !lists_path(v.expanded, path)
            &&& after.expanded.contains(other) <==> v.expanded.contains(other)
            &&& after.document == v.document
            &&& after.tabs == v.tabs
            &&& after.active == v.active
            &&& lists_path(v.expanded, path) ==> after.message == "Collapsed "@ + shown_path(v, path)
            &&& !lists_path(v.expanded, path) ==> after.message == "Expanded "@ + shown_path(
                v,
                path,
            )
        }),
{
    let after = toggled(v, path);
    let n = v.expanded.len() as int;
    if lists_path(v.expanded, path) {
        lemma_folder_stays(v.expanded, path, n, other);
        if lists_path(after.expanded, path) {
            let k = choose|k: int|
                0 <= k < after.expanded.len() && same_path(#[trigger] after.expanded[k], path);
            lemma_folder_stays(v.expanded, path, n, after.expanded[k]);
            assert(folders_without(v.expanded, path, n).contains(after.expanded[k]));
        }
    } else {
        assert(after.expanded[n] == path);
        if v.expanded.contains(other) {
            let k = choose|k: int| 0 <= k < n && v.expanded[k] == other;
            assert(after.expanded[k] == other);
        }
        if after.expanded.contains(other) {
            let k = choose|k: int| 0 <= k < after.expanded.len() && after.expanded[k] == other;
            assert(k < n);
            assert(v.expanded[k] == other);
        }
    }
}

/// Choosing a row selects what it shows: a folder opens or closes and no note changes, a note
/// is opened. Rows that are not there choose nothing.
pub proof fn law_row_leads_to_what_it_shows(
    v: ShellView,
    row: int,
    read: Result<Seq<char>, Seq<char>>,
    pieces: Seq<Seq<char>>,
)
    ensures
        !(0 <= row < v.files.len()) ==> row_chosen(v, row, read, pieces) == v,
        0 <= row < v.files.len() && v.files[row].1.kind is Folder ==> ({
            let after = row_chosen(v, row, read, pieces);
            &&& after.selected == Some(v.files[row].1.path)
            &&& after.document == v.document
            &&& after.active == v.active
            &&& lists_path(after.expanded, v.files[row].1.path) <==> !lists_path(
                v.expanded,
                v.files[row].1.path,
            )
        }),
        0 <= row < v.files.len() && v.files[row].1.kind is Markdown ==> row_chosen(
            v,
            row,
            read,
            pieces,
        ) == opened(
            ShellView { selected: Some(v.files[row].1.path), ..v },
            v.files[row].1.path,
            read,
            pieces,
        ),
{
    if 0 <= row < v.files.len() && v.files[row].1.kind is Folder {
        let path = v.files[row].1.path;
        let chosen = ShellView { selected: Some(path), ..v };
        let n = v.expanded.len() as int;
        let after = toggled(chosen, path);
        if lists_path(v.expanded, path) {
            if lists_path(after.expanded, path) {
                let k = choose|k: int|
                    0 <= k < after.expanded.len() && same_path(#[trigger] after.expanded[k], path);
                lemma_folder_stays(v.expanded, path, n, after.expanded[k]);
                assert(folders_without(v.expanded, path, n).contains(after.expanded[k]));
            }
        } else {
            assert(after.expanded[n] == path);
        }
    }
}

/// A search of the vault brings its tree and its index, keeps the notes that are open, and
/// tells how many rows there are; one that failed empties the tree and tells the error.
pub proof fn law_search_keeps_open_notes(v: ShellView, scan: Result<VaultScan, String>)
    ensures
        ({
            let after = refreshed(v, scan);
            &&& after.document == v.document
            &&& after.tabs == v.tabs
            &&& after.active == v.active
            &&& after.selected == v.selected
            &&& after.root == v.root
            &&& scan matches Ok(found) ==> after.tree == Some(found.tree) && after.index
                == found.index@ && after.message == decimal(after.files.len())
                + " visible entries"@
            &&& scan matches Err(error) ==> after.tree is None && after.files.len() == 0
                && after.index == IndexView::nothing() && after.message == error@
        }),
{
}

/// Another vault starts anew: nothing of the old one is open or selected, and its first note
/// is edited where it has one that can be read.
pub proof fn law_other_vault_starts_anew(
    v: ShellView,
    root: String,
    scan: Result<VaultScan, String>,
    text: Seq<char>,
    remembered: Result<(), String>,
    pieces: Seq<Seq<char>>,
)
    ensures
        ({
            let after = moved_vault(v, Ok(root), scan, Ok(text), remembered, pieces);
            &&& after.root == root@
            &&& after.tabs.len() <= 1
            &&& after.active is Some ==> after.document.text == text && after.tabs.len() == 1
                && Some(after.tabs[0].path) == after.active
            &&& after.active is None ==> after.tabs.len() == 0
            &&& !changed_since_saved(after.document)
        }),
{
}

/// A new note is edited with the cursor at its end, and the folder that it is in is open.
pub proof fn law_created_note_is_edited_at_its_end(
    v: ShellView,
    path: Seq<char>,
    scan: Result<VaultScan, String>,
    text: Seq<char>,
    pieces: Seq<Seq<char>>,
)
    requires
        sound(v),
        tab_from(v.tabs, path, 0) is None,
    ensures
        ({
            let after = note_created(v, path, Ok(()), scan, Ok(text), pieces);
            &&& after.active == Some(path)
            &&& after.document.text == text
            &&& after.document.at.cursor == text.len()
            &&& after.document.at.anchor is None
            &&& after.tabs.len() == v.tabs.len() + 1
            &&& after.tabs.last().path == path
            &&& parent_of(path) matches Some(directory) ==> lists_path(after.expanded, directory)
        }),
{
    let found = refreshed(v, scan);
    let unfolded = match parent_of(path) {
        Some(directory) => relisted(
            ShellView { expanded: folders_with(found.expanded, directory), ..found },
        ),
        None => found,
    };
    if let Some(directory) = parent_of(path) {
        if !lists_path(found.expanded, directory) {
            assert(unfolded.expanded[found.expanded.len() as int] == directory);
        }
        assert(lists_path(unfolded.expanded, directory));
    }
    lemma_tab_from(v.tabs, v.active->0, 0);
    lemma_tab_from(v.tabs, path, 0);
    let s = synced(unfolded);
    lemma_tab_from(s.tabs, path, 0);
    if let Some(k) = tab_from(s.tabs, path, 0) {
        assert(s.tabs[k].path == v.tabs[k].path);
        assert(!same_path(v.tabs[k].path, path));
    }
}

/// Only a note of the vault is opened by its path: anything else is told and left alone.
pub proof fn law_only_notes_of_the_vault_are_opened(
    v: ShellView,
    path: Seq<char>,
    found: NoteOnDisk,
    pieces: Seq<Seq<char>>,
)
    ensures
        !is_note(path) ==> only_says(
            v,
            note_opened(v, path, found, pieces),
            "Select a markdown note"@,
        ),
        is_note(path) && !lies_in(path, v.root) ==> only_says(
            v,
            note_opened(v, path, found, pieces),
            "Note must stay inside vault"@,
        ),
        is_note(path) && lies_in(path, v.root) ==> (found matches NoteOnDisk::Missing(scan)
            ==> note_opened(v, path, found, pieces).document == v.document && note_opened(
            v,
            path,
            found,
            pieces,
        ).active == v.active),
{
}

/// A note of the vault that is on disk is edited as it was read, where it was not open.
pub proof fn law_note_of_the_vault_is_opened(
    v: ShellView,
    path: Seq<char>,
    text: String,
    pieces: Seq<Seq<char>>,
)
    requires
        sound(v),
        is_note(path),
        lies_in(path, v.root),
        tab_from(v.tabs, path, 0) is None,
    ensures
        ({
            let after = note_opened(v, path, NoteOnDisk::Present(Ok(text)), pieces);
            &&& after.active == Some(path)
            &&& after.document.text == text@
            &&& after.tabs.len() == v.tabs.len() + 1
            &&& after.expanded == folders_above(v.expanded, parent_of(path), v.root)
        }),
{
    let unfolded = relisted(
        ShellView { expanded: folders_above(v.expanded, parent_of(path), v.root), ..v },
    );
    lemma_tab_from(v.tabs, v.active->0, 0);
    lemma_tab_from(v.tabs, path, 0);
    let s = synced(unfolded);
    lemma_tab_from(s.tabs, path, 0);
    if let Some(k) = tab_from(s.tabs, path, 0) {
        assert(s.tabs[k].path == v.tabs[k].path);
        assert(!same_path(v.tabs[k].path, path));
    }
}

/// Opening the folders above a note closes none, and the nearest one is open where it lies in
/// the vault.
pub proof fn law_folders_above_a_note_are_open(
    folders: Seq<Seq<char>>,
    directory: Seq<char>,
    root: Seq<char>,
)
    ensures
        folders.is_prefix_of(folders_above(folders, Some(directory), root)),
        lies_in(directory, root) ==> lists_path(
            folders_above(folders, Some(directory), root),
            directory,
        ),
        !lies_in(directory, root) ==> folders_above(folders, Some(directory), root) == folders,
    decreases directory.len(),
{
    if lies_in(directory, root) {
        let with = folders_with(folders, directory);
        if !lists_path(folders, directory) {
            assert(with[folders.len() as int] == directory);
        }
        assert(lists_path(with, directory));
        assert(folders.is_prefix_of(with));
        if !same_path(directory, root) {
            lemma_parent_is_shorter(directory);
            let all = folders_above(with, parent_of(directory), root);
            if let Some(above) = parent_of(directory) {
                law_folders_above_a_note_are_open(with, above, root);
            }
            assert(with.is_prefix_of(all));
            let k = choose|k: int| 0 <= k < with.len() && same_path(#[trigger] with[k], directory);
            assert(all[k] == with[k]);
        }
    }
}

/// Scrolling goes by as many lines as it says, to the first and the last line at most.
pub proof fn law_scrolling_goes_by_lines(v: ShellView, delta: int)
    requires
        shell_wf(v),
    ensures
        ({
            let to = scrolled_start(v, delta);
            let wanted = v.start_line + delta;
            &&& 0 <= wanted < line_count(v.document.text) ==> to == wanted
            &&& wanted < 0 ==> to == 0
            &&& wanted >= line_count(v.document.text) ==> to == line_count(v.document.text) - 1
        }),
{
    lemma_lines(v.document.text, 0);
}

/// The shown lines stay where they are while the cursor is more than eight lines from their
/// ends; the note stays in any case.
pub proof fn law_shown_lines_stay_while_the_cursor_is_within(v: ShellView)
    requires
        shell_wf(v),
    ensures
        v.start_line + 8 <= cursor_line(v) && cursor_line(v) + 8 < v.start_line + 72 && 72
            <= line_count(v.document.text) ==> followed(v) == v,
        followed(v).document == v.document,
        followed(v).tabs == v.tabs,
        followed(v).active == v.active,
        cursor_line(v) < v.start_line && cursor_line(v) >= 8 ==> followed_start(v) == cursor_line(v)
            - 8,
        cursor_line(v) < v.start_line && cursor_line(v) < 8 ==> followed_start(v) == 0,
{
}

/// Typed text replaces the range that is given, else the marked one, else what is selected,
/// and else nothing, at the cursor.
pub proof fn law_given_range_comes_before_the_marked(
    v: ShellView,
    range: Range<usize>,
    start: int,
    end: int,
)
    ensures
        replaced_range(v, Some(range), start, end) ==> utf16_falls_on(
            v.document.text,
            range.start as int,
            start,
        ) && utf16_falls_on(v.document.text, range.end as int, end),
        v.marked matches Some((from, to)) ==> (replaced_range(v, None, start, end) <==> start == from
            && end == to),
        v.marked is None ==> (selection_of(v.document) matches Some((from, to)) ==> (
        replaced_range(v, None, start, end) <==> start == from && end == to)),
        v.marked is None && selection_of(v.document) is None ==> (replaced_range(
            v,
            None,
            start,
            end,
        ) <==> start == v.document.at.cursor && end == start),
{
}

/// A link opens the note that the index names for it. It asks for a new note only where the
/// index names none, and does so just where the path that the link stands for lies in the
/// vault.
pub proof fn law_link_leads_to_its_note(v: ShellView, link: Seq<char>)
    ensures
        v.index.note_of(link) matches Some(path) ==> link_plan(v, link) == LinkPlan::Open(path),
        v.index.note_of(link) is None ==> link_plan(v, link) !is Open,
        v.index.note_of(link) is None ==> (new_link_path(v.root, v.active, link) matches Some(path)
            ==> (link_plan(v, link) is Create <==> lies_in(path, v.root))),
        v.index.note_of(link) is None && new_link_path(v.root, v.active, link) is None
            ==> link_plan(v, link) is Invalid,
{
}

/// A tab that is shown is edited as it holds its note, from the first line on.
pub proof fn law_shown_tab_is_edited(v: ShellView, i: int)
    requires
        sound(v),
        0 <= i < v.tabs.len(),
    ensures
        ({
            let after = tab_shown(v, i);
            &&& after.document == v.tabs[i].buffer
            &&& after.active == Some(v.tabs[i].path)
            &&& after.selected == Some(v.tabs[i].path)
            &&& after.tabs == v.tabs
            &&& after.marked is None
            &&& after.start_line == 0
            &&& after.message == "Opened "@ + v.tabs[i].label
        }),
{
    lemma_lines(v.tabs[i].buffer.text, 0);
}

/// At first nothing is open, selected or shown.
pub proof fn law_editor_starts_empty(root: Seq<char>)
    ensures
        ({
            let v = at_rest(root);
            &&& v.root == root
            &&& v.tabs.len() == 0
            &&& v.active is None
            &&& v.selected is None
            &&& v.files.len() == 0
            &&& v.document.text.len() == 0
            &&& !changed_since_saved(v.document)
            &&& v.marked is None
        }),
{
}

/// Replacing a range changes the note just where its text is then another, and leaves it as it
/// is otherwise.
pub proof fn law_replacing_counts_where_the_text_changes(
    document: BufferView,
    start: int,
    end: int,
    text: Seq<char>,
    pieces: Seq<Seq<char>>,
)
    requires
        buffer_wf(document),
        0 <= start <= end,
    ensures
        replacing_changes(document, start, end, text) <==> replaced(
            document,
            start,
            end,
            text,
            pieces,
        ).text != document.text,
        start <= end <= document.text.len() && document.text.subrange(start, end) != text
            ==> range_replaced(
            document,
            start,
            end,
            text,
            replaced(document, start, end, text, pieces),
        ),
{
    let n = document.text.len() as int;
    let a = if start <= n {
        start
    } else {
        n
    };
    let b = if end <= n {
        end
    } else {
        n
    };
    law_edit_replaces_the_range(document, a, b, text, pieces);
}

/// The link under a line and column is that of the line as it is shown; beyond the last line
/// there is none.
pub proof fn law_link_is_looked_for_on_its_line(v: ShellView, line: int, column: int)
    ensures
        0 <= line < line_count(v.document.text) ==> link_under(v, line, column) == target_at(
            shown_line(v.document.text, line),
            0,
            column,
        ),
        line >= line_count(v.document.text) ==> link_under(v, line, column) is None,
{
}

/// Another vault is shown in the same way whatever was open, selected or unfolded in the one
/// before.
pub proof fn law_other_vault_forgets_the_old(
    v: ShellView,
    w: ShellView,
    root: String,
    scan: Result<VaultScan, String>,
    first_note: Result<Seq<char>, Seq<char>>,
    remembered: Result<(), String>,
    pieces: Seq<Seq<char>>,
)
    ensures
        ({
            let a = moved_vault(v, Ok(root), scan, first_note, remembered, pieces);
            let b = moved_vault(w, Ok(root), scan, first_note, remembered, pieces);
            &&& a.root == b.root
            &&& a.selected == b.selected
            &&& a.expanded == b.expanded
            &&& a.tree == b.tree
            &&& a.index == b.index
            &&& a.files == b.files
            &&& a.tabs == b.tabs
            &&& a.active == b.active
        }),
{
}

} // verus!
