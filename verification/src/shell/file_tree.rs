//! The notes of a vault as a tree with folders that open and close.

use vstd::prelude::*;

use crate::paths::{contains_path, is_markdown_path};
use crate::workspace::{WorkspaceEntry, WorkspaceEntryKind, WorkspaceTree};

verus! {

broadcast use vstd::string::group_string_axioms;

use crate::paths::{is_note, lists_path, same_path};
use crate::text::texts;

/// What a row of the tree is.
#[derive(Clone, Copy, Debug, PartialEq, Eq, Structural)]
pub enum FileKind {
    Folder,
    Markdown,
}

/// A row of the tree.
#[derive(Clone, Debug, PartialEq, Eq)]
pub struct FileEntry {
    pub id: usize,
    pub path: String,
    pub label: String,
    pub depth: usize,
    pub kind: FileKind,
    pub expanded: bool,
    pub has_children: bool,
}

/// A row of the tree, but for its number, which [`numbered`] states of a whole list.
pub struct FileRow {
    pub path: Seq<char>,
    pub label: Seq<char>,
    pub depth: int,
    pub kind: FileKind,
    pub expanded: bool,
    pub has_children: bool,
}

impl View for FileEntry {
    type V = FileRow;

    open spec fn view(&self) -> FileRow {
        FileRow {
            path: self.path@,
            label: self.label@,
            depth: self.depth as int,
            kind: self.kind,
            expanded: self.expanded,
            has_children: self.has_children,
        }
    }
}

/// The rows that a list shows.
pub open spec fn rows_of(files: Seq<FileEntry>) -> Seq<FileRow> {
    Seq::new(files.len(), |i: int| files[i]@)
}

/// Whether every row is numbered by its place.
pub open spec fn numbered(files: Seq<FileEntry>) -> bool {
    forall|i: int| 0 <= i < files.len() ==> (#[trigger] files[i]).id == i
}

/// Whether an entry is a note or holds one.
pub open spec fn holds_note(entry: WorkspaceEntry) -> bool
    decreases entry, 0nat,
{
    match entry.kind {
        WorkspaceEntryKind::File => is_note(entry.path@),
        WorkspaceEntryKind::Directory => any_holds_note(entry.children@, 0),
    }
}

/// Whether one of the entries from `from` on is a note or holds one.
pub open spec fn any_holds_note(entries: Seq<WorkspaceEntry>, from: int) -> bool
    decreases entries, (entries.len() - from) as nat,
{
    if 0 <= from < entries.len() {
        holds_note(entries[from]) || any_holds_note(entries, from + 1)
    } else {
        false
    }
}

/// How deep the directories of an entry lie within one another.
pub open spec fn height_of(entry: WorkspaceEntry) -> nat
    decreases entry, 0nat,
{
    1 + most_height(entry.children@, 0)
}

/// The greatest height of the entries from `from` on.
pub open spec fn most_height(entries: Seq<WorkspaceEntry>, from: int) -> nat
    decreases entries, (entries.len() - from) as nat,
{
    if 0 <= from < entries.len() {
        if height_of(entries[from]) > most_height(entries, from + 1) {
            height_of(entries[from])
        } else {
            most_height(entries, from + 1)
        }
    } else {
        0
    }
}

/// The rows of an entry: none where it holds no note; a folder's, and below it those of
/// its entries where it is open; a note's.
pub open spec fn rows_for(
    entry: WorkspaceEntry,
    depth: int,
    expanded: Seq<Seq<char>>,
) -> Seq<FileRow>
    decreases entry, 0nat,
{
    if !holds_note(entry) {
        Seq::empty()
    } else {
        match entry.kind {
            WorkspaceEntryKind::Directory => {
                let folder = FileRow {
                    path: entry.path@,
                    label: entry.name@,
                    depth,
                    kind: FileKind::Folder,
                    expanded: lists_path(expanded, entry.path@),
                    has_children: any_holds_note(entry.children@, 0),
                };
                if lists_path(expanded, entry.path@) {
                    seq![folder] + rows_for_all(entry.children@, 0, depth + 1, expanded)
                } else {
                    seq![folder]
                }
            },
            WorkspaceEntryKind::File => seq![
                FileRow {
                    path: entry.path@,
                    label: entry.name@,
                    depth,
                    kind: FileKind::Markdown,
                    expanded: false,
                    has_children: false,
                },
            ],
        }
    }
}

/// The rows of the entries from `from` on.
pub open spec fn rows_for_all(
    entries: Seq<WorkspaceEntry>,
    from: int,
    depth: int,
    expanded: Seq<Seq<char>>,
) -> Seq<FileRow>
    decreases entries, (entries.len() - from) as nat,
{
    if 0 <= from < entries.len() {
        rows_for(entries[from], depth, expanded) + rows_for_all(
            entries,
            from + 1,
            depth,
            expanded,
        )
    } else {
        Seq::empty()
    }
}

/// The first note of an entry, from top to bottom.
pub open spec fn first_note(entry: WorkspaceEntry) -> Option<Seq<char>>
    decreases entry, 0nat,
{
    match entry.kind {
        WorkspaceEntryKind::File => if is_note(entry.path@) {
            Some(entry.path@)
        } else {
            None
        },
        WorkspaceEntryKind::Directory => first_note_among(entry.children@, 0),
    }
}

/// The first note of the entries from `from` on.
pub open spec fn first_note_among(entries: Seq<WorkspaceEntry>, from: int) -> Option<Seq<char>>
    decreases entries, (entries.len() - from) as nat,
{
    if 0 <= from < entries.len() {
        match first_note(entries[from]) {
            Some(path) => Some(path),
            None => first_note_among(entries, from + 1),
        }
    } else {
        None
    }
}

/// Whether an entry is a note or holds one.
#[must_use]
pub fn entry_has_markdown(entry: &WorkspaceEntry) -> (r: bool)
    ensures
        r == holds_note(*entry),
    decreases entry, 0nat,
{
    match entry.kind {
        WorkspaceEntryKind::File => is_markdown_path(entry.path.as_str()),
        WorkspaceEntryKind::Directory => {
            let mut i: usize = 0;
            while i < entry.children.len()
                invariant
                    i <= entry.children.len(),
                    entry.kind is Directory,
                    any_holds_note(entry.children@, 0) == any_holds_note(
                        entry.children@,
                        i as int,
                    ),
                decreases entry.children.len() - i,
            {
                assert(decreases_to!(*entry => entry.children));
                assert(decreases_to!(entry.children@ => entry.children@[i as int]));
                if entry_has_markdown(&entry.children[i]) {
                    return true;
                }
                i += 1;
            }
            false
        },
    }
}

proof fn lemma_height(entries: Seq<WorkspaceEntry>, from: int, i: int)
    requires
        0 <= from <= i < entries.len(),
    ensures
        height_of(entries[i]) <= most_height(entries, from),
    decreases entries.len() - from,
{
    if from < i {
        lemma_height(entries, from + 1, i);
    }
}

fn collect_visible_markdown_entries(
    entry: &WorkspaceEntry,
    depth: usize,
    expanded: &Vec<String>,
    entries: &mut Vec<FileEntry>,
)
    requires
        numbered(old(entries)@),
        depth + height_of(*entry) <= usize::MAX,
    ensures
        numbered(final(entries)@),
        rows_of(final(entries)@) == rows_of(old(entries)@) + rows_for(
            *entry,
            depth as int,
            texts(expanded@),
        ),
    decreases entry, 0nat,
{
    let ghost before = rows_of(entries@);
    let ghost wanted = rows_for(*entry, depth as int, texts(expanded@));
    if !entry_has_markdown(entry) {
        assert(before + wanted =~= before);
        return;
    }
    match entry.kind {
        WorkspaceEntryKind::Directory => {
            let has_children = entry_has_markdown(entry);
            let open = contains_path(expanded, entry.path.as_str());
            let id: usize = entries.len();
            let folder = FileEntry {
                id,
                path: entry.path.clone(),
                label: entry.name.clone(),
                depth,
                kind: FileKind::Folder,
                expanded: open,
                has_children,
            };
            let ghost row = folder@;
            entries.push(folder);
            assert(rows_of(entries@) =~= before.push(row));
            if open {
                let ghost top = rows_of(entries@);
                let mut i: usize = 0;
                assert(top + rows_for_all(entry.children@, 0, depth + 1, texts(expanded@)) =~= before
                    + wanted);
                while i < entry.children.len()
                    invariant
                        i <= entry.children.len(),
                        numbered(entries@),
                        depth + height_of(*entry) <= usize::MAX,
                        rows_of(entries@) + rows_for_all(
                            entry.children@,
                            i as int,
                            depth + 1,
                            texts(expanded@),
                        ) == before + wanted,
                    decreases entry.children.len() - i,
                {
                    proof {
                        lemma_height(entry.children@, 0, i as int);
                    }
                    assert(decreases_to!(*entry => entry.children));
                    assert(decreases_to!(entry.children@ => entry.children@[i as int]));
                    let ghost so_far = rows_of(entries@);
                    let ghost rest = rows_for_all(
                        entry.children@,
                        i + 1,
                        depth + 1,
                        texts(expanded@),
                    );
                    let ghost here = rows_for(
                        entry.children@[i as int],
                        depth + 1,
                        texts(expanded@),
                    );
                    collect_visible_markdown_entries(
                        &entry.children[i],
                        depth + 1,
                        expanded,
                        entries,
                    );
                    assert(so_far + (here + rest) =~= (so_far + here) + rest);
                    i += 1;
                }
                assert(rows_of(entries@) + Seq::<FileRow>::empty() =~= rows_of(entries@));
            } else {
                assert(before + wanted =~= before.push(row));
            }
        },
        WorkspaceEntryKind::File => {
            let id: usize = entries.len();
            let note = FileEntry {
                id,
                path: entry.path.clone(),
                label: entry.name.clone(),
                depth,
                kind: FileKind::Markdown,
                expanded: false,
                has_children: false,
            };
            let ghost row = note@;
            entries.push(note);
            assert(rows_of(entries@) =~= before.push(row));
            assert(before + wanted =~= before.push(row));
        },
    }
}

/// The rows of a vault's tree, numbered from top to bottom.
#[must_use]
pub fn visible_markdown_tree(tree: &WorkspaceTree, expanded: &Vec<String>) -> (r: Vec<FileEntry>)
    requires
        most_height(tree.entries@, 0) <= usize::MAX,
    ensures
        numbered(r@),
        rows_of(r@) == rows_for_all(tree.entries@, 0, 0, texts(expanded@)),
{
    let mut entries: Vec<FileEntry> = Vec::new();
    let ghost wanted = rows_for_all(tree.entries@, 0, 0, texts(expanded@));
    let mut i: usize = 0;
    assert(rows_of(entries@) + wanted =~= wanted);
    while i < tree.entries.len()
        invariant
            i <= tree.entries.len(),
            numbered(entries@),
            most_height(tree.entries@, 0) <= usize::MAX,
            rows_of(entries@) + rows_for_all(tree.entries@, i as int, 0, texts(expanded@))
                == wanted,
        decreases tree.entries.len() - i,
    {
        proof {
            lemma_height(tree.entries@, 0, i as int);
        }
        let ghost so_far = rows_of(entries@);
        let ghost rest = rows_for_all(tree.entries@, i + 1, 0, texts(expanded@));
        let ghost here = rows_for(tree.entries@[i as int], 0, texts(expanded@));
        collect_visible_markdown_entries(&tree.entries[i], 0, expanded, &mut entries);
        assert(so_far + (here + rest) =~= (so_far + here) + rest);
        i += 1;
    }
    assert(rows_of(entries@) + Seq::<FileRow>::empty() =~= rows_of(entries@));
    entries
}

/// The first folders that are open: those at the top that hold a note.
pub open spec fn top_folders(entries: Seq<WorkspaceEntry>, upto: int) -> Seq<Seq<char>>
    decreases upto,
{
    if upto <= 0 {
        Seq::empty()
    } else if entries[upto - 1].kind is Directory && holds_note(entries[upto - 1])
        && !lists_path(top_folders(entries, upto - 1), entries[upto - 1].path@) {
        top_folders(entries, upto - 1).push(entries[upto - 1].path@)
    } else {
        top_folders(entries, upto - 1)
    }
}

/// The folders that are open once a vault was found: those that were, or the first ones
/// where none was.
pub open spec fn folders_after_scan(
    expanded: Seq<Seq<char>>,
    entries: Seq<WorkspaceEntry>,
) -> Seq<Seq<char>> {
    if expanded.len() > 0 {
        expanded
    } else {
        top_folders(entries, entries.len() as int)
    }
}

/// Opens the first folders where none is open.
pub fn seed_expanded_dirs(tree: &WorkspaceTree, expanded: &mut Vec<String>)
    ensures
        texts(final(expanded)@) == folders_after_scan(texts(old(expanded)@), tree.entries@),
{
    if expanded.len() > 0 {
        return;
    }
    let mut i: usize = 0;
    assert(texts(expanded@) =~= Seq::empty());
    while i < tree.entries.len()
        invariant
            i <= tree.entries.len(),
            texts(expanded@) == top_folders(tree.entries@, i as int),
        decreases tree.entries.len() - i,
    {
        let entry = &tree.entries[i];
        let is_folder: bool = match entry.kind {
            WorkspaceEntryKind::Directory => true,
            WorkspaceEntryKind::File => false,
        };
        if is_folder && entry_has_markdown(entry) && !contains_path(
            expanded,
            entry.path.as_str(),
        ) {
            let ghost before = expanded@;
            expanded.push(entry.path.clone());
            assert(texts(expanded@) =~= texts(before).push(entry.path@));
        }
        i += 1;
    }
}

/// The first note of a vault.
#[must_use]
pub fn first_markdown_path(tree: &WorkspaceTree) -> (r: Option<String>)
    ensures
        match first_note_among(tree.entries@, 0) {
            Some(path) => r matches Some(s) && s@ == path,
            None => r is None,
        },
{
    let mut i: usize = 0;
    while i < tree.entries.len()
        invariant
            i <= tree.entries.len(),
            first_note_among(tree.entries@, i as int) == first_note_among(tree.entries@, 0),
        decreases tree.entries.len() - i,
    {
        if let Some(path) = first_markdown_entry_path(&tree.entries[i]) {
            return Some(path);
        }
        i += 1;
    }
    None
}

fn first_markdown_entry_path(entry: &WorkspaceEntry) -> (r: Option<String>)
    ensures
        match first_note(*entry) {
            Some(path) => r matches Some(s) && s@ == path,
            None => r is None,
        },
    decreases entry, 0nat,
{
    match entry.kind {
        WorkspaceEntryKind::File => if is_markdown_path(entry.path.as_str()) {
            Some(entry.path.clone())
        } else {
            None
        },
        WorkspaceEntryKind::Directory => {
            let mut i: usize = 0;
            while i < entry.children.len()
                invariant
                    i <= entry.children.len(),
                    entry.kind is Directory,
                    first_note_among(entry.children@, i as int) == first_note_among(
                        entry.children@,
                        0,
                    ),
                decreases entry.children.len() - i,
            {
                assert(decreases_to!(*entry => entry.children));
                assert(decreases_to!(entry.children@ => entry.children@[i as int]));
                if let Some(path) = first_markdown_entry_path(&entry.children[i]) {
                    return Some(path);
                }
                i += 1;
            }
            None
        },
    }
}

proof fn lemma_rows_hold(
    entries: Seq<WorkspaceEntry>,
    from: int,
    depth: int,
    expanded: Seq<Seq<char>>,
    i: int,
    row: FileRow,
)
    requires
        0 <= from <= i < entries.len(),
        rows_for(entries[i], depth, expanded).contains(row),
    ensures
        rows_for_all(entries, from, depth, expanded).contains(row),
    decreases i - from,
{
    let own = rows_for(entries[from], depth, expanded);
    let rest = rows_for_all(entries, from + 1, depth, expanded);
    let all = rows_for_all(entries, from, depth, expanded);
    if from == i {
        let k = choose|k: int| 0 <= k < own.len() && own[k] == row;
        assert(all[k] == row);
    } else {
        lemma_rows_hold(entries, from + 1, depth, expanded, i, row);
        let k = choose|k: int| 0 <= k < rest.len() && rest[k] == row;
        assert(all[own.len() + k] == row);
    }
}

/// Every note has a row under its name, and every folder that holds a note has one that tells
/// whether it is open; what is below an open folder is shown one step deeper.
pub proof fn law_notes_and_their_folders_have_rows(
    entries: Seq<WorkspaceEntry>,
    depth: int,
    expanded: Seq<Seq<char>>,
    i: int,
    row: FileRow,
)
    requires
        0 <= i < entries.len(),
    ensures
        ({
            let rows = rows_for_all(entries, 0, depth, expanded);
            let entry = entries[i];
            let open = lists_path(expanded, entry.path@);
            &&& entry.kind is File && is_note(entry.path@) ==> rows.contains(
                FileRow {
                    path: entry.path@,
                    label: entry.name@,
                    depth,
                    kind: FileKind::Markdown,
                    expanded: false,
                    has_children: false,
                },
            )
            &&& entry.kind is Directory && any_holds_note(entry.children@, 0) ==> rows.contains(
                FileRow {
                    path: entry.path@,
                    label: entry.name@,
                    depth,
                    kind: FileKind::Folder,
                    expanded: open,
                    has_children: true,
                },
            )
            &&& entry.kind is Directory && any_holds_note(entry.children@, 0) && open
                && rows_for_all(entry.children@, 0, depth + 1, expanded).contains(row)
                ==> rows.contains(row)
        }),
{
    let entry = entries[i];
    let own = rows_for(entry, depth, expanded);
    if entry.kind is File && is_note(entry.path@) {
        assert(own[0] == own[0]);
        lemma_rows_hold(entries, 0, depth, expanded, i, own[0]);
    }
    if entry.kind is Directory && any_holds_note(entry.children@, 0) {
        lemma_rows_hold(entries, 0, depth, expanded, i, own[0]);
        let below = rows_for_all(entry.children@, 0, depth + 1, expanded);
        if lists_path(expanded, entry.path@) && below.contains(row) {
            let k = choose|k: int| 0 <= k < below.len() && below[k] == row;
            assert(own[1 + k] == row);
            lemma_rows_hold(entries, 0, depth, expanded, i, row);
        }
    }
}

/// Files that are no notes, folders without notes and what is below a closed folder have no
/// rows.
pub proof fn law_closed_folder_hides_what_it_holds(
    entry: WorkspaceEntry,
    depth: int,
    expanded: Seq<Seq<char>>,
)
    ensures
        entry.kind is File && !is_note(entry.path@) ==> rows_for(entry, depth, expanded).len() == 0,
        entry.kind is Directory && !any_holds_note(entry.children@, 0) ==> rows_for(
            entry,
            depth,
            expanded,
        ).len() == 0,
        entry.kind is Directory && !lists_path(expanded, entry.path@) ==> rows_for(
            entry,
            depth,
            expanded,
        ).len() <= 1,
{
}

/// The first note of some entries is a note; there is none just where they hold none.
pub proof fn law_first_note_is_a_note(entries: Seq<WorkspaceEntry>, from: int)
    requires
        0 <= from,
    ensures
        first_note_among(entries, from) matches Some(path) ==> is_note(path),
        first_note_among(entries, from) is Some <==> any_holds_note(entries, from),
    decreases entries, (entries.len() - from) as nat,
{
    reveal_with_fuel(first_note_among, 2);
    reveal_with_fuel(any_holds_note, 2);
    reveal_with_fuel(first_note, 2);
    reveal_with_fuel(holds_note, 2);
    if from < entries.len() {
        if entries[from].kind is Directory {
            law_first_note_is_a_note(entries[from].children@, 0);
        }
        law_first_note_is_a_note(entries, from + 1);
    }
}

/// Whether some entries hold a note goes by each of them.
pub proof fn law_folder_holds_what_its_entries_hold(
    entries: Seq<WorkspaceEntry>,
    from: int,
)
    requires
        0 <= from <= entries.len(),
    ensures
        any_holds_note(entries, from) <==> exists|i: int|
            from <= i < entries.len() && holds_note(#[trigger] entries[i]),
    decreases entries.len() - from,
{
    if from < entries.len() {
        law_folder_holds_what_its_entries_hold(entries, from + 1);
        if holds_note(entries[from]) {
            assert(holds_note(entries[from]));
        }
    }
}

proof fn lemma_top_folders_grow(entries: Seq<WorkspaceEntry>, i: int, n: int)
    requires
        0 <= i <= n <= entries.len(),
    ensures
        top_folders(entries, i).is_prefix_of(top_folders(entries, n)),
    decreases n,
{
    if i < n {
        lemma_top_folders_grow(entries, i, n - 1);
    }
}

/// Where no folder is open, those at the top that hold a note are opened; where one is, none
/// is opened or closed.
pub proof fn law_top_folders_open_at_first(
    expanded: Seq<Seq<char>>,
    entries: Seq<WorkspaceEntry>,
    i: int,
)
    requires
        0 <= i < entries.len(),
    ensures
        expanded.len() > 0 ==> folders_after_scan(expanded, entries) == expanded,
        expanded.len() == 0 && entries[i].kind is Directory && holds_note(entries[i])
            ==> lists_path(folders_after_scan(expanded, entries), entries[i].path@),
{
    let n = entries.len() as int;
    lemma_top_folders_grow(entries, i, n);
    lemma_top_folders_grow(entries, i + 1, n);
    let with = top_folders(entries, i + 1);
    let all = top_folders(entries, n);
    if entries[i].kind is Directory && holds_note(entries[i]) {
        let before = top_folders(entries, i);
        if !lists_path(before, entries[i].path@) {
            assert(with[before.len() as int] == entries[i].path@);
        }
        assert(lists_path(with, entries[i].path@));
        let k = choose|k: int|
            0 <= k < with.len() && same_path(#[trigger] with[k], entries[i].path@);
        assert(with[k] == all.subrange(0, with.len() as int)[k]);
        assert(same_path(all[k], entries[i].path@));
    }
}

} // verus!
