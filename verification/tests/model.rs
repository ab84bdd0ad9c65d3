use ocean_gui::shell::editor_buffer::EditorCursor;
use ocean_gui::shell::file_tree::{visible_markdown_tree, FileEntry, FileKind};
use ocean_gui::shell::launch::{
    configured_workspace_root, default_workspace_root, initial_workspace_root, last_workspace_in,
    last_workspace_path, last_workspace_text,
};
use ocean_gui::shell::model::{
    EditorTab, NoteOnDisk, ShellState, VaultScan, WikilinkStep, LIVE_METADATA_CHAR_LIMIT,
    MAX_RENDERED_LINES, MAX_SCAN_DEPTH,
};
use ocean_gui::shell::note_names::{new_note_text, next_note_path_in};
use ocean_gui::shell::outline::extract_outline;
use ocean_gui::shell::vault_index::{extract_wikilinks, NoteText, VaultIndex};
use ocean_gui::workspace::{WorkspaceEntry, WorkspaceEntryKind, WorkspaceStats, WorkspaceTree};

/// A vault in memory: the paths of its files below the root, with their texts.
struct Vault {
    root: String,
    files: Vec<(String, String)>,
}

impl Vault {
    fn new(files: &[(&str, &str)]) -> Vault {
        Vault {
            root: String::from("/vault"),
            files: files.iter().map(|(p, t)| (format!("/vault/{p}"), String::from(*t))).collect(),
        }
    }

    fn path(&self, name: &str) -> String {
        format!("{}/{name}", self.root)
    }

    fn read(&self, path: &str) -> Result<String, String> {
        self.files
            .iter()
            .find(|(p, _)| p == path)
            .map(|(_, text)| text.clone())
            .ok_or_else(|| format!("no such file: {path}"))
    }

    fn has_file(&self, path: &str) -> bool {
        self.files.iter().any(|(p, _)| p == path)
    }

    fn is_dir(&self, path: &str) -> bool {
        self.files.iter().any(|(p, _)| p.starts_with(&format!("{path}/")))
    }

    fn write(&mut self, path: &str, text: &str) {
        self.files.retain(|(p, _)| p != path);
        self.files.push((String::from(path), String::from(text)));
    }

    fn entries(&self, directory: &str) -> Vec<WorkspaceEntry> {
        let front = format!("{directory}/");
        let mut names: Vec<String> = self
            .files
            .iter()
            .filter_map(|(p, _)| p.strip_prefix(&front))
            .map(|rest| String::from(rest.split('/').next().unwrap_or("")))
            .collect();
        names.sort();
        names.dedup();
        names
            .into_iter()
            .map(|name| {
                let path = format!("{directory}/{name}");
                let is_dir = self.is_dir(&path);
                WorkspaceEntry {
                    children: if is_dir { self.entries(&path) } else { Vec::new() },
                    kind: if is_dir {
                        WorkspaceEntryKind::Directory
                    } else {
                        WorkspaceEntryKind::File
                    },
                    path,
                    name,
                }
            })
            .collect()
    }

    fn index(&self) -> VaultIndex {
        let mut notes: Vec<NoteText> = self
            .files
            .iter()
            .filter(|(path, _)| path.ends_with(".md"))
            .map(|(path, text)| NoteText {
                path: path.clone(),
                lines: text.lines().map(String::from).collect(),
            })
            .collect();
        notes.sort_by(|a, b| a.path.cmp(&b.path));
        VaultIndex::build(&self.root, &notes)
    }

    fn scan(&self) -> Result<VaultScan, String> {
        Ok(VaultScan {
            tree: WorkspaceTree {
                root: self.root.clone(),
                entries: self.entries(&self.root),
                max_depth: MAX_SCAN_DEPTH,
                stats: WorkspaceStats { files: self.files.len(), folders: 0 },
            },
            index: self.index(),
        })
    }

    fn first_note(&self) -> Result<String, String> {
        fn first(entries: &[WorkspaceEntry]) -> Option<String> {
            entries.iter().find_map(|entry| {
                if entry.is_directory() {
                    first(&entry.children)
                } else if entry.path.ends_with(".md") {
                    Some(entry.path.clone())
                } else {
                    None
                }
            })
        }
        match first(&self.entries(&self.root)) {
            Some(path) => self.read(&path),
            None => Err(String::from("no note")),
        }
    }

    fn on_disk(&self, path: &str) -> NoteOnDisk {
        if self.has_file(path) {
            NoteOnDisk::Present(self.read(path))
        } else {
            NoteOnDisk::Missing(self.scan())
        }
    }

    fn state(&self) -> ShellState {
        ShellState::seed_with_root(self.root.clone(), self.scan(), self.first_note())
    }

    fn open(&self, state: &mut ShellState, path: &str) {
        state.open_note_path(String::from(path), self.on_disk(path));
    }

    fn follow(&mut self, state: &mut ShellState, step: WikilinkStep) {
        match step {
            WikilinkStep::Open(path) => self.open(state, &path),
            WikilinkStep::Create(path, text) => {
                self.write(&path, &text);
                let scan = self.scan();
                let found = self.on_disk(&path);
                state.finish_wikilink(path, Ok(()), scan, found);
            }
            WikilinkStep::Invalid => {}
        }
    }

    fn save(&mut self, state: &mut ShellState) {
        if let Some(path) = state.active_path.clone() {
            self.write(&path, &state.document_text());
        }
        state.save_active(Ok(()), self.index());
    }
}

fn labels(entries: &[FileEntry]) -> Vec<String> {
    entries.iter().map(|entry| entry.label.clone()).collect()
}

fn test_state() -> ShellState {
    ShellState::new(String::from("/vault"))
}

fn tab(path: &str, label: &str, text: &str) -> EditorTab {
    EditorTab::clean(String::from(path), String::from(label), String::from(text))
}

fn load(state: &mut ShellState, path: &str, text: &str) {
    state.load_document(
        Some(String::from(path)),
        String::from(text),
        String::from("Opened"),
    );
}

fn numbered_lines(count: usize) -> Vec<String> {
    (0..count).map(|index| format!("line {index}")).collect()
}

#[test]
fn derives_outline_from_markdown_headings() {
    let lines = vec![
        String::from("# Title"),
        String::from("body"),
        String::from("## Child"),
    ];

    let outline = extract_outline(&lines);

    assert_eq!(outline.len(), 2);
    assert_eq!(outline[0].label, "Title");
    assert_eq!(outline[0].line_number, 1);
    assert_eq!(outline[1].level, 2);
}

#[test]
fn outline_takes_one_to_six_marks_and_a_title() {
    let lines: Vec<String> = [
        "  ###### Deep  ",
        "####### Too deep",
        "#",
        "##   ",
        "#Tight",
        "no # heading",
    ]
    .iter()
    .map(|line| String::from(*line))
    .collect();

    let outline = extract_outline(&lines);

    assert_eq!(outline.len(), 2);
    assert_eq!(outline[0].label, "Deep");
    assert_eq!(outline[0].level, 6);
    assert_eq!(outline[1].label, "Tight");
    assert_eq!(outline[1].line_number, 5);
}

#[test]
fn extracts_unique_wikilinks() {
    let links = extract_wikilinks("[[Alpha]] [[Beta]] [[Alpha]]");

    assert_eq!(links, vec![String::from("Alpha"), String::from("Beta")]);
}

#[test]
fn wikilinks_drop_aliases_and_blanks() {
    let links = extract_wikilinks("[[ Alpha |today]] [[ ]] [[|x]] [[Open [[Beta]]");

    assert_eq!(links, vec![String::from("Alpha"), String::from("Open [[Beta")]);
}

#[test]
fn editing_marks_active_tab_dirty_and_updates_metadata() {
    let mut state = test_state();
    let path = "/vault/alpha.md";
    state.tabs.push(tab(path, "alpha.md", "# Alpha\n"));
    load(&mut state, path, "# Alpha\n");

    state.move_cursor_to_end();
    state.insert_text("body");

    assert_eq!(state.document_text(), "# Alpha\nbody");
    assert_eq!(state.cursor_position(), EditorCursor { line: 1, column: 4 });
    assert_eq!(state.status.words, 3);
    assert!(state.tabs.iter().any(|tab| tab.path == path && tab.dirty));
    assert_eq!(state.status_message, "Modified alpha.md");
}

#[test]
fn switching_tabs_preserves_unsaved_buffer() {
    let mut state = test_state();
    let alpha = "/vault/alpha.md";
    let beta = "/vault/beta.md";
    state.tabs.push(tab(alpha, "alpha.md", "alpha"));
    state.tabs.push(tab(beta, "beta.md", "beta"));
    load(&mut state, alpha, "alpha");

    state.move_cursor_to_end();
    state.insert_text(" draft");
    state.set_active_tab(1);
    assert_eq!(state.document_text(), "beta");

    state.set_active_tab(0);
    assert_eq!(state.document_text(), "alpha draft");
    assert!(state.tabs.iter().any(|tab| tab.path == alpha && tab.dirty));
}

#[test]
fn cursor_placement_uses_line_and_character_column() {
    let mut state = test_state();
    load(&mut state, "/vault/alpha.md", "one\nécho\nthree");

    state.move_cursor_to_line_column(1, 1);
    assert_eq!(state.cursor_position(), EditorCursor { line: 1, column: 1 });
    state.insert_text("x");
    assert_eq!(state.document_text(), "one\néxcho\nthree");

    state.move_cursor_to_line_column(99, 99);
    assert_eq!(state.cursor_position(), EditorCursor { line: 2, column: 5 });
}

#[test]
fn selection_replaces_text_and_clears_after_edit() {
    let mut state = test_state();
    let path = "/vault/alpha.md";
    state.tabs.push(tab(path, "alpha.md", "alpha beta gamma"));
    load(&mut state, path, "alpha beta gamma");

    state.move_cursor_to_line_column(0, 6);
    for _ in 0..4 {
        state.extend_cursor_right();
    }

    assert_eq!(state.selected_text(), Some(String::from("beta")));
    state.insert_text("BETA");

    assert_eq!(state.document_text(), "alpha BETA gamma");
    assert_eq!(state.selected_text(), None);
    assert_eq!(state.cursor_position(), EditorCursor { line: 0, column: 10 });
    assert!(state.tabs.iter().any(|tab| tab.path == path && tab.dirty));
}

#[test]
fn select_all_and_cut_remove_selected_text() {
    let mut state = test_state();
    load(&mut state, "/vault/alpha.md", "alpha\nbeta");

    state.select_all();

    assert_eq!(state.selected_text(), Some(String::from("alpha\nbeta")));
    assert_eq!(state.take_selected_text(), Some(String::from("alpha\nbeta")));
    assert_eq!(state.document_text(), "");
    assert_eq!(state.cursor_position(), EditorCursor { line: 0, column: 0 });
    assert_eq!(state.selected_text(), None);
}

#[test]
fn undo_redo_restores_text_cursor_selection_and_dirty_state() {
    let mut state = test_state();
    let path = "/vault/alpha.md";
    state.tabs.push(tab(path, "alpha.md", "alpha"));
    load(&mut state, path, "alpha");

    state.move_cursor_to_end();
    state.insert_text(" beta");

    assert_eq!(state.document_text(), "alpha beta");
    assert!(state.tabs.iter().any(|tab| tab.path == path && tab.dirty));

    state.undo();

    assert_eq!(state.document_text(), "alpha");
    assert_eq!(state.cursor_position(), EditorCursor { line: 0, column: 5 });
    assert_eq!(state.selected_text(), None);
    assert!(state.tabs.iter().any(|tab| tab.path == path && !tab.dirty));

    state.redo();

    assert_eq!(state.document_text(), "alpha beta");
    assert_eq!(state.cursor_position(), EditorCursor { line: 0, column: 10 });
    assert!(state.tabs.iter().any(|tab| tab.path == path && tab.dirty));

    state.save_active(Ok(()), VaultIndex::empty());
    assert!(state.tabs.iter().any(|tab| tab.path == path && !tab.dirty));

    state.undo();

    assert_eq!(state.document_text(), "alpha");
    assert!(state.tabs.iter().any(|tab| tab.path == path && tab.dirty));
}

#[test]
fn undo_history_stays_with_each_tab() {
    let mut state = test_state();
    let alpha = "/vault/alpha.md";
    let beta = "/vault/beta.md";
    state.tabs.push(tab(alpha, "alpha.md", "alpha"));
    state.tabs.push(tab(beta, "beta.md", "beta"));
    load(&mut state, alpha, "alpha");

    state.move_cursor_to_end();
    state.insert_text(" one");
    state.set_active_tab(1);
    state.move_cursor_to_end();
    state.insert_text(" two");

    state.undo();
    assert_eq!(state.document_text(), "beta");

    state.set_active_tab(0);
    state.undo();
    assert_eq!(state.document_text(), "alpha");
}

#[test]
fn large_documents_keep_typing_refresh_to_rendered_view() {
    let mut state = test_state();
    let large_note = format!(
        "# Heading\n{}\n[[Backlink]]",
        "body ".repeat((LIVE_METADATA_CHAR_LIMIT / 5) + 1)
    );
    load(&mut state, "/vault/large.md", &large_note);

    state.move_cursor_to_end();
    state.insert_text(" tail");

    assert_eq!(state.outline.len(), 0);
    assert_eq!(state.links.len(), 0);
    assert_eq!(state.backlinks.len(), 0);
    assert_eq!(state.status.words, 0);
    assert!(state.status.lines >= 2);
    assert!(state.status.rendered_lines <= MAX_RENDERED_LINES);
}

#[test]
fn cursor_movement_scrolls_small_render_window() {
    let mut state = test_state();
    load(&mut state, "/vault/long.md", &numbered_lines(200).join("\n"));

    state.move_cursor_to_line_column(150, 0);

    assert!(state.document_start_line > 0);
    assert!(state.document_start_line <= 150);
    assert!(150 < state.document_start_line + state.document_lines.len());
    assert!(state.document_lines.len() <= MAX_RENDERED_LINES);
    assert_eq!(state.document_start_line, 150 + 8 + 1 - 72);
}

#[test]
fn outline_jump_moves_cursor_and_scrolls_heading_into_view() {
    let mut state = test_state();
    let mut lines = numbered_lines(180);
    lines[0] = String::from("# Top");
    lines[140] = String::from("## Target");
    load(&mut state, "/vault/long.md", &lines.join("\n"));

    assert!(state.jump_to_outline_item(1));

    assert_eq!(state.cursor_position(), EditorCursor { line: 140, column: 0 });
    assert!(state.document_start_line <= 140);
    assert!(140 < state.document_start_line + state.document_lines.len());
    assert!(state.status_message.contains("Target"));
    assert!(!state.jump_to_outline_item(2));
    assert_eq!(state.status_message, "Heading not found");
}

#[test]
fn viewport_scrolls_without_moving_cursor() {
    let mut state = test_state();
    load(&mut state, "/vault/long.md", &numbered_lines(200).join("\n"));
    let cursor = state.cursor_position();

    assert!(state.scroll_document_by_lines(12));
    assert_eq!(state.document_start_line, 12);
    assert_eq!(state.cursor_position(), cursor);

    assert!(state.scroll_document_by_lines(-5));
    assert_eq!(state.document_start_line, 7);

    assert!(state.scroll_document_by_lines(10_000));
    assert_eq!(state.document_start_line, 199);

    assert!(state.scroll_document_by_lines(-10_000));
    assert_eq!(state.document_start_line, 0);
    assert!(!state.scroll_document_by_lines(-1));
}

#[test]
fn document_start_line_can_anchor_the_last_document_line() {
    let mut state = test_state();
    load(&mut state, "/vault/long.md", &numbered_lines(200).join("\n"));

    assert!(state.set_document_start_line(10_000));

    assert_eq!(state.document_start_line, 199);
    assert_eq!(state.document_lines, vec![String::from("line 199")]);
}

#[test]
fn drag_selection_extends_to_line_column() {
    let mut state = test_state();
    load(&mut state, "/vault/alpha.md", "alpha\nbeta");

    state.move_cursor_to_line_column(0, 1);
    state.extend_cursor_to_line_column(1, 3);

    assert_eq!(state.selected_text(), Some(String::from("lpha\nbet")));
}

#[test]
fn word_selection_selects_word_without_marking_document_dirty() {
    let mut state = test_state();
    load(&mut state, "/vault/alpha.md", "alpha beta");

    assert!(state.select_word_at_line_column(0, 7));

    assert_eq!(state.selected_text(), Some(String::from("beta")));
    assert_eq!(state.cursor_position(), EditorCursor { line: 0, column: 10 });
    assert!(!state.document_is_dirty());
}

#[test]
fn gpui_utf16_input_replaces_and_marks_text() {
    let mut state = test_state();
    load(&mut state, "/vault/alpha.md", "a🙂b");

    let mut adjusted_range = None;
    assert_eq!(state.text_for_utf16_range(1..3, &mut adjusted_range), String::from("🙂"));
    assert_eq!(adjusted_range, Some(1..3));

    assert!(state.replace_text_in_utf16_range(Some(1..3), "x"));
    assert_eq!(state.document_text(), "axb");

    assert!(state.replace_and_mark_text_in_utf16_range(None, "🙂", Some(0..2)));
    assert_eq!(state.document_text(), "ax🙂b");
    assert_eq!(state.marked_utf16_range(), Some(2..4));
    assert_eq!(state.selected_utf16_range(), (2..4, false));

    state.unmark_text();
    assert_eq!(state.marked_utf16_range(), None);
}

#[test]
fn utf16_range_reports_editor_cursors() {
    let mut state = test_state();
    load(&mut state, "/vault/alpha.md", "a🙂b\nsecond");

    assert_eq!(
        state.editor_cursors_for_utf16_range(1..3),
        (EditorCursor { line: 0, column: 1 }, EditorCursor { line: 0, column: 2 })
    );
    assert_eq!(
        state.editor_cursors_for_utf16_range(5..11),
        (EditorCursor { line: 1, column: 0 }, EditorCursor { line: 1, column: 6 })
    );
}

#[test]
fn file_tree_hides_children_until_folder_expands() {
    let file = |path: &str, name: &str| WorkspaceEntry {
        path: String::from(path),
        name: String::from(name),
        kind: WorkspaceEntryKind::File,
        children: Vec::new(),
    };
    let tree = WorkspaceTree {
        root: String::from("/vault"),
        entries: vec![WorkspaceEntry {
            path: String::from("/vault/docs"),
            name: String::from("docs"),
            kind: WorkspaceEntryKind::Directory,
            children: vec![
                file("/vault/docs/alpha.md", "alpha.md"),
                WorkspaceEntry {
                    path: String::from("/vault/docs/nested"),
                    name: String::from("nested"),
                    kind: WorkspaceEntryKind::Directory,
                    children: vec![file("/vault/docs/nested/beta.md", "beta.md")],
                },
            ],
        }],
        max_depth: MAX_SCAN_DEPTH,
        stats: WorkspaceStats::default(),
    };
    let mut expanded_dirs: Vec<String> = Vec::new();

    let collapsed = visible_markdown_tree(&tree, &expanded_dirs);
    assert_eq!(labels(&collapsed), vec![String::from("docs")]);
    assert!(!collapsed[0].expanded);
    assert!(collapsed[0].has_children);

    expanded_dirs.push(String::from("/vault/docs"));
    let expanded = visible_markdown_tree(&tree, &expanded_dirs);
    assert_eq!(
        labels(&expanded),
        vec![
            String::from("docs"),
            String::from("alpha.md"),
            String::from("nested"),
        ]
    );
    assert!(expanded[0].expanded);
    assert_eq!(expanded[1].kind, FileKind::Markdown);
    assert_eq!(expanded[1].depth, 1);
    assert_eq!(expanded[2].kind, FileKind::Folder);
    assert!(!expanded[2].expanded);
    assert_eq!(expanded[2].id, 2);
}

#[test]
fn create_note_uses_selected_folder_context() {
    let mut vault = Vault::new(&[("notes/existing.md", "# Existing")]);
    let mut state = vault.state();
    state.selected_path = Some(vault.path("notes"));

    let directory = state.note_creation_dir(true);
    let taken: Vec<String> = vault.files.iter().map(|(p, _)| p.clone()).collect();
    let created = next_note_path_in(&directory, &taken);
    let text = new_note_text(&created);
    vault.write(&created, &text);
    let read = vault.read(&created);
    state.create_note(created.clone(), Ok(()), vault.scan(), read);

    assert_eq!(created, vault.path("notes/untitled.md"));
    assert_eq!(state.active_path, Some(created));
    assert_eq!(state.document_text(), "# untitled\n\n");
    assert_eq!(state.cursor_position(), EditorCursor { line: 2, column: 0 });
}

#[test]
fn new_notes_take_the_first_free_name() {
    let taken = vec![
        String::from("/vault/untitled.md"),
        String::from("/vault/untitled-2.md"),
        String::from("/vault/untitled-4.md"),
    ];

    assert_eq!(next_note_path_in("/vault", &taken), "/vault/untitled-3.md");
    assert_eq!(next_note_path_in("/vault", &Vec::new()), "/vault/untitled.md");
}

#[test]
fn rename_selected_note_updates_active_tab_and_tree() {
    let mut vault = Vault::new(&[("draft.md", "# Draft")]);
    let mut state = vault.state();
    let old_path = vault.path("draft.md");
    let new_path = vault.path("archive/final.md");

    let (source, target) = state.rename_selected_to(&new_path).expect("a plan");
    let text = vault.read(&source).expect("the note");
    vault.files.retain(|(p, _)| *p != source);
    vault.write(&target, &text);
    state.finish_rename(&source, &target, Ok(()), vault.scan());

    assert!(!vault.has_file(&old_path));
    assert!(vault.has_file(&new_path));
    assert_eq!(state.active_path, Some(new_path.clone()));
    assert!(state.tabs.iter().any(|tab| tab.path == new_path));
    assert!(state.files.iter().any(|entry| entry.path == vault.path("archive/final.md")));
    assert_eq!(state.status_message, "Renamed archive/final.md");
}

#[test]
fn rename_selected_note_keeps_target_inside_vault() {
    let vault = Vault::new(&[("draft.md", "# Draft")]);
    let mut state = vault.state();

    assert!(state.rename_selected_to("/elsewhere/outside.md").is_none());

    assert!(state.status_message.contains("inside vault"));
    assert!(state.rename_selected_to("/vault/draft").is_none());
    assert_eq!(state.status_message, "Rename target is unchanged");
}

#[test]
fn delete_selected_note_removes_clean_open_tab() {
    let mut vault = Vault::new(&[("draft.md", "# Draft")]);
    let mut state = vault.state();

    let path = state.delete_selected_note().expect("a plan");
    vault.files.retain(|(p, _)| *p != path);
    state.finish_delete(&path, Ok(()), vault.scan(), vault.first_note());

    assert!(!vault.has_file(&vault.path("draft.md")));
    assert!(state.tabs.is_empty());
    assert_eq!(state.active_path, None);
    assert_eq!(state.status_message, "Deleted draft.md");
}

#[test]
fn delete_selected_note_blocks_dirty_open_tab() {
    let vault = Vault::new(&[("draft.md", "# Draft")]);
    let mut state = vault.state();
    state.move_cursor_to_end();
    state.insert_text("\nunsaved");

    assert!(state.delete_selected_note().is_none());

    assert_eq!(state.active_path, Some(vault.path("draft.md")));
    assert!(state.status_message.contains("Save or close"));
}

#[test]
fn last_workspace_config_round_trips_plain_path() {
    let root = "/Users/ocean_gui/vault";

    let text = last_workspace_text(root);

    assert_eq!(text, "/Users/ocean_gui/vault\n");
    assert_eq!(last_workspace_in(&text), Some(String::from(root)));
    assert_eq!(last_workspace_in(" \n"), None);
    assert_eq!(
        last_workspace_path(&Some(String::from("/Users/ocean_gui"))),
        Some(String::from(
            "/Users/ocean_gui/Library/Application Support/Ocean GUI/last-workspace"
        ))
    );
    assert_eq!(last_workspace_path(&Some(String::new())), None);
}

#[test]
fn external_change_reloads_clean_active_note() {
    let mut vault = Vault::new(&[("draft.md", "# Draft")]);
    let path = vault.path("draft.md");
    let mut state = vault.state();

    vault.write(&path, "# Changed");
    let read = vault.read(&path);
    state.apply_external_vault_change(&vec![path.clone()], vault.scan(), Some(read));

    assert_eq!(state.document_text(), "# Changed");
    assert!(state.status_message.contains("Reloaded"));
}

#[test]
fn external_change_does_not_clobber_dirty_active_note() {
    let mut vault = Vault::new(&[("draft.md", "# Draft")]);
    let path = vault.path("draft.md");
    let mut state = vault.state();
    state.move_cursor_to_end();
    state.insert_text("\nlocal");

    vault.write(&path, "# Changed");
    let read = vault.read(&path);
    state.apply_external_vault_change(&vec![path.clone()], vault.scan(), Some(read));

    assert_eq!(state.document_text(), "# Draft\nlocal");
    assert!(state.status_message.contains("External change"));
}

#[test]
fn external_change_elsewhere_and_gone_note() {
    let mut vault = Vault::new(&[("a.md", "# A"), ("b.md", "# B")]);
    let mut state = vault.state();
    vault.open(&mut state, "/vault/b.md");

    let elsewhere = vec![String::from("/vault/other")];
    let read = vault.read("/vault/b.md");
    state.apply_external_vault_change(&elsewhere, vault.scan(), Some(read));
    assert_eq!(state.status_message, "Vault updated");

    vault.files.retain(|(p, _)| p != "/vault/b.md");
    state.apply_external_vault_change(&vec![String::from("/vault")], vault.scan(), None);
    assert_eq!(state.status_message, "Closed missing b.md");
    assert_eq!(state.active_path, Some(String::from("/vault/a.md")));
    assert_eq!(state.tabs.len(), 1);
}

#[test]
fn searchable_notes_match_nested_markdown_by_subsequence() {
    let vault = Vault::new(&[
        ("alpha.md", "# Alpha"),
        ("archive/projects/gamma-index.md", "# Gamma"),
        ("archive/projects/gamma.txt", "ignore"),
    ]);
    let state = vault.state();

    let results = state.searchable_notes("gm", 8);

    assert_eq!(results.len(), 1);
    assert_eq!(results[0].path, vault.path("archive/projects/gamma-index.md"));
    assert_eq!(results[0].parent_label, "archive/projects");
    assert_eq!(state.searchable_notes("a", 1).len(), 1);
    assert_eq!(state.searchable_notes("A", 8).len(), 2);
}

#[test]
fn active_note_metadata_includes_incoming_backlinks() {
    let vault = Vault::new(&[
        ("alpha.md", "# Alpha"),
        ("daily.md", "# Daily\n\n[[Alpha]]"),
    ]);

    let state = vault.state();

    assert_eq!(state.active_path, Some(vault.path("alpha.md")));
    assert_eq!(state.links, Vec::<String>::new());
    assert_eq!(state.backlinks.len(), 1);
    assert_eq!(state.backlinks[0].path, vault.path("daily.md"));
    assert_eq!(state.backlinks[0].line_number, 3);
    assert_eq!(state.backlinks[0].snippet, "[[Alpha]]");
    assert_eq!(state.status.links, 0);
    assert_eq!(state.status.backlinks, 1);
}

#[test]
fn saving_note_refreshes_backlink_index() {
    let mut vault = Vault::new(&[("alpha.md", "# Alpha"), ("beta.md", "# Beta")]);
    let alpha = vault.path("alpha.md");
    let beta = vault.path("beta.md");
    let mut state = vault.state();

    vault.open(&mut state, &beta);
    state.move_cursor_to_end();
    state.insert_text("\n\n[[Alpha]]");
    vault.save(&mut state);
    vault.open(&mut state, &alpha);

    assert_eq!(state.backlinks.len(), 1);
    assert_eq!(state.backlinks[0].path, beta);
}

#[test]
fn open_note_path_opens_and_reveals_nested_note() {
    let vault = Vault::new(&[("notes/nested/beta.md", "# Beta")]);
    let path = vault.path("notes/nested/beta.md");
    let mut state = vault.state();

    vault.open(&mut state, &path);

    assert_eq!(state.active_path, Some(path.clone()));
    assert_eq!(state.selected_path, Some(path.clone()));
    assert!(state.is_expanded(&vault.path("notes/nested")));
    assert_eq!(state.document_text(), "# Beta");
}

#[test]
fn open_note_path_refuses_what_is_no_note_of_the_vault() {
    let vault = Vault::new(&[("a.md", "# A")]);
    let mut state = vault.state();

    vault.open(&mut state, "/vault/a.txt");
    assert_eq!(state.status_message, "Select a markdown note");
    vault.open(&mut state, "/other/a.md");
    assert_eq!(state.status_message, "Note must stay inside vault");
    vault.open(&mut state, "/vault/gone.md");
    assert_eq!(state.status_message, "1 visible entries");
    assert_eq!(state.active_path, Some(String::from("/vault/a.md")));
}

#[test]
fn open_or_create_wikilink_opens_existing_note() {
    let mut vault = Vault::new(&[("alpha.md", "# Alpha\n\n[[Beta]]"), ("beta.md", "# Beta")]);
    let mut state = vault.state();

    let step = state.open_or_create_wikilink("Beta");
    vault.follow(&mut state, step);

    assert_eq!(state.active_path, Some(vault.path("beta.md")));
    assert_eq!(state.document_text(), "# Beta");
}

#[test]
fn open_or_create_wikilink_creates_missing_note_next_to_active_note() {
    let mut vault = Vault::new(&[("daily/today.md", "# Today\n\n[[Follow Up]]")]);
    let created = vault.path("daily/Follow Up.md");
    let mut state = vault.state();
    let today = vault.path("daily/today.md");
    vault.open(&mut state, &today);

    let step = state.open_or_create_wikilink("Follow Up");
    vault.follow(&mut state, step);

    assert_eq!(state.active_path, Some(created.clone()));
    assert_eq!(vault.read(&created), Ok(String::from("# Follow Up\n\n")));
}

#[test]
fn open_wikilink_at_line_column_opens_existing_note() {
    let mut vault = Vault::new(&[("alpha.md", "# Alpha"), ("daily.md", "See [[Alpha|today]].")]);
    let mut state = vault.state();
    let daily = vault.path("daily.md");
    vault.open(&mut state, &daily);

    let step = state
        .open_wikilink_at_line_column(0, "See [[".chars().count())
        .expect("a link");
    vault.follow(&mut state, step);

    assert_eq!(state.active_path, Some(vault.path("alpha.md")));
}

#[test]
fn open_wikilink_at_line_column_ignores_non_link_text() {
    let vault = Vault::new(&[("daily.md", "See [[Alpha]].")]);
    let mut state = vault.state();
    let daily = vault.path("daily.md");
    vault.open(&mut state, &daily);

    assert!(state.open_wikilink_at_line_column(0, 0).is_none());
    assert!(state.open_wikilink_at_line_column(9, 0).is_none());

    assert_eq!(state.active_path, Some(vault.path("daily.md")));
}

#[test]
fn open_or_create_wikilink_rejects_parent_traversal() {
    let mut vault = Vault::new(&[("alpha.md", "# Alpha")]);
    let mut state = vault.state();

    let step = state.open_or_create_wikilink("../escape");
    vault.follow(&mut state, step);

    assert_eq!(state.active_path, Some(vault.path("alpha.md")));
    assert!(state.status_message.contains("Invalid link"));
}

#[test]
fn configured_workspace_prefers_cli_workspace() {
    let root = configured_workspace_root(
        &vec![String::from("--workspace"), String::from("/vault/cli")],
        Some(String::from("/vault/env")),
    );

    assert_eq!(root, Some(String::from("/vault/cli")));
}

#[test]
fn configured_workspace_accepts_equals_form() {
    let root = configured_workspace_root(
        &vec![String::from("--workspace=/vault/inline")],
        Some(String::from("/vault/env")),
    );

    assert_eq!(root, Some(String::from("/vault/inline")));
}

#[test]
fn configured_workspace_uses_env_without_cli_workspace() {
    let root = configured_workspace_root(
        &vec![String::from("--ignored")],
        Some(String::from("/vault/env")),
    );

    assert_eq!(root, Some(String::from("/vault/env")));
}

#[test]
fn configured_workspace_skips_empty_values() {
    let args = vec![
        String::from("--workspace"),
        String::new(),
        String::from("--workspace="),
        String::from("--workspace"),
    ];

    assert_eq!(configured_workspace_root(&args, Some(String::new())), None);
}

#[test]
fn app_launch_default_uses_home_when_cwd_is_root() {
    let root = default_workspace_root(String::from("/"), Some(String::from("/Users/ocean_gui")));

    assert_eq!(root, "/Users/ocean_gui");
    assert_eq!(default_workspace_root(String::from("/work"), Some(String::from("/home"))), "/work");
    assert_eq!(default_workspace_root(String::from("/"), None), "/");
}

#[test]
fn remembered_vault_comes_before_the_default() {
    let root = |remembered: Option<&str>, env: Option<&str>| {
        initial_workspace_root(
            &Vec::new(),
            env.map(String::from),
            remembered.map(String::from),
            String::from("/work"),
            None,
        )
    };

    assert_eq!(root(Some("/last"), Some("/env")), "/env");
    assert_eq!(root(Some("/last"), None), "/last");
    assert_eq!(root(None, None), "/work");
}

#[test]
fn folders_open_and_close() {
    let vault = Vault::new(&[("docs/a.md", "# A"), ("docs/b.md", "# B")]);
    let mut state = vault.state();
    assert_eq!(labels(&state.files), ["docs", "a.md", "b.md"]);

    state.set_active_file(0, Err(String::new()));
    assert_eq!(labels(&state.files), ["docs"]);
    assert_eq!(state.status_message, "Collapsed docs");

    state.set_active_file(0, Err(String::new()));
    assert_eq!(labels(&state.files), ["docs", "a.md", "b.md"]);
    assert_eq!(state.status_message, "Expanded docs");

    assert!(state.needs_reading("/vault/docs/b.md"));
    state.set_active_file(2, vault.read("/vault/docs/b.md"));
    assert_eq!(state.document_text(), "# B");
    assert_eq!(state.status_message, "Opened docs/b.md");
    state.set_active_file(9, Err(String::new()));
    assert_eq!(state.document_text(), "# B");
}

#[test]
fn closing_tabs_turns_to_the_next() {
    let vault = Vault::new(&[("a.md", "# A"), ("b.md", "# B"), ("c.md", "# C")]);
    let mut state = vault.state();
    vault.open(&mut state, "/vault/b.md");
    vault.open(&mut state, "/vault/c.md");

    state.close_tab(0);
    assert_eq!(state.document_text(), "# C");
    state.close_tab(1);
    assert_eq!(state.document_text(), "# B");
    state.close_tab(0);
    assert_eq!(state.document_text(), "");
    assert_eq!(state.status_message, "No file open");
    assert_eq!(state.active_label(), "scratch");
    state.close_tab(0);
    assert!(state.tabs.is_empty());
}

#[test]
fn another_vault_replaces_everything_open() {
    let vault = Vault::new(&[("a.md", "# A")]);
    let mut state = vault.state();

    state.set_workspace_root(
        Err(String::from("cannot open")),
        Err(String::new()),
        Err(String::new()),
        Ok(()),
    );
    assert_eq!(state.status_message, "cannot open");
    assert_eq!(state.document_text(), "# A");

    let bare = Vault { root: String::from("/other"), files: Vec::new() };
    state.set_workspace_root(
        Ok(bare.root.clone()),
        bare.scan(),
        bare.first_note(),
        Err(String::from("read-only")),
    );
    assert_eq!(state.root_label(), "other");
    assert!(state.tabs.is_empty());
    assert_eq!(
        state.document_text(),
        "# Ocean GUI\n\nNo markdown files found in this workspace."
    );
    assert_eq!(
        state.status_message,
        "No markdown files found; vault not remembered: read-only"
    );
}

#[test]
fn outcomes_of_other_programs_are_reported() {
    let vault = Vault::new(&[("a.md", "# A")]);
    let mut state = vault.state();

    state.reveal_selected(Ok(()));
    assert_eq!(state.status_message, "Revealed a.md");
    state.open_active_external(Err(String::from("no program")));
    assert_eq!(state.status_message, "no program");
    state.open_active_external(Ok(()));
    assert_eq!(state.status_message, "Editing a.md");
    state.reload_active(Err(String::from("unreadable")));
    assert_eq!(state.status_message, "unreadable");
    state.save_active(Err(String::from("disk full")), VaultIndex::empty());
    assert_eq!(state.status_message, "disk full");

    let mut nothing = test_state();
    nothing.reveal_selected(Ok(()));
    assert_eq!(nothing.status_message, "No file selected");
    nothing.save_active(Ok(()), VaultIndex::empty());
    assert_eq!(nothing.status_message, "No file open");
    nothing.insert_text("ignored");
    assert_eq!(nothing.document_text(), "");
    nothing.undo();
    assert_eq!(nothing.status_message, "No file open");
}

#[test]
fn every_link_between_notes_is_indexed() {
    let notes = vec![
        NoteText {
            path: String::from("/vault/a.md"),
            lines: vec![
                String::from("see [[B]] and [[Missing]]"),
                String::from("no link here"),
                String::from("again [[b|shown]], [[deep]]"),
            ],
        },
        NoteText { path: String::from("/vault/b.md"), lines: vec![String::from("[[a]]")] },
        NoteText { path: String::from("/vault/sub/Deep.md"), lines: Vec::new() },
    ];
    let index = VaultIndex::build("/vault", &notes);
    let listed: Vec<(&str, &str)> =
        index.notes.iter().map(|n| (n.label.as_str(), n.parent_label.as_str())).collect();
    assert_eq!(listed, vec![("a.md", ""), ("b.md", ""), ("Deep.md", "sub")]);
    let into_b = index.backlinks_for("/vault/b.md");
    assert_eq!(into_b.len(), 2);
    assert_eq!(into_b[0].line_number, 1);
    assert_eq!(into_b[0].snippet, "see [[B]] and [[Missing]]");
    assert_eq!(into_b[1].line_number, 3);
    let into_deep = index.backlinks_for("/vault/sub/Deep.md");
    assert_eq!(into_deep.len(), 1);
    assert_eq!(into_deep[0].label, "a.md");
    assert_eq!(index.backlinks_for("/vault/a.md")[0].path, "/vault/b.md");
}

#[test]
fn keys_move_the_cursor_and_type() {
    let mut state = test_state();
    load(&mut state, "/vault/a.md", "ab\ncde\nf");
    let at = |line: usize, column: usize| EditorCursor { line, column };

    state.move_cursor_to_start();
    state.move_cursor_right();
    assert_eq!(state.cursor_position(), at(0, 1));
    state.move_cursor_down();
    assert_eq!(state.cursor_position(), at(1, 1));
    state.move_cursor_right();
    state.move_cursor_right();
    state.move_cursor_down();
    assert_eq!(state.cursor_position(), at(2, 1));
    state.move_cursor_up();
    state.move_cursor_left();
    assert_eq!(state.cursor_position(), at(1, 0));
    state.move_cursor_left();
    assert_eq!(state.cursor_position(), at(0, 2));

    state.extend_cursor_left();
    assert_eq!(state.selected_text(), Some(String::from("b")));
    state.extend_cursor_down();
    assert_eq!(state.selected_text(), Some(String::from("\nc")));
    state.extend_cursor_up();
    assert_eq!(state.selected_text(), Some(String::from("b")));

    state.move_cursor_to_end();
    state.insert_newline();
    state.insert_tab();
    assert_eq!(state.document_text(), "ab\ncde\nf\n    ");
    assert_eq!(state.utf16_index_for_line_column(1, 2), 5);
}

#[test]
fn a_vault_that_is_not_remembered_is_reported() {
    let mut state = test_state();
    let before = state.status_message.clone();
    state.report_not_remembered("disk full");
    assert_eq!(state.status_message, format!("{before}; vault not remembered: disk full"));
}
