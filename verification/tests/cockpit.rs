//! The cockpit: its catalog, what is chosen and the file being edited.

use ocean_gui::catalog::{entities, events, leaves, sources, Space};
use ocean_gui::cockpit::{FileBody, LeafSurface, OceanGuiApp, PathFound, SCAN_DEPTH};
use ocean_gui::workspace::{WorkspaceStats, WorkspaceTree};

fn tree(files: usize, folders: usize) -> WorkspaceTree {
    WorkspaceTree {
        root: String::from("/work"),
        entries: Vec::new(),
        max_depth: SCAN_DEPTH,
        stats: WorkspaceStats { files, folders },
    }
}

fn cockpit() -> OceanGuiApp {
    OceanGuiApp::new(String::from("/work"), Ok(tree(3, 2)))
}

#[test]
fn starts_with_the_agent_chat() {
    let app = cockpit();
    assert_eq!(app.active_space, Space::Mesh);
    assert_eq!(app.selected_leaf().expect("a tab").title, "Vault Chat");
    assert_eq!(app.selected_source().expect("a source").label, "Agent Sessions");
    assert_eq!(app.selected_entity().expect("an object").title, "Henry / WritersRoom");
    assert_eq!(app.workspace_stats(), (3, 2));
    assert_eq!(app.status, "Ready");
}

#[test]
fn a_failed_search_leaves_an_empty_tree() {
    let app = OceanGuiApp::new(String::from("/work"), Err(String::from("unreadable")));
    assert_eq!(app.tree.root, "/work");
    assert!(app.tree.entries.is_empty());
    assert_eq!(app.tree.max_depth, 6);
    assert_eq!(app.workspace_stats(), (0, 0));
}

#[test]
fn the_catalog_is_complete() {
    assert_eq!(leaves().len(), 9);
    assert_eq!(sources().len(), 13);
    assert_eq!(entities().len(), 13);
    assert_eq!(events().len(), 5);
    assert_eq!(sources()[8].status, "vault-native");
    assert_eq!(entities()[0].actions.len(), 3);
    assert_eq!(entities()[12].links, vec!["TideDash", "Content Lab"]);
    assert_eq!(events()[2].outcome, "12 rows returned");
    assert_eq!(Space::all().len(), 5);
    assert_eq!(Space::Ops.label(), "Ops");
    assert_eq!(Space::Data.description(), "Databases, analytics, campaigns, saved reports");
}

#[test]
fn every_space_leads_to_a_tab_of_its_own() {
    let mut app = cockpit();
    for space in Space::all() {
        app.select_space(space);
        assert_eq!(app.active_space, space);
        let leaf = app.selected_leaf().expect("a tab");
        assert_eq!(leaf.space, space);
        assert_eq!(app.selected_source().expect("a source").space, space);
    }
    app.select_space(Space::Ops);
    assert_eq!(app.active_leaf_id, "leaf-ops");
    assert_eq!(app.selected_entity_id, "svc-pi-cockpit");
}

#[test]
fn sources_show_their_first_object() {
    let mut app = cockpit();
    app.select_source("ops.approvals");
    assert_eq!(app.selected_entity_id, "approval-deploy");
    assert_eq!(app.active_leaf_id, "leaf-chat", "a source without a tab keeps the tab");
    app.select_source("mesh.tickets");
    assert_eq!(app.active_leaf_id, "leaf-tickets");
    app.select_source("vault.files");
    assert_eq!(app.selected_entity_id, "");
    assert!(app.selected_entity().is_none());
    app.select_leaf("no-such-tab");
    assert_eq!(app.active_leaf_id, "leaf-files");
}

#[test]
fn the_surface_lists_the_objects_of_the_source() {
    let mut app = cockpit();
    let LeafSurface::Objects(rows, work) = app.leaf_surface(false) else {
        panic!("expected objects");
    };
    assert_eq!(rows.len(), 2);
    assert_eq!(rows[0].label, "session-henry  Henry / WritersRoom");
    assert_eq!(rows[1].detail, "Agent · available · Tides Mesh");
    assert!(rows[0].selected && !rows[1].selected);
    let (entity, flow) = work.expect("the chosen object");
    assert_eq!(entity.id, "session-henry");
    assert_eq!(flow, "mesh.sessions -> Agent -> action -> event -> note");

    app.select_entity("session-brick");
    assert_eq!(app.selected_entity().expect("an object").owner, "Tides Mesh");
    assert_eq!(app.source_entities().len(), 2);
}

#[test]
fn files_are_opened_edited_and_saved() {
    let mut app = cockpit();
    app.save_selected(false, Ok(()));
    assert_eq!(app.status, "No file selected");

    app.choose_file("/work/a.md", PathFound::File(Ok(String::from("text"))));
    assert_eq!(app.status, "Opened file: /work/a.md");
    assert_eq!(app.active_space, Space::Vault);
    assert_eq!(app.active_leaf_id, "leaf-files");
    let LeafSurface::File(pane) = app.leaf_surface(false) else {
        panic!("expected the file editor");
    };
    assert_eq!(pane.heading, Some((String::from("a.md"), String::from("/work/a.md"))));
    assert_eq!(pane.body, FileBody::Editor);

    app.edit(String::from("more text"));
    assert!(app.dirty);
    app.save_selected(false, Err(String::from("full")));
    assert_eq!(app.status, "Failed to save /work/a.md: full");
    assert!(app.dirty);
    app.save_selected(false, Ok(()));
    assert_eq!(app.status, "Saved /work/a.md");
    assert!(!app.dirty);

    app.open_selected("/work/b.md", PathFound::File(Err(String::from("gone"))));
    assert_eq!(app.status, "Unable to open /work/b.md: gone");
    assert_eq!(app.selected_path.as_deref(), Some("/work/a.md"));

    app.open_selected("/work/docs", PathFound::Folder);
    assert_eq!(app.editor_text, "");
    assert_eq!(app.file_editor(true).body, FileBody::Folder);
    app.save_selected(true, Ok(()));
    assert_eq!(app.status, "Selected item is a folder");
}

#[test]
fn another_workspace_closes_the_file() {
    let mut app = cockpit();
    app.choose_file("/work/a.md", PathFound::File(Ok(String::from("text"))));
    app.set_workspace(None, Ok(tree(0, 0)));
    assert_eq!(app.root, "/work");
    assert_eq!(app.editor_text, "text");
    app.set_workspace(Some(String::from("/other")), Ok(tree(1, 1)));
    assert_eq!(app.status, "Loaded workspace: /other");
    assert_eq!(app.selected_path, None);
    assert_eq!(app.editor_text, "");
    assert_eq!(app.file_editor(false).body, FileBody::NothingSelected);
}

#[test]
fn commands_and_actions_are_queued() {
    let mut app = cockpit();
    app.command_text = String::from("   ");
    app.run_demo_command();
    assert_eq!(app.status, "Ready");
    app.command_text = String::from("  ask Brick ");
    app.run_demo_command();
    assert_eq!(app.status, "Queued command: ask Brick");
    assert_eq!(app.command_text, "");
    app.queue_action("Approve", "approval-deploy");
    assert_eq!(app.status, "Action queued: Approve -> approval-deploy");
}
