//! The surface with its panes, its canvases and the web view that shows them.

use ocean_gui::json::Json;
use ocean_gui::shell::canvas::patch::Coord;
use ocean_gui::shell::surface::{
    canvas_web_url, next_cell, LedgerComponent, PaneDock, SurfaceIpcEvent, SurfaceMode,
    SurfacePaneKind, SurfaceState,
};
use ocean_gui::shell::surface_host::{
    CanvasHostAction, CanvasHostState, CanvasHostTarget, CanvasWebViewHost, HostBounds,
    WebViewStep,
};

fn card(id: &str, x: f32, y: f32, text: &str) -> LedgerComponent {
    LedgerComponent::markdown_card(
        String::from(id),
        Coord(x.to_bits()),
        Coord(y.to_bits()),
        String::from(text),
    )
}

fn text_content(text: &str) -> Json {
    Json::Object(vec![(String::from("text"), Json::Text(String::from(text)))])
}

#[test]
fn default_surface_state_starts_with_one_tldraw_canvas_pane() {
    let state = SurfaceState::default();
    let context = state.turn_context();

    assert_eq!(context.session_id, "surface:main");
    assert_eq!(context.panes.len(), 1);
    assert_eq!(context.canvases.len(), 1);
    assert_eq!(context.panes[0].kind, SurfacePaneKind::TldrawCanvas);
    assert_eq!(context.canvases[0].canvas_id, "canvas:main");
    assert_eq!(context.canvases[0].tldraw_room_id, "ocean-surface-main");
}

#[test]
fn surface_context_is_session_rooted_and_includes_all_canvas_ledgers() {
    let mut state = SurfaceState::default();
    let second_canvas = state.open_canvas_pane("Storyboard", SurfaceMode::Storyboard);
    state.upsert_component("canvas:main", card("brief-1", 40.0, 40.0, "Sales brief"));
    state.upsert_component(&second_canvas, card("frame-1", 80.0, 80.0, "Opening frame"));

    let context = state.turn_context();

    assert_eq!(context.session_id, "surface:main");
    assert_eq!(context.panes.len(), 2);
    assert_eq!(context.canvases.len(), 2);
    let holds = |id: &str| {
        context
            .canvases
            .iter()
            .any(|canvas| canvas.components.iter().any(|component| component.id == id))
    };
    assert!(holds("brief-1"));
    assert!(holds("frame-1"));
}

#[test]
fn upsert_then_remove_component_keys_by_id_and_bumps_revision() {
    let mut state = SurfaceState::default();
    state.upsert_component("canvas:main", card("brief-1", 40.0, 40.0, "v1"));
    state.upsert_component("canvas:main", card("brief-1", 40.0, 40.0, "v2"));
    let canvas = state.canvas("canvas:main").expect("canvas");
    assert_eq!(canvas.components.len(), 1);
    assert_eq!(
        canvas.components.get("brief-1").expect("the card").content,
        text_content("v2")
    );

    let rev_before = state.canvas("canvas:main").unwrap().revision;
    assert!(state.remove_component("canvas:main", "brief-1"));
    let canvas = state.canvas("canvas:main").expect("canvas");
    assert!(canvas.components.is_empty());
    assert_eq!(canvas.revision, rev_before + 1);

    assert!(!state.remove_component("canvas:main", "brief-1"));
    assert!(!state.remove_component("canvas:missing", "brief-1"));
}

#[test]
fn ledger_snapshot_creates_missing_canvas_from_webview_state() {
    let mut state = SurfaceState::default();
    assert!(state.canvas("canvas:webview").is_none());

    let applied = state.apply_ipc_event(SurfaceIpcEvent::LedgerSnapshot {
        canvas_id: String::from("canvas:webview"),
        revision: 7,
        components: vec![card("brief-1", 40.0, 40.0, "Sales brief")],
    });

    assert!(applied);
    let canvas = state.canvas("canvas:webview").expect("created canvas");
    assert_eq!(canvas.revision, 7);
    assert_eq!(canvas.components.len(), 1);
    assert_eq!(
        canvas.components.get("brief-1").expect("the card").content,
        text_content("Sales brief")
    );
}

#[test]
fn turn_context_carries_surface_topology_without_binding_to_pane() {
    let mut state = SurfaceState::default();
    state.open_canvas_pane("Workflow", SurfaceMode::WorkflowBuilder);

    let context = state.turn_context();
    assert_eq!(context.session_id, "surface:main");
    assert!(context.panes.len() >= 2);
    assert!(context.canvases.iter().any(|c| c.tldraw_room_id == "ocean-surface-main"));
}

#[test]
fn canvas_web_url_carries_session_pane_canvas_and_sync_uri() {
    let state = SurfaceState::default();
    let pane = &state.panes()[0];
    let url = canvas_web_url(
        "/tmp/Ocean GUI/canvas-web/index.html",
        state.session_id(),
        pane,
        Some("http://127.0.0.1:5858/connect"),
    )
    .expect("canvas url");

    assert_eq!(
        url,
        "file:///tmp/Ocean%20GUI/canvas-web/index.html?session_id=surface%3Amain&pane_id=pane%3A1&canvas_id=canvas%3Amain&tldraw_room_id=ocean-surface-main&sync_uri=http%3A%2F%2F127.0.0.1%3A5858%2Fconnect"
    );
}

#[test]
fn panes_attach_detach_and_take_the_focus() {
    let mut state = SurfaceState::default();
    let canvas = state.open_canvas_pane("Board", SurfaceMode::CampaignBoard);
    assert_eq!(state.active_canvas_id(), Some(canvas.as_str()));
    assert!(state.set_active_pane("pane:1"));
    assert_eq!(state.active_canvas_id(), Some("canvas:main"));
    assert!(!state.set_active_pane("pane:99"));

    assert!(state.detach_pane("pane:1"));
    assert_eq!(state.panes()[0].dock, PaneDock::Detached);
    assert!(!state.panes()[0].attached);
    assert!(state.attach_pane("pane:1", PaneDock::Left));
    assert!(state.panes()[0].attached);
    assert!(!state.attach_pane("pane:99", PaneDock::Left));
}

#[test]
fn events_make_the_canvases_they_speak_of() {
    let mut state = SurfaceState::default();
    assert!(state.apply_ipc_event(SurfaceIpcEvent::SelectionChanged {
        canvas_id: String::from("canvas:new"),
        selected_ids: vec![String::from("a")],
    }));
    let made = state.canvas("canvas:new").expect("the canvas");
    assert_eq!(made.selection, vec![String::from("a")]);
    assert_eq!(made.tldraw_room_id, "canvas:new");
    assert_eq!(made.revision, 1);

    let ready = |pane: &str| SurfaceIpcEvent::CanvasReady {
        pane_id: String::from(pane),
        canvas_id: String::from("canvas:ready"),
        tldraw_room_id: String::from("room"),
    };
    assert!(!state.apply_ipc_event(ready("pane:99")));
    assert!(state.canvas("canvas:ready").is_none());
    assert!(state.apply_ipc_event(ready("pane:1")));
    assert_eq!(state.panes()[0].canvas_id.as_deref(), Some("canvas:ready"));

    assert!(!state.apply_ipc_event(SurfaceIpcEvent::CanvasError {
        pane_id: None,
        canvas_id: None,
        message: String::from("bad command"),
    }));
}

#[test]
fn the_scan_for_a_free_cell_goes_by_rows_and_ends() {
    let mut cell = (0, 0);
    let mut seen = 1;
    while let Some(next) = next_cell(cell.0, cell.1) {
        assert!(next > cell);
        cell = next;
        seen += 1;
    }
    assert_eq!(seen, 6 * 128);
}

fn bounds(x: f64, y: f64, width: f64, height: f64) -> HostBounds {
    HostBounds {
        x: x.to_bits(),
        y: y.to_bits(),
        width: width.to_bits(),
        height: height.to_bits(),
    }
}

fn target(url: &str, bounds: HostBounds) -> CanvasHostTarget {
    CanvasHostTarget { pane_id: String::from("pane:1"), url: String::from(url), bounds }
}

#[test]
fn host_mounts_resizes_navigates_and_hides_active_canvas() {
    let mut host = CanvasHostState::default();
    let first = target("file:///canvas-a.html", bounds(10.0, 20.0, 300.0, 200.0));

    host.sync_target(Some(first.clone()));
    assert_eq!(host.pop_action(), Some(CanvasHostAction::Mount(first)));

    let larger = bounds(10.0, 20.0, 400.0, 240.0);
    host.sync_target(Some(target("file:///canvas-a.html", larger)));
    assert!(matches!(
        host.pop_action(),
        Some(CanvasHostAction::Resize { pane_id, .. }) if pane_id == "pane:1"
    ));

    host.sync_target(Some(target("file:///canvas-b.html", larger)));
    assert_eq!(
        host.pop_action(),
        Some(CanvasHostAction::Navigate {
            pane_id: String::from("pane:1"),
            url: String::from("file:///canvas-b.html"),
        })
    );

    host.sync_target(None);
    assert_eq!(
        host.pop_action(),
        Some(CanvasHostAction::Hide { pane_id: String::from("pane:1") })
    );
}

#[test]
fn host_serializes_surface_commands_for_webview_bridge() {
    let mut host = CanvasHostState::default();
    host.sync_target(Some(target("file:///canvas.html", bounds(0.0, 0.0, 100.0, 100.0))));
    let _ = host.pop_action();

    host.sync_command("{\"type\":\"upsert_component\",\"canvas_id\":\"canvas:main\"}");

    let Some(CanvasHostAction::Eval { script, .. }) = host.pop_action() else {
        panic!("expected eval action");
    };
    assert!(script.contains("window.oceanSurfaceApplyCommand?.("));
    assert!(script.contains("\"type\":\"upsert_component\""));
    assert!(script.contains("\"canvas_id\":\"canvas:main\""));
}

#[test]
fn host_dedupes_repeated_bridge_commands_until_target_changes() {
    let mut host = CanvasHostState::default();
    let here = bounds(0.0, 0.0, 100.0, 100.0);
    host.sync_target(Some(target("file:///canvas-a.html", here)));
    let _ = host.pop_action();
    let command = "{\"type\":\"load_canvas\",\"pane_id\":\"pane:1\"}";

    host.sync_command(command);
    assert!(matches!(host.pop_action(), Some(CanvasHostAction::Eval { .. })));
    host.sync_command(command);
    assert!(host.pop_action().is_none());

    host.sync_target(Some(target("file:///canvas-b.html", here)));
    let _ = host.pop_action();
    host.sync_command(command);
    assert!(matches!(host.pop_action(), Some(CanvasHostAction::Eval { .. })));
}

#[test]
fn host_decodes_canvas_events_from_ipc_json() {
    let mut host = CanvasHostState::default();
    host.push_event(SurfaceIpcEvent::SelectionChanged {
        canvas_id: String::from("canvas:main"),
        selected_ids: vec![String::from("brief-1")],
    });

    assert!(matches!(
        host.pop_event(),
        Some(SurfaceIpcEvent::SelectionChanged { selected_ids, .. })
            if selected_ids == vec![String::from("brief-1")]
    ));
    assert!(host.pop_event().is_none());
}

#[test]
fn zero_sized_target_does_not_mount() {
    let mut host = CanvasHostState::default();
    host.sync_target(Some(target("file:///canvas.html", HostBounds::default())));

    assert!(host.active().is_none());
    assert!(host.pop_action().is_none());
}

#[test]
fn only_sizes_above_nothing_are_visible() {
    assert!(bounds(0.0, 0.0, 1.0, 1.0).visible());
    assert!(!bounds(0.0, 0.0, -1.0, 1.0).visible());
    assert!(!bounds(0.0, 0.0, 1.0, f64::NAN).visible());
    assert!(bounds(0.0, 0.0, f64::INFINITY, 1.0).visible());
    assert!(bounds(0.0, -0.0, 1.0, 1.0).same_as(bounds(-0.0, 0.0, 1.0, 1.0)));
    assert!(!bounds(f64::NAN, 0.0, 1.0, 1.0).same_as(bounds(f64::NAN, 0.0, 1.0, 1.0)));
}

#[test]
fn web_view_heeds_only_what_is_meant_for_its_pane() {
    let mut host = CanvasWebViewHost::new();
    let here = bounds(0.0, 0.0, 100.0, 100.0);
    let first = target("file:///canvas-a.html", here);
    let navigate = |pane: &str| CanvasHostAction::Navigate {
        pane_id: String::from(pane),
        url: String::from("file:///canvas-b.html"),
    };
    assert_eq!(host.apply_action(navigate("pane:1")), WebViewStep::Leave);

    let step = host.apply_action(CanvasHostAction::Mount(first.clone()));
    assert_eq!(step, WebViewStep::Build(first.clone()));
    let failed = Err(String::from("no display"));
    assert_eq!(host.built(first.pane_id.clone(), failed.clone()), failed);
    assert_eq!(host.apply_action(navigate("pane:1")), WebViewStep::Leave);

    assert_eq!(host.built(first.pane_id, Ok(())), Ok(()));
    assert_eq!(
        host.apply_action(navigate("pane:1")),
        WebViewStep::LoadUrl(String::from("file:///canvas-b.html"))
    );
    assert_eq!(host.apply_action(navigate("pane:2")), WebViewStep::Leave);
    assert_eq!(
        host.apply_action(CanvasHostAction::Resize {
            pane_id: String::from("pane:1"),
            bounds: here
        }),
        WebViewStep::SetBounds(here)
    );
    assert_eq!(
        host.apply_action(CanvasHostAction::Eval {
            pane_id: String::from("pane:1"),
            script: String::from("go();")
        }),
        WebViewStep::EvaluateScript(String::from("go();"))
    );
    let hide = |pane: &str| CanvasHostAction::Hide { pane_id: String::from(pane) };
    assert_eq!(host.apply_action(hide("pane:2")), WebViewStep::Leave);
    assert_eq!(host.apply_action(hide("pane:1")), WebViewStep::Close);
    assert_eq!(host, CanvasWebViewHost::default());
}

#[test]
fn window_follows_what_is_to_be_shown() {
    let mut state = CanvasHostState::default();
    let mut host = CanvasWebViewHost::new();
    let here = bounds(0.0, 0.0, 100.0, 100.0);
    let mut other = target("file:///canvas-b.html", here);
    other.pane_id = String::from("pane:2");

    state.sync_target(Some(target("file:///canvas-a.html", here)));
    state.sync_command("{}");
    state.sync_target(Some(other));
    let mut steps = Vec::new();
    while let Some(action) = state.pop_action() {
        let step = host.apply_action(action);
        if let WebViewStep::Build(built) = &step {
            host.built(built.pane_id.clone(), Ok(())).expect("built");
        }
        steps.push(step);
    }
    assert!(matches!(
        steps.as_slice(),
        [
            WebViewStep::Build(_),
            WebViewStep::EvaluateScript(_),
            WebViewStep::Close,
            WebViewStep::Build(_)
        ]
    ));
    assert_eq!(
        host.apply_action(CanvasHostAction::Hide { pane_id: String::from("pane:2") }),
        WebViewStep::Close
    );
}
