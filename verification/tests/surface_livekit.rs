//! Voice and video on a surface.

use ocean_gui::json::Json;
use ocean_gui::shell::canvas::ledger::{CanvasLedger, CanvasMode, Placement};
use ocean_gui::shell::canvas::patch::{
    ActorRef, CanvasComponentPatch, ComponentId, Coord, Rect, SurfacePatch,
};
use ocean_gui::shell::daemon::LiveKitTokenResponse;
use ocean_gui::shell::surface::{
    LedgerComponent, SurfaceMode, SurfaceState, DEFAULT_LIVEKIT_ROOM_ID,
};
use ocean_gui::shell::surface_livekit::{
    presence_on_canvas, SurfaceLiveKitJoinState, SurfaceLiveKitParticipant, SurfaceLiveKitState,
    SurfaceMediaMetadata, SurfaceRoomMetadata, DEFAULT_DISPLAY_NAME, DEFAULT_PARTICIPANT_ID,
    DEFAULT_SURFACE_ID,
};

fn c(value: f32) -> Coord {
    Coord(value.to_bits())
}

fn card(id: &str, x: f32, y: f32, text: &str) -> LedgerComponent {
    LedgerComponent::markdown_card(id.to_string(), c(x), c(y), text.to_string())
}

fn main_pane_id_for(surface: &SurfaceState, canvas_id: &str) -> String {
    surface
        .turn_context()
        .panes
        .into_iter()
        .find(|pane| pane.canvas_id.as_deref() == Some(canvas_id))
        .map(|pane| pane.pane_id)
        .unwrap_or_else(|| panic!("no pane hosts {canvas_id}"))
}

fn native_ledger_with_components(canvas_id: &str, n: usize) -> CanvasLedger {
    let mut ledger = CanvasLedger::new(canvas_id, "surface:main", CanvasMode::Freeform);
    let rect = Rect::new(c(40.0), c(40.0), c(240.0), c(160.0));
    for i in 0..n {
        ledger.apply_patch(
            SurfacePatch::UpsertComponent {
                component: CanvasComponentPatch {
                    id: ComponentId::new(&format!("comp-{i}")),
                    kind: "brief_card".to_string(),
                    rect: Some(rect),
                    z_index: None,
                    content: Json::Object(vec![
                        ("title".to_string(), Json::Text(format!("Secret brief {i}"))),
                        (
                            "body".to_string(),
                            Json::Text(
                                "long confidential canvas document body that must not leak"
                                    .to_string(),
                            ),
                        ),
                    ]),
                    metadata: Json::Null,
                },
            },
            ActorRef::agent(Some("sage".into())),
            1_000 + i as i64,
            &Placement { slot: rect, rects: vec![] },
        );
    }
    ledger
}

#[test]
fn token_request_uses_surface_participant_and_publish_permissions() {
    let mut state = SurfaceLiveKitState::default();

    let request = state.begin_token_request();

    assert_eq!(state.join_state(), SurfaceLiveKitJoinState::RequestingToken);
    assert_eq!(state.room_id(), DEFAULT_LIVEKIT_ROOM_ID);
    assert_eq!(request.surface_id, DEFAULT_SURFACE_ID);
    assert_eq!(request.participant_id, DEFAULT_PARTICIPANT_ID);
    assert_eq!(request.display_name, DEFAULT_DISPLAY_NAME);
    assert!(request.can_publish);
    assert!(request.can_subscribe);
}

#[test]
fn token_response_stores_join_credentials_without_serializing_secret() {
    let mut state = SurfaceLiveKitState::default();

    state
        .apply_token_response(LiveKitTokenResponse {
            ok: true,
            url: "wss://livekit.example.test".to_string(),
            room: "project:surface-alpha".to_string(),
            token: "secret-jwt".to_string(),
            expires_at: "2026-06-03T22:00:00Z".to_string(),
            error: None,
        })
        .expect("token response should apply");

    assert_eq!(state.join_state(), SurfaceLiveKitJoinState::TokenReady);
    assert_eq!(state.room_id(), "project:surface-alpha");
    assert_eq!(
        state
            .credentials()
            .map(|credentials| credentials.token.as_str()),
        Some("secret-jwt")
    );
}

#[test]
fn denied_token_clears_credentials_and_marks_failure() {
    let mut state = SurfaceLiveKitState::default();
    state
        .apply_token_response(LiveKitTokenResponse {
            ok: true,
            url: "wss://livekit.example.test".to_string(),
            room: "project:surface-alpha".to_string(),
            token: "secret-jwt".to_string(),
            expires_at: "2026-06-03T22:00:00Z".to_string(),
            error: None,
        })
        .expect("initial token should apply");

    let result = state.apply_token_response(LiveKitTokenResponse {
        ok: false,
        url: String::new(),
        room: "project:surface-alpha".to_string(),
        token: String::new(),
        expires_at: String::new(),
        error: Some("room disabled".to_string()),
    });

    assert_eq!(result, Err("room disabled".to_string()));
    assert_eq!(state.join_state(), SurfaceLiveKitJoinState::Failed);
    assert!(state.credentials().is_none());
    assert_eq!(state.status_label(), "failed room disabled");
}

#[test]
fn join_state_transitions_track_livekit_client_lifecycle() {
    let mut state = SurfaceLiveKitState::default();
    state
        .apply_token_response(LiveKitTokenResponse {
            ok: true,
            url: "wss://livekit.example.test".to_string(),
            room: "project:surface-alpha".to_string(),
            token: "secret-jwt".to_string(),
            expires_at: "2026-06-03T22:00:00Z".to_string(),
            error: None,
        })
        .expect("token response should apply");

    state.mark_joining();
    assert_eq!(state.join_state(), SurfaceLiveKitJoinState::Joining);
    assert!(state.credentials().is_some());

    state.mark_joined();
    assert_eq!(state.join_state(), SurfaceLiveKitJoinState::Joined);
    assert!(state.credentials().is_some());

    state.mark_disconnected("left room");
    assert_eq!(state.join_state(), SurfaceLiveKitJoinState::NotJoined);
    assert!(state.credentials().is_none());
}

#[test]
fn room_metadata_is_session_rooted_and_lists_all_canvas_summaries() {
    let mut surface = SurfaceState::default();
    let storyboard_canvas = surface.open_canvas_pane("Storyboard", SurfaceMode::Storyboard);
    surface.upsert_component(
        "canvas:main",
        card("brief-1", 40.0, 40.0, "Sales brief"),
    );
    surface.upsert_component(
        &storyboard_canvas,
        card("frame-1", 80.0, 80.0, "Opening frame"),
    );

    let metadata = SurfaceLiveKitState::default().room_metadata_for(
        &surface,
        None,
        Some("agent-session-1"),
    );

    assert_eq!(metadata.version, 1);
    assert_eq!(metadata.surface_session_id, "surface:main");
    assert_eq!(
        metadata.agent_session_id.as_deref(),
        Some("agent-session-1")
    );
    assert_eq!(metadata.active_canvas_id.as_deref(), Some("canvas:2"));
    assert_eq!(metadata.canvases.len(), 2);
    assert!(
        metadata
            .canvases
            .iter()
            .any(|canvas| { canvas.canvas_id == "canvas:main" && canvas.component_count == 1 })
    );
    assert!(metadata.canvases.iter().any(|canvas| {
        canvas.canvas_id == storyboard_canvas && canvas.mode == SurfaceMode::Storyboard
    }));
}

#[test]
fn room_metadata_sources_active_canvas_and_revision_from_native_ledger() {
    // Native ledger is the source of truth for the active canvas pointer +
    let surface = SurfaceState::default();
    let ledger = native_ledger_with_components("canvas:main", 3);
    assert_eq!(ledger.revision, 3, "three upserts bump the ledger to rev 3");

    let metadata = SurfaceLiveKitState::default().room_metadata_for(
        &surface,
        Some(&ledger),
        Some("agent-session-1"),
    );

    assert_eq!(metadata.active_canvas_id.as_deref(), Some("canvas:main"));
    assert_eq!(
        metadata.canvas_revision,
        Some(3),
        "canvas_revision must come from the native ledger, not the legacy surface"
    );
}

#[test]
fn room_metadata_without_native_ledger_falls_back_and_omits_revision() {
    // No native ledger mounted yet → legacy SurfaceState active canvas, and
    // no canvas_revision is emitted (skipped, not zero).
    let surface = SurfaceState::default();

    let metadata =
        SurfaceLiveKitState::default().room_metadata_for(&surface, None, Some("agent-1"));

    assert_eq!(metadata.canvas_revision, None);
}

#[test]
fn patch_advancing_ledger_yields_updated_compact_revision() {
    // Simulate the apply_surface_patch_event hot path: a patch advances the
    // native ledger revision, and the next compact metadata reflects it.
    let surface = SurfaceState::default();
    let state = SurfaceLiveKitState::default();

    let before = native_ledger_with_components("canvas:main", 1);
    let after = native_ledger_with_components("canvas:main", 2);

    let meta_before = state.room_metadata_for(&surface, Some(&before), None);
    let meta_after = state.room_metadata_for(&surface, Some(&after), None);

    assert_eq!(meta_before.canvas_revision, Some(1));
    assert_eq!(meta_after.canvas_revision, Some(2));
    assert!(
        meta_after.canvas_revision > meta_before.canvas_revision,
        "a patch event must advance the published canvas_revision"
    );
}

#[test]
fn active_canvas_follows_selected_pane_not_background_native_ledger() {
    let mut surface = SurfaceState::default();
    assert_eq!(surface.active_canvas_id(), Some("canvas:main"));

    // Open a second pane on a different canvas and select it (open_canvas_pane
    // makes the new pane active).
    let other_canvas = surface.open_canvas_pane("Storyboard", SurfaceMode::Storyboard);
    assert_ne!(other_canvas, "canvas:main");
    assert_eq!(surface.active_canvas_id(), Some(other_canvas.as_str()));

    // A native ledger for canvas:main is still mounted in the background.
    let ledger = native_ledger_with_components("canvas:main", 3);

    let metadata = SurfaceLiveKitState::default().room_metadata_for(
        &surface,
        Some(&ledger),
        Some("agent-1"),
    );

    assert_eq!(
        metadata.active_canvas_id.as_deref(),
        Some(other_canvas.as_str()),
        "active_canvas_id must be the selected pane, not the background native ledger"
    );
    assert_eq!(
        metadata.canvas_revision, None,
        "canvas_revision must be omitted when the active pane is not the native ledger's canvas"
    );

    // And when the operator switches BACK to canvas:main, the revision attaches.
    // Find the pane that hosts canvas:main and select it explicitly.
    let main_pane_id = main_pane_id_for(&surface, "canvas:main");
    assert!(surface.set_active_pane(&main_pane_id));
    assert_eq!(surface.active_canvas_id(), Some("canvas:main"));

    let metadata_back = SurfaceLiveKitState::default().room_metadata_for(
        &surface,
        Some(&ledger),
        Some("agent-1"),
    );
    assert_eq!(
        metadata_back.active_canvas_id.as_deref(),
        Some("canvas:main")
    );
    assert_eq!(
        metadata_back.canvas_revision,
        Some(3),
        "revision attaches once the operator is viewing the native canvas again"
    );
}

#[test]
fn room_metadata_is_compact_and_never_carries_the_full_canvas_document() {
    let surface = SurfaceState::default();
    let ledger = native_ledger_with_components("canvas:main", 4);

    // The ledger itself holds the bodies and the log.
    assert!(format!("{:?}", ledger.component(&ComponentId::new("comp-0")).expect("component").content)
        .contains("Secret brief"));
    assert_eq!(ledger.patch_log.len(), 4);

    let metadata = SurfaceLiveKitState::default().room_metadata_for(
        &surface,
        Some(&ledger),
        Some("agent-1"),
    );
    assert_eq!(metadata.active_canvas_id.as_deref(), Some("canvas:main"));
    assert_eq!(metadata.canvas_revision, Some(4));

    let shown = format!("{metadata:?}");
    assert!(!shown.contains("Secret brief"));
    assert!(!shown.contains("confidential canvas document body"));
    assert!(!shown.contains("patch_log"));
    assert!(!shown.contains("created_by") && !shown.contains("updated_at_ms"));
}

#[test]
fn participant_attributes_track_media_intent() {
    let mut state = SurfaceLiveKitState::default();
    state.toggle_mic();
    state.toggle_camera();

    let attributes = state.participant_attributes("surface:main");

    assert_eq!(attributes.get("ocean.client").map(String::as_str), Some("ocean-gui"));
    assert_eq!(attributes.get("ocean.surface_session_id").map(String::as_str), Some("surface:main"));
    assert_eq!(attributes.get("ocean.mic_enabled").map(String::as_str), Some("true"));
    assert_eq!(attributes.get("ocean.camera_enabled").map(String::as_str), Some("true"));
}

#[test]
fn roster_sorts_local_first_then_by_identity_and_clears_on_disconnect() {
    let mut state = SurfaceLiveKitState::default();
    state.set_roster(vec![
        SurfaceLiveKitParticipant {
            identity: "remote-b".to_string(),
            name: "Bea".to_string(),
            local: false,
            mic: true,
            ..SurfaceLiveKitParticipant::default()
        },
        SurfaceLiveKitParticipant {
            identity: "human:local".to_string(),
            name: "Operator".to_string(),
            local: true,
            ..SurfaceLiveKitParticipant::default()
        },
        SurfaceLiveKitParticipant {
            identity: "remote-a".to_string(),
            name: "Ada".to_string(),
            local: false,
            camera: true,
            ..SurfaceLiveKitParticipant::default()
        },
    ]);

    let roster = state.roster();
    assert_eq!(roster.len(), 3);
    assert!(roster[0].local);
    assert_eq!(roster[0].identity, "human:local");
    assert_eq!(roster[1].identity, "remote-a");
    assert_eq!(roster[2].identity, "remote-b");

    state.mark_disconnected("left room");
    assert!(state.roster().is_empty());
}

#[test]
fn mic_intent_can_be_cleared_after_publish_failure() {
    let mut state = SurfaceLiveKitState::default();

    assert!(state.toggle_mic());
    state.set_mic_enabled(false);

    assert!(!state.mic_enabled());
    assert_eq!(
        state
            .participant_attributes("surface:main")
            .get("ocean.mic_enabled")
            .map(String::as_str),
        Some("false")
    );
}

fn remote_on_canvas(identity: &str, canvas_id: Option<&str>) -> SurfaceLiveKitParticipant {
    SurfaceLiveKitParticipant {
        identity: identity.to_string(),
        name: identity.to_string(),
        local: false,
        active_canvas_id: canvas_id.map(str::to_string),
        ..SurfaceLiveKitParticipant::default()
    }
}

#[test]
fn canvas_pointer_parses_active_canvas_and_revision_from_published_metadata() {
    let surface = SurfaceState::default();
    let ledger = native_ledger_with_components("canvas:storyboard", 2);
    let metadata =
        SurfaceLiveKitState::default().room_metadata_for(&surface, Some(&ledger), Some("agent-1"));

    // The pointer follows the selected pane, which is not the ledger's canvas.
    let (canvas_id, revision) =
        SurfaceLiveKitParticipant::canvas_pointer_from_metadata("{..}", Some(metadata));
    assert_eq!(canvas_id.as_deref(), Some("canvas:main"));
    assert_eq!(revision, None);

    let on_ledger = SurfaceRoomMetadata {
        version: 1,
        room_id: "r".to_string(),
        surface_id: "s".to_string(),
        surface_session_id: "sess".to_string(),
        agent_session_id: None,
        active_pane_id: "p".to_string(),
        active_canvas_id: Some("canvas:storyboard".to_string()),
        canvas_revision: Some(7),
        media: SurfaceMediaMetadata { mic_enabled: false, camera_enabled: false },
        canvases: vec![],
    };
    let (canvas_id, revision) =
        SurfaceLiveKitParticipant::canvas_pointer_from_metadata("{..}", Some(on_ledger));
    assert_eq!(canvas_id.as_deref(), Some("canvas:storyboard"));
    assert_eq!(revision, Some(7));
}

#[test]
fn canvas_pointer_from_blank_or_garbage_metadata_is_none() {
    // Voice-only peer (no surface metadata) or a pre-first-metadata frame.
    assert_eq!(
        SurfaceLiveKitParticipant::canvas_pointer_from_metadata("", None),
        (None, None)
    );
    assert_eq!(
        SurfaceLiveKitParticipant::canvas_pointer_from_metadata("   ", None),
        (None, None)
    );
    assert_eq!(
        SurfaceLiveKitParticipant::canvas_pointer_from_metadata("not json", None),
        (None, None)
    );
}

#[test]
fn presence_is_scoped_to_the_active_canvas_and_a_peer_on_another_canvas_is_hidden() {
    // Two collaborators on different canvases. Viewing canvas:workflow must show
    // only the workflow peer — the storyboard peer is NOT present here. This is
    let roster = vec![
        remote_on_canvas("ada", Some("canvas:workflow")),
        remote_on_canvas("bo", Some("canvas:storyboard")),
    ];

    let on_workflow = presence_on_canvas(&roster, Some("canvas:workflow"));
    assert_eq!(on_workflow.len(), 1);
    assert_eq!(on_workflow[0].identity, "ada");

    let on_storyboard = presence_on_canvas(&roster, Some("canvas:storyboard"));
    assert_eq!(on_storyboard.len(), 1);
    assert_eq!(on_storyboard[0].identity, "bo");
}

#[test]
fn switching_active_canvas_changes_the_collaborators_shown() {
    // The same roster, scoped against a different active canvas, yields a
    // different presence set — i.e. switching canvases re-scopes presence.
    let state = {
        let mut state = SurfaceLiveKitState::default();
        state.set_roster(vec![
            remote_on_canvas("ada", Some("canvas:workflow")),
            remote_on_canvas("bo", Some("canvas:storyboard")),
            remote_on_canvas("cy", Some("canvas:workflow")),
        ]);
        state
    };

    let workflow: Vec<&str> = state
        .presence_on_canvas(Some("canvas:workflow"))
        .iter()
        .map(|p| p.identity.as_str())
        .collect();
    assert_eq!(workflow, vec!["ada", "cy"]);

    let storyboard: Vec<&str> = state
        .presence_on_canvas(Some("canvas:storyboard"))
        .iter()
        .map(|p| p.identity.as_str())
        .collect();
    assert_eq!(storyboard, vec!["bo"]);
}

#[test]
fn local_participant_is_never_shown_as_a_collaborator_on_its_own_canvas() {
    // The local row carries our own canvas pointer, but we are not a
    // "collaborator" — presence_on_canvas must exclude `local`.
    let roster = vec![
        SurfaceLiveKitParticipant {
            identity: "human:local".to_string(),
            name: "Operator".to_string(),
            local: true,
            active_canvas_id: Some("canvas:main".to_string()),
            ..SurfaceLiveKitParticipant::default()
        },
        remote_on_canvas("ada", Some("canvas:main")),
    ];

    let present = presence_on_canvas(&roster, Some("canvas:main"));
    assert_eq!(present.len(), 1);
    assert_eq!(present[0].identity, "ada");
    assert!(present.iter().all(|p| !p.local));
}

#[test]
fn presence_is_empty_when_no_canvas_is_active_or_no_peer_published_one() {
    let roster = vec![
        remote_on_canvas("ada", Some("canvas:workflow")),
        remote_on_canvas("voiceonly", None),
    ];

    // No active canvas locally → nothing to scope onto.
    assert!(presence_on_canvas(&roster, None).is_empty());

    // A peer that published no canvas pointer is never on any canvas.
    let only_voice = vec![remote_on_canvas("voiceonly", None)];
    assert!(presence_on_canvas(&only_voice, Some("canvas:workflow")).is_empty());
}

#[test]
fn denied_token_without_a_reason_says_so() {
    let mut state = SurfaceLiveKitState::default();
    let result = state.apply_token_response(LiveKitTokenResponse {
        ok: false,
        url: String::new(),
        room: String::new(),
        token: String::new(),
        expires_at: String::new(),
        error: None,
    });
    assert_eq!(result, Err("token denied".to_string()));
    assert_eq!(state.status_label(), "failed token denied");
    assert_eq!(state.room_id(), DEFAULT_LIVEKIT_ROOM_ID);
}

#[test]
fn status_labels_follow_the_state() {
    let mut state = SurfaceLiveKitState::default();
    assert_eq!(state.status_label(), "not joined");
    let _ = state.begin_token_request();
    assert_eq!(state.status_label(), "requesting token");
    state.mark_joining();
    assert_eq!(state.status_label(), "joining project:surface-main");
    state.mark_joined();
    assert_eq!(state.status_label(), "joined project:surface-main");
    state.mark_failed("no route");
    assert_eq!(state.status_label(), "failed no route");
}

#[test]
fn participant_attributes_are_in_the_order_of_their_names() {
    let attributes = SurfaceLiveKitState::default().participant_attributes("surface:main");
    let names: Vec<&str> = (0..attributes.len()).map(|i| attributes.key_at(i)).collect();
    assert_eq!(
        names,
        vec![
            "ocean.camera_enabled",
            "ocean.client",
            "ocean.mic_enabled",
            "ocean.participant_id",
            "ocean.room_id",
            "ocean.surface_id",
            "ocean.surface_session_id",
        ]
    );
}
