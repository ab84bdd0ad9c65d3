//! The daemon as the shell sees it.

use ocean_gui::shell::daemon::{
    agent_events_url, agent_session_create_url, agent_sessions_url, agent_turns_url,
    component_event_url, control_events_url, health_url, livekit_token_url, model_url, models_url,
    percent_encode_path_segment, permission_decision_url, permissions_url, projects_url,
    request_cancel_url, room_messages_url, room_participant_url, room_participants_url,
    room_transcript_url, room_url, rooms_url, session_detail_url, DaemonHealth, HealthResponse,
    NativeDaemonState, PermissionDecision, PermissionDecisionRequest, RoomMessageKind,
    RoomParticipantKind, SseFrames, DEFAULT_DAEMON_URL,
};

#[test]
fn health_url_trims_trailing_slash() {
    assert_eq!(
        health_url("http://127.0.0.1:4780/"),
        "http://127.0.0.1:4780/health"
    );
    assert_eq!(
        agent_turns_url("http://127.0.0.1:4780/"),
        "http://127.0.0.1:4780/v1/agent/turns"
    );
    assert_eq!(
        agent_events_url("http://127.0.0.1:4780/", None),
        "http://127.0.0.1:4780/v1/agent/events"
    );
    assert_eq!(
        agent_events_url("http://127.0.0.1:4780/", Some("abc-123")),
        "http://127.0.0.1:4780/v1/agent/events?session_id=abc-123"
    );
    assert_eq!(
        agent_session_create_url("http://127.0.0.1:4780/"),
        "http://127.0.0.1:4780/v1/agent/sessions"
    );
    assert_eq!(
        models_url("http://127.0.0.1:4780/"),
        "http://127.0.0.1:4780/v1/models"
    );
    assert_eq!(
        model_url("http://127.0.0.1:4780/"),
        "http://127.0.0.1:4780/v1/model"
    );
    assert_eq!(
        permissions_url("http://127.0.0.1:4780/"),
        "http://127.0.0.1:4780/v1/permissions"
    );
    assert_eq!(
        request_cancel_url("http://127.0.0.1:4780/", "req-1"),
        "http://127.0.0.1:4780/v1/requests/req-1/cancel"
    );
    assert_eq!(
        permission_decision_url("http://127.0.0.1:4780/", "perm-1"),
        "http://127.0.0.1:4780/v1/permissions/perm-1/decision"
    );
    assert_eq!(
        component_event_url("http://127.0.0.1:4780/"),
        "http://127.0.0.1:4780/v1/component/event"
    );
    assert_eq!(
        livekit_token_url("http://127.0.0.1:4780/", "project:surface-demo"),
        "http://127.0.0.1:4780/v1/rooms/project%3Asurface-demo/livekit-token"
    );
    assert_eq!(
        livekit_token_url("http://127.0.0.1:4780/", "project/surface demo"),
        "http://127.0.0.1:4780/v1/rooms/project%2Fsurface%20demo/livekit-token"
    );
}

#[test]
fn native_daemon_state_reports_backend_when_ready() {
    let mut state = NativeDaemonState {
        url: "http://localhost:4780".to_string(),
        health: DaemonHealth::Checking,
        last_checked: None,
    };

    state.apply_health(DaemonHealth::Ready(HealthResponse {
        ok: true,
        service: "ocean-daemon".to_string(),
        version: "0.1.0".to_string(),
        backend: "ocean-native".to_string(),
    }));

    assert_eq!(state.status_label(), "online");
    assert_eq!(state.backend_label(), "ocean-native");
}

#[test]
fn control_events_url_trims_trailing_slash() {
    assert_eq!(
        control_events_url("http://127.0.0.1:4780/"),
        "http://127.0.0.1:4780/v1/events"
    );
}

#[test]
fn room_urls_match_daemon_persistent_routes() {
    assert_eq!(
        rooms_url("http://127.0.0.1:4780/"),
        "http://127.0.0.1:4780/v1/rooms/persistent"
    );
    assert_eq!(
        room_url("http://127.0.0.1:4780/", "map-fix"),
        "http://127.0.0.1:4780/v1/rooms/persistent/map-fix"
    );
    assert_eq!(
        room_transcript_url("http://127.0.0.1:4780/", "map-fix", 7),
        "http://127.0.0.1:4780/v1/rooms/persistent/map-fix/transcript?after_seq=7"
    );
    assert_eq!(
        room_participants_url("http://127.0.0.1:4780/", "map-fix"),
        "http://127.0.0.1:4780/v1/rooms/persistent/map-fix/participants"
    );
    assert_eq!(
        room_participant_url("http://127.0.0.1:4780/", "map-fix", "web-1"),
        "http://127.0.0.1:4780/v1/rooms/persistent/map-fix/participants/web-1"
    );
    assert_eq!(
        room_messages_url("http://127.0.0.1:4780/", "map-fix"),
        "http://127.0.0.1:4780/v1/rooms/persistent/map-fix/messages"
    );
}

#[test]
fn room_key_with_unsafe_chars_is_percent_encoded() {
    assert_eq!(
        room_url("http://127.0.0.1:4780", "ops room"),
        "http://127.0.0.1:4780/v1/rooms/persistent/ops%20room"
    );
}

fn read_sse(input: &str) -> Vec<serde_json::Value> {
    let mut frames = SseFrames::new();
    let mut payloads: Vec<String> = Vec::new();
    for line in input.split_inclusive('\n') {
        payloads.extend(frames.read_line(line));
    }
    payloads.extend(frames.finish());
    payloads
        .iter()
        .map(|payload| serde_json::from_str(payload).expect("payload should be JSON"))
        .collect()
}

fn member<'a>(value: &'a serde_json::Value, key: &str) -> Option<&'a str> {
    value.get(key).and_then(serde_json::Value::as_str)
}

#[test]
fn sse_reader_parses_agent_events() {
    let input = "event: assistant_text_delta\ndata: {\"type\":\"assistant_text_delta\",\"session_id\":\"s1\",\"turn_id\":\"t1\",\"delta\":\"hi\"}\n\n";
    let events = read_sse(input);
    assert_eq!(events.len(), 1);
    assert_eq!(member(&events[0], "type"), Some("assistant_text_delta"));
    assert_eq!(member(&events[0], "session_id"), Some("s1"));
    assert_eq!(member(&events[0], "turn_id"), Some("t1"));
    assert_eq!(member(&events[0], "delta"), Some("hi"));
}

#[test]
fn sse_reader_parses_control_permission_request() {
    let input = "event: permission_request\ndata: {\"type\":\"permission_request\",\"permission_id\":\"perm-1\",\"session_id\":\"s1\",\"tool\":\"write_file\",\"reason\":\"create file\",\"args\":{\"path\":\"/tmp/x\"}}\n\n";
    let events = read_sse(input);
    assert_eq!(events.len(), 1);
    assert_eq!(member(&events[0], "permission_id"), Some("perm-1"));
    assert_eq!(member(&events[0], "session_id"), Some("s1"));
    assert_eq!(member(&events[0], "tool"), Some("write_file"));
    assert_eq!(member(&events[0], "reason"), Some("create file"));
    assert_eq!(
        events[0].get("args").and_then(|args| args.get("path")).and_then(|path| path.as_str()),
        Some("/tmp/x")
    );
}

#[test]
fn sse_reader_parses_control_permission_decision() {
    let input = "event: permission_decision\ndata: {\"type\":\"permission_decision\",\"permission_id\":\"perm-1\",\"session_id\":\"s1\"}\n\n";
    let events = read_sse(input);
    assert_eq!(events.len(), 1);
    assert_eq!(member(&events[0], "type"), Some("permission_decision"));
    assert_eq!(member(&events[0], "permission_id"), Some("perm-1"));
    assert_eq!(member(&events[0], "session_id"), Some("s1"));
}

#[test]
fn sse_frames_join_data_lines_and_skip_the_rest() {
    let mut frames = SseFrames::new();
    assert_eq!(frames.read_line("\n"), None);
    assert_eq!(frames.read_line("id: 7\r\n"), None);
    assert_eq!(frames.read_line("data: one\r\n"), None);
    assert_eq!(frames.read_line("data:   two\n"), None);
    assert_eq!(frames.read_line("\r\n").as_deref(), Some("one\ntwo"));
    assert_eq!(frames.read_line("data:\n"), None);
    assert_eq!(frames.read_line("\n"), None);
    assert_eq!(frames.read_line("data: end"), None);
    assert_eq!(frames.finish().as_deref(), Some("end"));
    assert_eq!(frames.finish(), None);
}

#[test]
fn daemon_is_where_it_is_set_to_be() {
    let set = NativeDaemonState::from_setting(Some("http://host:1/".to_string()));
    assert_eq!(set.url, "http://host:1/");
    assert_eq!(set.status_label(), "checking");
    assert_eq!(set.backend_label(), "pending");
    assert_eq!(NativeDaemonState::from_setting(Some("  ".to_string())).url, DEFAULT_DAEMON_URL);
    assert_eq!(NativeDaemonState::from_setting(None).url, DEFAULT_DAEMON_URL);
}

#[test]
fn health_is_shown_in_words() {
    let mut state = NativeDaemonState::from_setting(None);
    assert!(state.last_checked.is_none());
    state.mark_checking();
    assert!(state.last_checked.is_some());
    assert_eq!(state.status_label(), "checking");
    state.apply_health(DaemonHealth::Offline("refused".to_string()));
    assert_eq!(state.status_label(), "offline");
    assert_eq!(state.backend_label(), "refused");
    state.apply_health(DaemonHealth::Ready(HealthResponse {
        ok: false,
        service: String::new(),
        version: String::new(),
        backend: "b".to_string(),
    }));
    assert_eq!(state.status_label(), "degraded");
    assert_eq!(state.backend_label(), "b");
}

#[test]
fn path_segments_are_encoded_by_byte() {
    assert_eq!(percent_encode_path_segment("aZ9-._~"), "aZ9-._~");
    assert_eq!(percent_encode_path_segment("a/b?c%"), "a%2Fb%3Fc%25");
    assert_eq!(percent_encode_path_segment("\u{e9}\u{1F916}"), "%C3%A9%F0%9F%A4%96");
}

#[test]
fn decisions_carry_their_token() {
    let allow = PermissionDecisionRequest::allow("perm-1".to_string(), Some("t".to_string()));
    assert_eq!(allow.decision, PermissionDecision::Allow);
    assert_eq!(allow.decision_token.as_deref(), Some("t"));
    let deny = PermissionDecisionRequest::deny("perm-2".to_string(), "no".to_string(), None);
    assert_eq!(deny.decision, PermissionDecision::Deny { reason: Some("no".to_string()) });
    assert_eq!(deny.permission_id, "perm-2");
}

#[test]
fn only_messages_are_said() {
    assert!(!RoomMessageKind::Message.is_system());
    assert!(RoomMessageKind::ParticipantJoined.is_system());
    assert!(RoomMessageKind::ParticipantLeft.is_system());
    assert!(RoomMessageKind::System.is_system());
    assert_eq!(RoomParticipantKind::Agent.glyph(), "\u{1F916}");
    assert_eq!(RoomParticipantKind::Tool.label(), "tool");
}

#[test]
fn other_addresses_name_their_parts() {
    assert_eq!(agent_sessions_url("http://h//"), "http://h/v1/agent/sessions");
    assert_eq!(projects_url("http://h"), "http://h/v1/projects");
    assert_eq!(session_detail_url("http://h/", "s1"), "http://h/v1/sessions/s1");
    assert_eq!(agent_events_url("http://h", Some("")), "http://h/v1/agent/events");
}

#[test]
fn parts_of_a_payload_come_back_on_lines() {
    let mut frames = SseFrames::new();
    for part in ["{", "\"a\": 1", "}"] {
        assert_eq!(frames.read_line(&format!("data: {part}\n")), None);
    }
    assert_eq!(frames.read_line("\n"), Some(String::from("{\n\"a\": 1\n}")));
    assert_eq!(frames.read_line("\r\n"), None);
}
