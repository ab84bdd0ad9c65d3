//! The rooms panel.

use ocean_gui::shell::daemon::{
    Room, RoomMessage, RoomMessageKind, RoomParticipant, RoomParticipantKind,
};
use ocean_gui::shell::rooms::{
    author_label, participant_count_label, short_time, slugify, RoomIdentity, RoomsState,
};

fn participant(id: &str, kind: RoomParticipantKind) -> RoomParticipant {
    RoomParticipant {
        id: id.to_string(),
        kind,
        display_name: id.to_string(),
    }
}

fn message(seq: u64, body: &str) -> RoomMessage {
    RoomMessage {
        seq,
        author_id: "gpui-1".to_string(),
        author_kind: RoomParticipantKind::Human,
        kind: RoomMessageKind::Message,
        body: body.to_string(),
        created_at: String::new(),
    }
}

fn room(key: &str, participants: Vec<RoomParticipant>) -> Room {
    Room {
        id: key.to_string(),
        name: key.to_string(),
        participants,
        created_at: String::new(),
        updated_at: String::new(),
        trigger_policy: None,
    }
}

#[test]
fn slugify_lowercases_and_dashes_like_web_surface() {
    assert_eq!(slugify("Map Fix"), "map-fix");
    assert_eq!(slugify("  Ocean   Surface!! "), "ocean-surface");
    assert_eq!(slugify("already-ok_123"), "already-ok-123");
    assert_eq!(slugify("!!!"), "");
}

#[test]
fn short_time_trims_iso_to_minute() {
    assert_eq!(short_time("2026-06-05T12:34:56.789Z"), "2026-06-05 12:34");
    assert_eq!(short_time(""), "");
}

#[test]
fn participant_count_label_singular_and_plural() {
    assert_eq!(participant_count_label(0), "0 participants");
    assert_eq!(participant_count_label(1), "1 participant");
    assert_eq!(participant_count_label(4), "4 participants");
}

#[test]
fn joined_open_reflects_identity_in_roster() {
    let mut state = RoomsState::default();
    let me = state.identity.id.clone();
    assert!(!state.joined_open());

    state.open_key = Some("map-fix".to_string());
    state.open_room = Some(room(
        "map-fix",
        vec![participant("someone-else", RoomParticipantKind::Agent)],
    ));
    assert!(!state.joined_open());

    state.open_room = Some(room(
        "map-fix",
        vec![participant(&me, RoomParticipantKind::Human)],
    ));
    assert!(state.joined_open());
}

#[test]
fn begin_open_bumps_generation_and_clears_prior_room() {
    let mut state = RoomsState::default();
    state.open_room = Some(room("old", vec![]));
    state.transcript = vec![message(1, "stale")];

    let gen_id = state.begin_open("new".to_string());

    assert_eq!(state.open_key.as_deref(), Some("new"));
    assert!(state.open_room.is_none());
    assert!(state.transcript.is_empty());
    assert_eq!(gen_id, state.generation);
    assert!(state.status.contains("loading"));
}

#[test]
fn apply_loaded_is_dropped_when_generation_is_stale() {
    let mut state = RoomsState::default();
    let gen_id = state.begin_open("map-fix".to_string());

    // A fast re-select bumps the generation; the older load must not land.
    let _newer = state.begin_open("other".to_string());
    let landed = state.apply_loaded(gen_id, Some(room("map-fix", vec![])), vec![message(1, "hi")]);

    assert!(!landed);
    assert!(state.transcript.is_empty());
    assert_eq!(state.open_key.as_deref(), Some("other"));
}

#[test]
fn apply_loaded_lands_for_active_generation() {
    let mut state = RoomsState::default();
    let gen_id = state.begin_open("map-fix".to_string());

    let landed = state.apply_loaded(
        gen_id,
        Some(room("map-fix", vec![])),
        vec![message(1, "hi"), message(2, "there")],
    );

    assert!(landed);
    assert_eq!(state.transcript.len(), 2);
    assert!(state.status.is_empty());
}

#[test]
fn append_transcript_tail_appends_only_new_seqs_for_open_room() {
    let mut state = RoomsState::default();
    state.begin_open("map-fix".to_string());
    let generation = state.generation;
    state.apply_loaded(generation, Some(room("map-fix", vec![])), vec![message(1, "a")]);
    assert_eq!(state.highest_seq(), 1);

    // A tail that includes an already-held seq plus new ones.
    let appended =
        state.append_transcript_tail("map-fix", vec![message(1, "dup"), message(2, "b"), message(3, "c")]);
    assert!(appended);
    assert_eq!(state.transcript.len(), 3);
    assert_eq!(state.highest_seq(), 3);

    // A tail for a different (not-open) room is ignored.
    let appended_other = state.append_transcript_tail("other", vec![message(4, "x")]);
    assert!(!appended_other);
    assert_eq!(state.transcript.len(), 3);
}

#[test]
fn close_room_retires_poll_and_clears_state() {
    let mut state = RoomsState::default();
    let gen_id = state.begin_open("map-fix".to_string());
    state.apply_loaded(gen_id, Some(room("map-fix", vec![])), vec![message(1, "a")]);

    state.close_room();

    assert!(state.open_key.is_none());
    assert!(state.open_room.is_none());
    assert!(state.transcript.is_empty());
    assert_ne!(state.generation, gen_id); // poll loop retired
}

#[test]
fn can_send_requires_open_room_and_nonblank_draft() {
    let mut state = RoomsState::default();
    state.composer_draft = "hello".to_string();
    assert!(!state.can_send()); // no open room

    state.open_key = Some("map-fix".to_string());
    assert!(state.can_send());

    state.composer_draft = "   ".to_string();
    assert!(!state.can_send());
}

#[test]
fn header_title_uses_open_room_name_then_falls_back() {
    let mut state = RoomsState::default();
    assert_eq!(state.header_title(), "Rooms");

    state.open_room = Some(Room {
        id: "map-fix".to_string(),
        name: "Map Fix".to_string(),
        participants: vec![],
        created_at: String::new(),
        updated_at: String::new(),
        trigger_policy: None,
    });
    assert_eq!(state.header_title(), "Map Fix");
}

#[test]
fn tail_that_comes_twice_counts_once() {
    let mut state = RoomsState::default();
    let generation = state.begin_open("map-fix".to_string());
    state.apply_loaded(generation, None, vec![message(1, "a")]);
    let tail = || vec![message(3, "c"), message(2, "late"), message(5, "e")];

    assert!(state.append_transcript_tail("map-fix", tail()));
    let seqs: Vec<u64> = state.transcript.iter().map(|m| m.seq).collect();
    assert_eq!(seqs, vec![1, 3, 5]);
    assert!(!state.append_transcript_tail("map-fix", tail()));
    assert_eq!(state.transcript.len(), 3);
}

#[test]
fn slug_of_slug_is_itself() {
    for name in ["Map Fix", "--x--", "a  b\u{e9}c", ""] {
        let slug = slugify(name);
        assert_eq!(slugify(&slug), slug);
    }
    assert_eq!(slugify("--x--"), "x");
}

#[test]
fn identity_is_written_from_the_clock() {
    let identity = RoomIdentity::from_nanos(0);
    assert_eq!(identity.id, "gpui-0");
    assert_eq!(identity.display_name, "gpui-0");
    let one = RoomIdentity::from_nanos(1);
    assert_eq!(one.id, format!("gpui-{:x}", 0x9E37_79B9_7F4A_7C15u64 >> 24));
    assert_eq!(RoomIdentity::from_clock(None), identity);
    assert_eq!(RoomIdentity::from_clock(Some(1)), one);
    assert_eq!(RoomIdentity::from_clock(Some((1u128 << 64) + 1)), one);
    let minted = RoomIdentity::mint();
    assert!(minted.id.starts_with("gpui-"));
    assert!(minted.id.len() > 5);
    assert_eq!(minted.id, minted.display_name);
}

#[test]
fn author_label_carries_the_mark() {
    assert_eq!(author_label("scout", RoomParticipantKind::Agent), "\u{1F916} scout");
    assert_eq!(author_label("me", RoomParticipantKind::Human), "H me");
}

#[test]
fn answers_for_an_earlier_room_are_dropped() {
    let mut state = RoomsState::default();
    state.generation = u64::MAX;
    let before = state.generation;
    assert_eq!(state.begin_open("a".to_string()), 0);
    assert!(!state.apply_loaded(before, Some(room("b", Vec::new())), Vec::new()));
    state.close_room();
    assert_eq!(state.generation, 1);
    assert!(!state.apply_loaded(0, Some(room("a", Vec::new())), Vec::new()));
    assert!(state.open_room.is_none());
}

#[test]
fn rooms_and_the_open_room_are_replaced() {
    let mut state = RoomsState::default();
    state.set_list(vec![room("a", Vec::new()), room("b", Vec::new())]);
    assert_eq!(state.list.len(), 2);
    state.set_open_room(Some(room("b", Vec::new())));
    assert_eq!(state.header_title(), "b");
    state.set_open_room(None);
    assert_eq!(state.header_title(), "Rooms");
}
