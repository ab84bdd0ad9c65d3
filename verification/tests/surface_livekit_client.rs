//! Talking to the session that holds a media room.

use tokio::sync::mpsc;

use ocean_gui::shell::surface_livekit::SurfaceLiveKitCredentials;
use ocean_gui::shell::surface_livekit_client::{
    coalesce_step, coalesce_surface_update, refused_join, validate_join_request,
    validate_surface_update, CoalesceStep, ReceivedCommand, SurfaceLiveKitClientAction,
    SurfaceLiveKitClientCommand, SurfaceLiveKitClientEvent, SurfaceLiveKitClientHandle,
    SurfaceLiveKitCommandError, SurfaceLiveKitJoinRequest, SurfaceLiveKitSurfaceUpdate,
};
use ocean_gui::sorted_map::SortedMap;

fn attributes() -> SortedMap<String> {
    let mut attributes = SortedMap::new();
    attributes.insert("ocean.client".to_string(), "ocean-gui".to_string());
    attributes.insert("ocean.surface_id".to_string(), "gpui:local".to_string());
    attributes
}

fn valid_join_request() -> SurfaceLiveKitJoinRequest {
    SurfaceLiveKitJoinRequest::new(
        SurfaceLiveKitCredentials {
            url: "wss://livekit.example.test".to_string(),
            room: "ocean-surface-main".to_string(),
            token: "signed-token".to_string(),
            expires_at: "2026-06-03T22:00:00Z".to_string(),
        },
        r#"{"surface_session_id":"surface:main"}"#.to_string(),
        attributes(),
        false,
        false,
    )
}

#[test]
fn join_request_requires_credentials_and_metadata() {
    let mut request = valid_join_request();
    assert_eq!(validate_join_request(&request), Ok(()));

    request.credentials.url.clear();
    assert_eq!(
        validate_join_request(&request),
        Err("missing LiveKit url".to_string())
    );

    request = valid_join_request();
    request.credentials.token.clear();
    assert_eq!(
        validate_join_request(&request),
        Err("missing LiveKit token".to_string())
    );

    request = valid_join_request();
    request.initial_update.room_metadata.clear();
    assert_eq!(
        validate_join_request(&request),
        Err("missing surface metadata".to_string())
    );
}

#[test]
fn join_request_preserves_surface_snapshot_and_attributes() {
    let request = valid_join_request();

    assert!(
        request
            .initial_update
            .room_metadata
            .contains("surface:main")
    );
    assert_eq!(
        request
            .initial_update
            .participant_attributes
            .get("ocean.client")
            .map(String::as_str),
        Some("ocean-gui")
    );
    assert_eq!(request.credentials.room, "ocean-surface-main");
    assert!(!request.initial_update.mic_enabled);
    assert!(!request.initial_update.camera_enabled);
}

#[test]
fn command_handle_reports_full_and_closed_queues() {
    let (sender, receiver): (_, mpsc::Receiver<SurfaceLiveKitClientCommand>) = mpsc::channel(1);
    let handle = SurfaceLiveKitClientHandle::new(sender);
    let update = valid_join_request().initial_update;

    assert_eq!(handle.try_update_surface(update.clone()), Ok(()));
    assert_eq!(
        handle.try_update_surface(update),
        Err(SurfaceLiveKitCommandError::Full)
    );

    drop(receiver);
    assert_eq!(
        handle.try_disconnect(),
        Err(SurfaceLiveKitCommandError::Closed)
    );
}

#[test]
fn coalesces_queued_surface_updates_to_latest_update() {
    let (sender, mut receiver) = mpsc::channel(4);
    let first = valid_join_request().initial_update;
    let mut second = first.clone();
    second.room_metadata = r#"{"surface_session_id":"surface:second"}"#.to_string();
    let mut third = first.clone();
    third.room_metadata = r#"{"surface_session_id":"surface:third"}"#.to_string();

    sender
        .try_send(SurfaceLiveKitClientCommand::UpdateSurface(second))
        .expect("second update should enqueue");
    sender
        .try_send(SurfaceLiveKitClientCommand::UpdateSurface(third))
        .expect("third update should enqueue");

    assert_eq!(
        coalesce_surface_update(&mut receiver, first),
        SurfaceLiveKitClientAction::UpdateSurface(SurfaceLiveKitSurfaceUpdate {
            room_metadata: r#"{"surface_session_id":"surface:third"}"#.to_string(),
            participant_attributes: attributes(),
            mic_enabled: false,
            camera_enabled: false,
        })
    );
}

#[test]
fn disconnect_command_wins_over_queued_surface_updates() {
    let (sender, mut receiver) = mpsc::channel(4);
    let first = valid_join_request().initial_update;
    let second = first.clone();

    sender
        .try_send(SurfaceLiveKitClientCommand::UpdateSurface(second))
        .expect("update should enqueue");
    sender
        .try_send(SurfaceLiveKitClientCommand::Disconnect)
        .expect("disconnect should enqueue");

    assert_eq!(
        coalesce_surface_update(&mut receiver, first),
        SurfaceLiveKitClientAction::Disconnect
    );
}

#[test]
fn blank_parts_of_a_request_are_named_in_order() {
    let mut request = valid_join_request();
    request.credentials.room = "  ".to_string();
    assert_eq!(validate_join_request(&request), Err("missing LiveKit room".to_string()));
    request.credentials.url = "\t".to_string();
    assert_eq!(validate_join_request(&request), Err("missing LiveKit url".to_string()));

    let mut update = valid_join_request().initial_update;
    assert_eq!(validate_surface_update(&update), Ok(()));
    update.room_metadata = " \n".to_string();
    assert_eq!(validate_surface_update(&update), Err("missing surface metadata".to_string()));
}

#[test]
fn closed_queue_ends_the_session() {
    let (sender, mut receiver) = mpsc::channel(4);
    drop(sender);
    assert_eq!(
        coalesce_surface_update(&mut receiver, valid_join_request().initial_update),
        SurfaceLiveKitClientAction::Closed
    );
    assert_eq!(SurfaceLiveKitCommandError::Full.message(), "LiveKit command queue is full");
    assert_eq!(SurfaceLiveKitCommandError::Closed.message(), "LiveKit command queue is closed");
}

#[test]
fn reading_the_queue_once_decides_one_step() {
    let shown = valid_join_request().initial_update;
    let mut later = shown.clone();
    later.mic_enabled = true;
    assert_eq!(
        coalesce_step(
            shown.clone(),
            ReceivedCommand::Command(SurfaceLiveKitClientCommand::UpdateSurface(later.clone()))
        ),
        CoalesceStep::ReadOn(later)
    );
    assert_eq!(
        coalesce_step(
            shown.clone(),
            ReceivedCommand::Command(SurfaceLiveKitClientCommand::Disconnect)
        ),
        CoalesceStep::Done(SurfaceLiveKitClientAction::Disconnect)
    );
    assert_eq!(
        coalesce_step(shown.clone(), ReceivedCommand::Empty),
        CoalesceStep::Done(SurfaceLiveKitClientAction::UpdateSurface(shown.clone()))
    );
    assert_eq!(
        coalesce_step(shown, ReceivedCommand::Disconnected),
        CoalesceStep::Done(SurfaceLiveKitClientAction::Closed)
    );
}

#[test]
fn join_without_a_session_fails_in_its_room() {
    assert_eq!(
        refused_join(valid_join_request()),
        SurfaceLiveKitClientEvent::Failed {
            room: "ocean-surface-main".to_string(),
            error: "voice/LiveKit support is not built in (rebuild ocean-gui with --features livekit)"
                .to_string(),
        }
    );
}

#[test]
fn what_is_offered_is_what_the_session_reads() {
    let (sender, mut receiver) = mpsc::channel(4);
    let handle = SurfaceLiveKitClientHandle::new(sender);
    let update = valid_join_request().initial_update;
    assert_eq!(handle.try_update_surface(update.clone()), Ok(()));
    assert_eq!(handle.clone().try_disconnect(), Ok(()));
    assert_eq!(receiver.try_recv(), Ok(SurfaceLiveKitClientCommand::UpdateSurface(update)));
    assert_eq!(receiver.try_recv(), Ok(SurfaceLiveKitClientCommand::Disconnect));
}

#[test]
fn reading_stops_at_what_decides() {
    let (sender, mut receiver) = mpsc::channel(4);
    let update = valid_join_request().initial_update;
    sender.try_send(SurfaceLiveKitClientCommand::Disconnect).expect("queue has room");
    sender
        .try_send(SurfaceLiveKitClientCommand::UpdateSurface(update.clone()))
        .expect("queue has room");
    assert_eq!(
        coalesce_surface_update(&mut receiver, update.clone()),
        SurfaceLiveKitClientAction::Disconnect
    );
    assert_eq!(receiver.try_recv(), Ok(SurfaceLiveKitClientCommand::UpdateSurface(update)));
}
