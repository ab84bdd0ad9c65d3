//! Commands that change what the window shows.

use ocean_gui::json::Json;
use ocean_gui::shell::gui_control::{
    CanvasId, ComponentId, GuiCommand, GuiControlEvent, GuiControlState, RegionId, RoomId,
    RECENT_EVENT_LIMIT, REGION_CHAT_INLINE, REGION_MAIN_CANVAS,
};

fn props(members: &[(&str, &str)]) -> Json {
    Json::Object(
        members
            .iter()
            .map(|(k, v)| (String::from(*k), Json::Text(String::from(*v))))
            .collect(),
    )
}

#[test]
fn focuses_known_regions_and_records_event() {
    let mut state = GuiControlState::default();

    let event = state.apply(GuiCommand::FocusRegion { region: RegionId::new(REGION_MAIN_CANVAS) });

    assert_eq!(event, GuiControlEvent::Focused { region: RegionId::new(REGION_MAIN_CANVAS) });
    assert_eq!(state.active_region().as_str(), REGION_MAIN_CANVAS);
    assert_eq!(state.active_region_label(), REGION_MAIN_CANVAS);
    assert_eq!(state.last_event(), Some(&event));
}

#[test]
fn mounts_updates_and_unmounts_components_by_region() {
    let mut state = GuiControlState::default();
    let component_id = ComponentId::new("approval-1");

    let mounted = state.apply(GuiCommand::MountComponent {
        region: RegionId::new(REGION_CHAT_INLINE),
        component_id: component_id.clone(),
        kind: String::from("confirm"),
        props: props(&[("title", "Restart daemon")]),
        replace: false,
    });

    assert_eq!(
        mounted,
        GuiControlEvent::ComponentMounted {
            component_id: component_id.clone(),
            region: RegionId::new(REGION_CHAT_INLINE),
            revision: 1,
        }
    );
    assert_eq!(state.component_count(), 1);
    assert_eq!(state.component_count_in_region(&RegionId::new(REGION_CHAT_INLINE)), 1);
    assert_eq!(state.component_count_in_region(&RegionId::new(REGION_MAIN_CANVAS)), 0);
    assert_eq!(
        state.component(&component_id).expect("mounted component").props,
        props(&[("title", "Restart daemon")])
    );

    let updated = state.apply(GuiCommand::UpdateComponent {
        component_id: component_id.clone(),
        props: props(&[("title", "Restart daemon"), ("state", "running")]),
    });

    assert_eq!(
        updated,
        GuiControlEvent::ComponentUpdated { component_id: component_id.clone(), revision: 2 }
    );
    assert_eq!(
        state.component(&component_id).expect("updated component").props,
        props(&[("title", "Restart daemon"), ("state", "running")])
    );

    let unmounted =
        state.apply(GuiCommand::UnmountComponent { component_id: component_id.clone() });

    assert_eq!(unmounted, GuiControlEvent::ComponentUnmounted { component_id });
    assert_eq!(state.component_count(), 0);
}

#[test]
fn rejects_update_for_unknown_component() {
    let mut state = GuiControlState::default();

    let event = state.apply(GuiCommand::UpdateComponent {
        component_id: ComponentId::new("missing"),
        props: props(&[("state", "ignored")]),
    });

    assert_eq!(
        event,
        GuiControlEvent::Rejected { reason: String::from("component not mounted") }
    );
    assert_eq!(state.component_count(), 0);
}

#[test]
fn switches_room_and_session_independently() {
    let mut state = GuiControlState::default();

    state.apply(GuiCommand::SwitchRoom { room_id: RoomId::new("daily-standup") });
    state.apply(GuiCommand::SwitchSession { session_id: String::from("sess-42") });

    assert_eq!(state.active_room().map(RoomId::as_str), Some("daily-standup"));
    assert_eq!(state.active_session_id(), Some("sess-42"));
}

#[test]
fn canvases_count_their_patches() {
    let mut state = GuiControlState::default();
    let patch = || GuiCommand::PatchCanvas {
        canvas_id: CanvasId::new("canvas:main"),
        patch: Json::Null,
    };
    assert!(matches!(state.apply(patch()), GuiControlEvent::CanvasPatched { revision: 1, .. }));
    assert!(matches!(state.apply(patch()), GuiControlEvent::CanvasPatched { revision: 2, .. }));
}

#[test]
fn unknown_regions_and_absent_components_are_rejected() {
    let mut state = GuiControlState::default();
    let before = String::from(state.active_region().as_str());
    let focus = state.apply(GuiCommand::FocusRegion { region: RegionId::new("nowhere") });
    assert!(matches!(focus, GuiControlEvent::Rejected { .. }));
    let gone = state.apply(GuiCommand::UnmountComponent { component_id: ComponentId::new("x") });
    assert!(matches!(gone, GuiControlEvent::Rejected { .. }));
    assert_eq!(state.active_region().as_str(), before);
}

#[test]
fn the_status_is_what_was_said_last() {
    let mut state = GuiControlState::default();
    for i in 0..RECENT_EVENT_LIMIT + 3 {
        state.apply(GuiCommand::SetStatus { text: format!("step {i}") });
    }
    assert_eq!(state.status(), "step 66");
    assert_eq!(
        state.last_event(),
        Some(&GuiControlEvent::StatusChanged { text: String::from("step 66") })
    );
}

#[test]
fn ids_are_made_from_owned_and_borrowed_texts() {
    assert_eq!(RegionId::from("modal"), RegionId::new("modal"));
    assert_eq!(RoomId::from("r1".to_string()), RoomId::new("r1"));
}

#[test]
fn a_copy_of_the_state_goes_its_own_way() {
    let mut state = GuiControlState::default();
    let copy = state.clone();
    state.apply(GuiCommand::SwitchRoom { room_id: RoomId::new("r2") });
    assert_eq!(state.active_room().map(RoomId::as_str), Some("r2"));
    assert_eq!(copy.active_room().map(RoomId::as_str), None);
}
