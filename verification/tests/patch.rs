//! Patches and the order in which they converge.

use ocean_gui::json::Json;
use ocean_gui::shell::canvas::patch::{
    ActorId, ActorRef, CanvasComponentPatch, CanvasMergeState, ComponentId, ComponentVersion, Coord,
    EdgeId, LamportClock, MergeDecision, Rect, SurfacePatch, Viewport,
};

fn agent(name: &str) -> ActorId {
    ActorId::from_actor(&ActorRef::agent(Some(name.to_string())))
}

fn human() -> ActorId {
    ActorId::from_actor(&ActorRef::human(Some("operator".to_string())))
}

#[test]
fn actor_id_is_stable_distinct_and_transparent() {
    assert_eq!(agent("sage").as_str(), "agent:sage");
    assert_eq!(human().as_str(), "human:operator");
    assert_eq!(ActorId::from_actor(&ActorRef::system()).as_str(), "system");
    assert_eq!(agent("sage"), agent("sage"));
    assert_ne!(agent("sage"), agent("flux"));
}

#[test]
fn higher_revision_always_wins() {
    let lo = ComponentVersion::new(1, agent("zzz")); // even with a "bigger" actor
    let hi = ComponentVersion::new(2, agent("aaa"));
    assert!(hi.supersedes(&lo));
    assert!(!lo.supersedes(&hi));
}

#[test]
fn equal_revision_breaks_tie_on_actor_deterministically() {
    let a = ComponentVersion::new(5, agent("flux")); // "agent:flux"
    let b = ComponentVersion::new(5, agent("sage")); // "agent:sage" > "agent:flux"
    assert!(b.supersedes(&a), "higher actor id wins the tie");
    assert!(!a.supersedes(&b));
    assert!(!(a.supersedes(&b) && b.supersedes(&a)), "antisymmetric");
}

#[test]
fn identical_version_does_not_supersede_itself() {
    let v = ComponentVersion::new(3, agent("sage"));
    assert!(!v.supersedes(&v.clone()), "a replay must not win (idempotent)");
}

#[test]
fn lamport_tick_is_monotonic_and_observe_jumps_past_remote() {
    let mut c = LamportClock::new();
    assert_eq!(c.tick(), 1);
    assert_eq!(c.tick(), 2);
    c.observe(9);
    assert_eq!(c.now(), 9);
    assert_eq!(c.tick(), 10, "next local write is strictly greater than any seen");
    c.observe(3);
    assert_eq!(c.now(), 10, "observing something smaller never rewinds");
}

#[test]
fn same_component_converges_regardless_of_order() {
    let id = ComponentId::new("brief-1");
    // Genuinely concurrent: same rev, neither observed the other.
    let operator_write = ComponentVersion::new(1, human()); // "human:operator"
    let agent_write = ComponentVersion::new(1, agent("sage")); // "agent:sage"

    let mut a = CanvasMergeState::new();
    let d1 = a.merge(&id, operator_write.clone());
    let d2 = a.merge(&id, agent_write.clone());

    let mut b = CanvasMergeState::new();
    b.merge(&id, agent_write.clone());
    b.merge(&id, operator_write.clone());

    assert_eq!(a.version(&id), b.version(&id), "replicas converge");
    // "human:operator" > "agent:sage" lexicographically → operator wins.
    assert_eq!(a.version(&id).unwrap(), &operator_write);
    assert_eq!(d1, MergeDecision::Applied);
    assert_eq!(d2, MergeDecision::Superseded);
}

#[test]
fn higher_revision_wins_in_either_arrival_order() {
    let id = ComponentId::new("c1");
    let early = ComponentVersion::new(1, agent("sage"));
    let late = ComponentVersion::new(2, human());

    let mut s1 = CanvasMergeState::new();
    assert!(s1.merge(&id, early.clone()).applied());
    assert!(s1.merge(&id, late.clone()).applied());

    let mut s2 = CanvasMergeState::new();
    assert!(s2.merge(&id, late.clone()).applied());
    assert_eq!(s2.merge(&id, early.clone()), MergeDecision::Superseded);

    assert_eq!(s1.version(&id), s2.version(&id));
    assert_eq!(s1.version(&id).unwrap(), &late);
}

#[test]
fn different_components_both_land() {
    let a = ComponentId::new("a");
    let b = ComponentId::new("b");
    let mut s = CanvasMergeState::new();
    assert!(s.merge(&a, ComponentVersion::new(1, human())).applied());
    assert!(s.merge(&b, ComponentVersion::new(1, agent("sage"))).applied());
    assert_eq!(s.len(), 2);
}

#[test]
fn replaying_the_same_write_is_idempotent() {
    let id = ComponentId::new("c1");
    let w = ComponentVersion::new(3, agent("sage"));
    let mut s = CanvasMergeState::new();
    assert!(s.merge(&id, w.clone()).applied());
    assert_eq!(s.merge(&id, w.clone()), MergeDecision::Superseded);
    assert_eq!(s.version(&id).unwrap(), &w);
}

#[test]
fn max_rev_seeds_a_resuming_clock() {
    let mut s = CanvasMergeState::new();
    s.merge(&ComponentId::new("a"), ComponentVersion::new(4, human()));
    s.merge(&ComponentId::new("b"), ComponentVersion::new(7, agent("sage")));
    assert_eq!(s.max_rev(), 7);
    let mut clock = LamportClock::at(s.max_rev());
    assert_eq!(clock.tick(), 8);
}

#[test]
fn target_component_routes_per_component_ops_only() {
    let up = SurfacePatch::UpsertComponent {
        component: CanvasComponentPatch {
            id: ComponentId::new("c1"),
            kind: "card".to_string(),
            rect: None,
            z_index: None,
            content: Json::Null,
            metadata: Json::Null,
        },
    };
    assert_eq!(up.target_component(), Some(&ComponentId::new("c1")));
    assert_eq!(
        SurfacePatch::MoveComponent { component_id: ComponentId::new("c1"), x: Coord(0), y: Coord(0) }
            .target_component(),
        Some(&ComponentId::new("c1"))
    );
    assert_eq!(
        SurfacePatch::DeleteComponent { component_id: ComponentId::new("c1") }.target_component(),
        Some(&ComponentId::new("c1"))
    );
    // View-state / edge / multi-component ops are not gated.
    assert!(SurfacePatch::Select { ids: vec![] }.target_component().is_none());
    assert!(SurfacePatch::Disconnect { edge_id: EdgeId::new("e") }.target_component().is_none());
    assert!(SurfacePatch::Group {
        frame_id: ComponentId::new("f"),
        children: vec![],
    }
    .target_component()
    .is_none());
}

#[test]
fn merge_state_lists_its_components_in_order() {
    let mut state = CanvasMergeState::new();
    assert!(state.ids().is_empty());
    for id in ["c", "a", "b", "a"] {
        state.merge(&ComponentId::new(id), ComponentVersion::new(1, agent("sage")));
    }
    let ids: Vec<String> = state.ids().into_iter().map(|id| id.into_inner()).collect();
    assert_eq!(ids, vec!["a", "b", "c"]);
}

#[test]
fn numbers_are_compared_as_numbers() {
    let coord = |value: f32| Coord(value.to_bits());
    let values = [0.0, -0.0, 1.0, -1.0, f32::NAN, f32::INFINITY, f32::MIN_POSITIVE];
    for a in values {
        for b in values {
            assert_eq!(coord(a).same_as(coord(b)), a == b, "{a} {b}");
        }
    }
    let rect = |x: f32| Rect::new(coord(x), coord(1.0), coord(2.0), coord(3.0));
    assert!(rect(0.0).same_as(rect(-0.0)));
    assert!(!rect(0.0).same_as(rect(1.0)));
    let view = |zoom: f32| Viewport { x: coord(0.0), y: coord(0.0), zoom: coord(zoom) };
    assert!(view(1.0).same_as(view(1.0)));
    assert!(!view(f32::NAN).same_as(view(f32::NAN)));
}

#[test]
fn ids_are_made_from_texts() {
    assert_eq!(ComponentId::from("c1"), ComponentId::new("c1"));
    assert_eq!(EdgeId::from("e1".to_string()), EdgeId::new("e1"));
    let actor = ActorRef::agent(Some("scout".to_string()));
    assert_eq!(ActorId::from(&actor), ActorId::from_actor(&actor));
}
