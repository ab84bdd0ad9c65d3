//! What is drawn of a canvas and what the pointer does.

use ocean_gui::json::{Json, JsonNumber};
use ocean_gui::shell::canvas::hit_test::{paint_order, topmost_hit};
use ocean_gui::shell::canvas::ledger::{CanvasLedger, CanvasMode, ComponentKind, Placement};
use ocean_gui::shell::canvas::patch::{
    ActorRef, CanvasComponentPatch, CanvasEdgePatch, ComponentId, Coord, EdgeId, Endpoint, Rect,
    SurfacePatch, Viewport,
};
use ocean_gui::shell::canvas::render::{
    component_summary, component_title, drawn_edges, shows_body_line, status_color, style_for_kind,
    template_content_for, template_drawing, CanvasInteraction, DrawItem, OutlineState, ThemeColor,
};
use ocean_gui::shell::canvas::templates::{NodeStatus, Template, TemplateContent};

fn at(v: f32) -> Coord {
    Coord(v.to_bits())
}

fn rect(x: f32, y: f32, w: f32, h: f32) -> Rect {
    Rect::new(at(x), at(y), at(w), at(h))
}

fn text(s: &str) -> Json {
    Json::Text(String::from(s))
}

fn num(n: u64) -> Json {
    Json::Number(JsonNumber { text: format!("{n}"), unsigned: Some(n) })
}

fn obj(members: Vec<(&str, Json)>) -> Json {
    Json::Object(members.into_iter().map(|(k, v)| (String::from(k), v)).collect())
}

fn ledger() -> CanvasLedger {
    CanvasLedger::new("canvas:main", "sess-1", CanvasMode::Freeform)
}

fn apply(l: &mut CanvasLedger, patch: SurfacePatch, ms: i64) {
    let place = Placement { slot: rect(0.0, 0.0, 10.0, 10.0), rects: Vec::new() };
    l.apply_patch(patch, ActorRef::system(), ms, &place);
}

fn upsert(id: &str, kind: &str, rect: Rect, content: Json) -> SurfacePatch {
    SurfacePatch::UpsertComponent {
        component: CanvasComponentPatch {
            id: ComponentId::new(id),
            kind: String::from(kind),
            rect: Some(rect),
            z_index: None,
            content,
            metadata: Json::Null,
        },
    }
}

fn place(l: &mut CanvasLedger, id: &str, r: Rect, z: i32) {
    apply(
        l,
        SurfacePatch::UpsertComponent {
            component: CanvasComponentPatch {
                id: ComponentId::new(id),
                kind: String::from("card"),
                rect: Some(r),
                z_index: Some(z),
                content: Json::Null,
                metadata: Json::Null,
            },
        },
        0,
    );
}

/// The component under a point of the canvas.
fn hit(l: &CanvasLedger, x: f32, y: f32) -> Option<ComponentId> {
    let painted = paint_order(l);
    let hits = painted
        .iter()
        .map(|(_, r)| {
            let (rx, ry) = (f32::from_bits(r.x.0), f32::from_bits(r.y.0));
            let (rw, rh) = (f32::from_bits(r.w.0), f32::from_bits(r.h.0));
            x >= rx && x < rx + rw && y >= ry && y < ry + rh
        })
        .collect();
    topmost_hit(&painted, &hits)
}

fn at_rest() -> CanvasInteraction {
    CanvasInteraction::default()
}

#[test]
fn every_component_kind_has_a_style_and_does_not_panic() {
    let kinds = [
        ("card", ComponentKind::Card),
        ("text_block", ComponentKind::TextBlock),
        ("frame", ComponentKind::Frame),
        ("node", ComponentKind::Node),
        ("port", ComponentKind::Port),
        ("edge_label", ComponentKind::EdgeLabel),
        ("lane", ComponentKind::Lane),
        ("table", ComponentKind::Table),
        ("media_slot", ComponentKind::MediaSlot),
        ("stat", ComponentKind::Stat),
    ];

    let mut l = ledger();
    for (i, (kind_str, _)) in kinds.iter().enumerate() {
        apply(
            &mut l,
            upsert(
                &format!("c{i}"),
                kind_str,
                rect(i as f32 * 50.0, 0.0, 40.0, 40.0),
                obj(vec![("title", text(kind_str))]),
            ),
            0,
        );
    }
    assert_eq!(l.components.len(), kinds.len());

    for component in l.components.values() {
        let style = style_for_kind(component.kind);
        assert!(style.border_halves > 0);
        let _ = component_title(component);
        let _ = component_summary(component);
        assert_eq!(at_rest().outline_for(&component.id, &l), OutlineState::Plain);
    }

    for ((_, expected), component) in kinds.iter().zip(l.components.values()) {
        assert_eq!(component.kind, *expected);
    }
}

#[test]
fn container_and_node_kinds_get_distinct_styles() {
    let frame = style_for_kind(ComponentKind::Frame);
    let node = style_for_kind(ComponentKind::Node);
    assert_ne!(frame.fill, node.fill, "frame and node should look different");
    assert!(node.border_halves >= frame.border_halves);
    assert_eq!(style_for_kind(ComponentKind::Card).border, ThemeColor::Rule);
}

#[test]
fn summary_prefers_title_then_body_then_template() {
    let mut l = ledger();
    let r = rect(0.0, 0.0, 10.0, 10.0);
    apply(&mut l, upsert("a", "card", r, obj(vec![("title", text("Hi"))])), 0);
    apply(&mut l, upsert("b", "card", r, obj(vec![("body", text("line one\nline two"))])), 0);
    apply(&mut l, upsert("c", "brief_card", r, Json::Null), 0);

    let summary = |id: &str| component_summary(l.component(&ComponentId::new(id)).unwrap());
    assert_eq!(summary("a"), "Hi");
    assert_eq!(summary("b"), "line one");
    assert_eq!(summary("c"), "brief_card");
}

#[test]
fn title_falls_back_to_id_when_no_title_content() {
    let mut l = ledger();
    apply(&mut l, upsert("the-id", "card", rect(0.0, 0.0, 10.0, 10.0), Json::Null), 0);
    assert_eq!(component_title(l.component(&ComponentId::new("the-id")).unwrap()), "the-id");
}

#[test]
fn outline_precedence_is_active_write_over_focus_over_select_over_hover() {
    assert_eq!(OutlineState::resolve(true, true, true, true), OutlineState::ActiveWrite);
    assert_eq!(OutlineState::resolve(false, true, true, true), OutlineState::Focused);
    assert_eq!(OutlineState::resolve(false, false, true, true), OutlineState::Selected);
    assert_eq!(OutlineState::resolve(false, false, false, true), OutlineState::Hover);
    assert_eq!(OutlineState::resolve(false, false, false, false), OutlineState::Plain);
}

#[test]
fn none_outline_has_no_color_others_do() {
    assert!(OutlineState::Plain.color().is_none());
    assert_eq!(OutlineState::Plain.width(), 0);
    for s in [
        OutlineState::Hover,
        OutlineState::Selected,
        OutlineState::Focused,
        OutlineState::ActiveWrite,
    ] {
        assert!(s.color().is_some(), "{s:?} should have an outline color");
    }
    assert_eq!(OutlineState::ActiveWrite.width(), 3);
}

#[test]
fn outline_for_reads_ledger_selection() {
    let mut l = ledger();
    apply(&mut l, upsert("sel", "card", rect(0.0, 0.0, 10.0, 10.0), Json::Null), 0);
    apply(&mut l, SurfacePatch::Select { ids: vec![ComponentId::new("sel")] }, 1);
    assert_eq!(
        at_rest().outline_for(&ComponentId::new("sel"), &l),
        OutlineState::Selected
    );
}

#[test]
fn pointer_move_sets_hover_via_hit_test() {
    let mut l = ledger();
    apply(&mut l, upsert("a", "card", rect(0.0, 0.0, 100.0, 100.0), Json::Null), 0);
    let mut view = at_rest();

    view.pointer_moved(hit(&l, 50.0, 50.0));
    assert_eq!(view.hover, Some(ComponentId::new("a")));

    view.pointer_moved(hit(&l, 500.0, 500.0));
    assert_eq!(view.hover, None);
}

#[test]
fn left_down_focuses_component_under_pointer() {
    let mut l = ledger();
    apply(&mut l, upsert("a", "card", rect(0.0, 0.0, 100.0, 100.0), Json::Null), 0);
    let mut view = at_rest();

    view.left_pressed(hit(&l, 10.0, 10.0));
    assert_eq!(view.focus, Some(ComponentId::new("a")));

    view.left_pressed(hit(&l, 400.0, 400.0));
    assert_eq!(view.focus, None, "click on empty canvas clears focus");
}

#[test]
fn left_down_mirrors_selection_into_the_ledger_for_the_next_turn() {
    let mut l = ledger();
    apply(&mut l, upsert("a", "card", rect(0.0, 0.0, 100.0, 100.0), Json::Null), 0);
    let mut view = at_rest();

    let patch = view.left_pressed(hit(&l, 10.0, 10.0));
    apply(&mut l, patch, 0);
    assert_eq!(view.focus, Some(ComponentId::new("a")));
    assert_eq!(
        l.selection.component_ids,
        vec![ComponentId::new("a")],
        "click must mirror the selection into the ledger"
    );
    assert_eq!(l.compact_context().selection, vec![ComponentId::new("a")]);

    let patch = view.left_pressed(hit(&l, 400.0, 400.0));
    apply(&mut l, patch, 0);
    assert_eq!(view.focus, None);
    assert!(l.selection.component_ids.is_empty());
    assert!(l.compact_context().selection.is_empty());
}

#[test]
fn agent_set_viewport_reaches_the_renderer_viewport() {
    let mut l = ledger();
    let rest = Viewport { x: at(0.0), y: at(0.0), zoom: at(1.0) };
    assert_eq!(l.viewport, rest);
    let target = Viewport { x: at(120.0), y: at(80.0), zoom: at(2.5) };
    apply(&mut l, SurfacePatch::SetViewport { viewport: target }, 0);
    assert_eq!(l.viewport, target, "SetViewport updates the ledger viewport");

    let mut view = at_rest();
    assert_eq!(view.viewport, rest);
    view.viewport = l.viewport;
    assert_eq!(view.viewport, target);
    assert_eq!(f32::from_bits(view.viewport.zoom.0), 2.5);
}

fn connect(id: &str, from: &str, to: &str) -> SurfacePatch {
    SurfacePatch::Connect {
        edge: CanvasEdgePatch {
            id: EdgeId::new(id),
            from: Endpoint { component_id: ComponentId::new(from), port: None },
            to: Endpoint { component_id: ComponentId::new(to), port: None },
            kind: Some(String::from("flow")),
            label: None,
            metadata: Json::Null,
        },
    }
}

#[test]
fn only_edges_with_both_ends_are_drawn() {
    let mut l = ledger();
    let (a, b) = (rect(0.0, 0.0, 100.0, 100.0), rect(300.0, 0.0, 100.0, 100.0));
    apply(&mut l, upsert("a", "node", a, Json::Null), 0);
    apply(&mut l, upsert("b", "node", b, Json::Null), 0);
    apply(&mut l, connect("e1", "a", "b"), 0);
    apply(&mut l, connect("e2", "a", "ghost"), 0);

    assert_eq!(drawn_edges(&l), vec![(a, b)]);
}

#[test]
fn templated_component_resolves_drawable_content_primitives_do_not() {
    let mut l = ledger();
    apply(
        &mut l,
        upsert(
            "brief-1",
            "brief_card",
            rect(0.0, 0.0, 320.0, 220.0),
            obj(vec![("title", text("Brief")), ("body", text("Body"))]),
        ),
        0,
    );
    apply(
        &mut l,
        upsert(
            "card-1",
            "card",
            rect(0.0, 0.0, 100.0, 100.0),
            obj(vec![("title", text("Plain"))]),
        ),
        0,
    );

    let brief = l.component(&ComponentId::new("brief-1")).unwrap();
    let content = template_content_for(brief).expect("brief_card resolves template content");
    assert!(matches!(content, TemplateContent::Brief { .. }));

    let plain = l.component(&ComponentId::new("card-1")).unwrap();
    assert!(template_content_for(plain).is_none());
}

#[test]
fn each_template_resolves_its_matching_content_variant() {
    let matches_variant = |kind: &str, c: &TemplateContent| match kind {
        "brief_card" => matches!(c, TemplateContent::Brief { .. }),
        "workflow_node" => matches!(c, TemplateContent::WorkflowNode { .. }),
        "kanban_column" => matches!(c, TemplateContent::KanbanColumn { .. }),
        "storyboard_frame" => matches!(c, TemplateContent::StoryboardFrame { .. }),
        "stat_tile" => matches!(c, TemplateContent::Stat { .. }),
        "longhouse_proposal" => matches!(c, TemplateContent::LonghouseProposal { .. }),
        _ => false,
    };
    let kinds = [
        "brief_card",
        "workflow_node",
        "kanban_column",
        "storyboard_frame",
        "stat_tile",
        "longhouse_proposal",
    ];
    let mut l = ledger();
    for (i, kind) in kinds.iter().enumerate() {
        let content = obj(vec![("title", text(kind))]);
        apply(&mut l, upsert(&format!("t{i}"), kind, rect(0.0, 0.0, 100.0, 100.0), content), 0);
    }
    for (i, kind) in kinds.iter().enumerate() {
        let c = l.component(&ComponentId::new(&format!("t{i}"))).unwrap();
        let content = template_content_for(c).expect("a template resolves");
        assert!(matches_variant(kind, &content), "{kind} resolved the wrong variant");
    }
}

#[test]
fn status_color_is_distinct_per_status() {
    let ok = status_color(NodeStatus::Succeeded);
    let err = status_color(NodeStatus::Error);
    let running = status_color(NodeStatus::Running);
    assert_ne!(ok, err);
    assert_ne!(ok, running);
    assert_ne!(err, running);
}

#[test]
fn templates_are_drawn_line_by_line() {
    let id = ComponentId::new("the-id");
    let proposal = Template::LonghouseProposal.content(&obj(vec![
        ("title", text("Adopt")),
        ("tally", obj(vec![("yes", num(5))])),
    ]));
    let drawn = template_drawing(&proposal, &id);
    assert_eq!(drawn[0], DrawItem::Title(String::from("Adopt")));
    assert!(drawn.contains(&DrawItem::Tally(String::from("yes"), String::from("5"))));

    let column = Template::KanbanColumn.content(&obj(vec![]));
    let drawn = template_drawing(&column, &id);
    assert!(!drawn.is_empty());

    assert!(shows_body_line(ComponentKind::Card));
    assert!(!shows_body_line(ComponentKind::Port));
}

#[test]
fn hit_test_maps_screen_point_to_the_component_under_it() {
    let mut l = ledger();
    place(&mut l, "a", rect(0.0, 0.0, 100.0, 100.0), 0);
    place(&mut l, "b", rect(200.0, 200.0, 100.0, 100.0), 0);

    assert_eq!(hit(&l, 50.0, 50.0), Some(ComponentId::new("a")));
    assert_eq!(hit(&l, 250.0, 250.0), Some(ComponentId::new("b")));
}

#[test]
fn hit_test_returns_none_over_empty_canvas() {
    let mut l = ledger();
    place(&mut l, "a", rect(0.0, 0.0, 100.0, 100.0), 0);
    assert_eq!(hit(&l, 500.0, 500.0), None);
}

#[test]
fn hit_test_picks_the_top_z_index_on_overlap() {
    let mut l = ledger();
    place(&mut l, "under", rect(0.0, 0.0, 100.0, 100.0), 0);
    place(&mut l, "top", rect(0.0, 0.0, 100.0, 100.0), 5);
    place(&mut l, "later", rect(0.0, 0.0, 100.0, 100.0), 4);
    assert_eq!(hit(&l, 50.0, 50.0), Some(ComponentId::new("top")));
}

#[test]
fn hit_test_breaks_z_ties_by_last_painted() {
    let mut l = ledger();
    place(&mut l, "first", rect(0.0, 0.0, 100.0, 100.0), 0);
    place(&mut l, "second", rect(0.0, 0.0, 100.0, 100.0), 0);
    assert_eq!(hit(&l, 50.0, 50.0), Some(ComponentId::new("second")));
}

#[test]
fn paint_order_is_ascending_z_then_insertion() {
    let mut l = ledger();
    place(&mut l, "a", rect(0.0, 0.0, 10.0, 10.0), 2);
    place(&mut l, "b", rect(0.0, 0.0, 10.0, 10.0), 0);
    place(&mut l, "c", rect(0.0, 0.0, 10.0, 10.0), 0);
    let order: Vec<String> =
        paint_order(&l).into_iter().map(|(id, _)| String::from(id.as_str())).collect();
    assert_eq!(order, vec!["b", "c", "a"]);
}
