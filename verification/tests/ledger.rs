//! The ledger of one canvas and the set of ledgers.

use ocean_gui::json::Json;
use ocean_gui::shell::canvas::context::{
    canvas_context_block, prompt_with_canvas_context, CanvasTurnContext,
};
use ocean_gui::shell::canvas::layout::{Arrangement, LayoutEngine, SlotScan};
use ocean_gui::shell::canvas::ledger::{
    CanvasLedger, CanvasMode, ComponentKind, EdgeKind, Placement,
};
use ocean_gui::shell::canvas::ledger_set::CanvasLedgerSet;
use ocean_gui::shell::canvas::patch::{
    ActorId, ActorRef, CanvasComponentPatch, CanvasEdgePatch, CanvasId, ComponentId,
    ComponentVersion, Coord, EdgeId, Endpoint, LayoutStrategy, LayoutTarget, PatchId, Rect,
    SurfaceId, SurfacePatch, SurfacePatchEnvelope, Viewport,
};

fn at(v: f32) -> Coord {
    Coord(v.to_bits())
}

fn rect(x: f32, y: f32, w: f32, h: f32) -> Rect {
    Rect::new(at(x), at(y), at(w), at(h))
}

fn corner(r: &Rect) -> (f32, f32, f32, f32) {
    (
        f32::from_bits(r.x.0),
        f32::from_bits(r.y.0),
        f32::from_bits(r.w.0),
        f32::from_bits(r.h.0),
    )
}

fn overlap(a: &Rect, b: &Rect) -> bool {
    let (ax, ay, aw, ah) = corner(a);
    let (bx, by, bw, bh) = corner(b);
    ax < bx + bw && bx < ax + aw && ay < by + bh && by < ay + ah
}

fn cell(row: usize, column: usize, w: f32, h: f32) -> Rect {
    rect(80.0 + column as f32 * (w + 32.0), 80.0 + row as f32 * (h + 32.0), w, h)
}

/// The first cell of the scan that is free, and the cells of a grid for a layout.
fn placement(ledger: &CanvasLedger) -> Placement {
    let mut scan = SlotScan::start();
    let slot = loop {
        let candidate = cell(scan.row, scan.column, 320.0, 220.0);
        if ledger.components.values().iter().all(|c| !overlap(&c.rect, &candidate)) {
            break candidate;
        }
        scan = scan.next().expect("a free cell");
    };
    let rects = ledger
        .components
        .values()
        .iter()
        .enumerate()
        .map(|(i, c)| {
            let (column, row) = LayoutEngine::grid_cell(i, 4);
            let (_, _, w, h) = corner(&c.rect);
            cell(row, column, w, h)
        })
        .collect();
    Placement { slot, rects }
}

fn apply(ledger: &mut CanvasLedger, patch: SurfacePatch, actor: ActorRef, ms: i64) -> Vec<ComponentId> {
    let place = placement(ledger);
    ledger.apply_patch(patch, actor, ms, &place)
}

fn ledger() -> CanvasLedger {
    CanvasLedger::new("canvas:main", "sess-1", CanvasMode::Freeform)
}

fn title(s: &str) -> Json {
    Json::Object(vec![(String::from("title"), Json::Text(String::from(s)))])
}

fn upsert(id: &str, rect: Option<Rect>) -> SurfacePatch {
    SurfacePatch::UpsertComponent {
        component: CanvasComponentPatch {
            id: ComponentId::new(id),
            kind: String::from("card"),
            rect,
            z_index: None,
            content: title(id),
            metadata: Json::Null,
        },
    }
}

fn connect(id: &str, from: &str, to: &str, kind: Option<&str>, label: Option<&str>) -> SurfacePatch {
    SurfacePatch::Connect {
        edge: CanvasEdgePatch {
            id: EdgeId::new(id),
            from: Endpoint { component_id: ComponentId::new(from), port: None },
            to: Endpoint { component_id: ComponentId::new(to), port: None },
            kind: kind.map(String::from),
            label: label.map(String::from),
            metadata: Json::Null,
        },
    }
}

#[test]
fn upsert_adds_component_and_bumps_revision() {
    let mut l = ledger();
    assert_eq!(l.revision, 0);
    let touched = apply(
        &mut l,
        upsert("brief-1", Some(rect(10.0, 20.0, 300.0, 200.0))),
        ActorRef::agent(Some(String::from("sage"))),
        1_000,
    );
    assert_eq!(touched, vec![ComponentId::new("brief-1")]);
    assert_eq!(l.revision, 1);
    assert_eq!(l.components.len(), 1);
    let c = l.component(&ComponentId::new("brief-1")).unwrap();
    assert_eq!(c.rect, rect(10.0, 20.0, 300.0, 200.0));
    assert_eq!(c.kind, ComponentKind::Card);
    assert_eq!(l.patch_log.len(), 1);
    assert_eq!(l.patch_log[0].patch_id.as_str(), "canvas:main@1");
}

#[test]
fn template_kind_maps_to_card_and_preserves_template_string() {
    let mut l = ledger();
    apply(
        &mut l,
        SurfacePatch::UpsertComponent {
            component: CanvasComponentPatch {
                id: ComponentId::new("b1"),
                kind: String::from("brief_card"),
                rect: Some(rect(0.0, 0.0, 10.0, 10.0)),
                z_index: None,
                content: Json::Null,
                metadata: Json::Null,
            },
        },
        ActorRef::system(),
        0,
    );
    let c = l.component(&ComponentId::new("b1")).unwrap();
    assert_eq!(c.kind, ComponentKind::Card);
    assert_eq!(c.template, "brief_card");
}

#[test]
fn move_resize_delete_mutate_correctly() {
    let mut l = ledger();
    let id = || ComponentId::new("c1");
    apply(&mut l, upsert("c1", Some(rect(0.0, 0.0, 100.0, 100.0))), ActorRef::system(), 0);

    apply(
        &mut l,
        SurfacePatch::MoveComponent { component_id: id(), x: at(50.0), y: at(60.0) },
        ActorRef::system(),
        1,
    );
    assert_eq!(l.component(&id()).unwrap().rect.x, at(50.0));
    assert_eq!(l.component(&id()).unwrap().rect.y, at(60.0));

    apply(
        &mut l,
        SurfacePatch::ResizeComponent { component_id: id(), width: at(400.0), height: at(300.0) },
        ActorRef::system(),
        2,
    );
    assert_eq!(l.component(&id()).unwrap().rect.w, at(400.0));
    assert_eq!(l.component(&id()).unwrap().rect.h, at(300.0));

    let rev_before = l.revision;
    apply(
        &mut l,
        SurfacePatch::DeleteComponent { component_id: id() },
        ActorRef::system(),
        3,
    );
    assert!(l.component(&id()).is_none());
    assert_eq!(l.revision, rev_before + 1);
}

#[test]
fn connect_adds_edge_and_delete_prunes_it() {
    let mut l = ledger();
    apply(&mut l, upsert("a", Some(rect(0.0, 0.0, 10.0, 10.0))), ActorRef::system(), 0);
    apply(&mut l, upsert("b", Some(rect(100.0, 0.0, 10.0, 10.0))), ActorRef::system(), 0);

    apply(&mut l, connect("e1", "a", "b", Some("flow"), Some("then")), ActorRef::system(), 1);
    assert_eq!(l.edges.len(), 1);
    let e = l.edge(&EdgeId::new("e1")).unwrap();
    assert_eq!(e.kind, EdgeKind::Flow);

    apply(
        &mut l,
        SurfacePatch::DeleteComponent { component_id: ComponentId::new("a") },
        ActorRef::system(),
        2,
    );
    assert_eq!(l.edges.len(), 0, "edge should be pruned when an endpoint is deleted");
}

#[test]
fn upsert_without_coords_gets_a_deterministic_slot() {
    let mut l = ledger();
    apply(&mut l, upsert("x", None), ActorRef::system(), 0);
    let r = l.component(&ComponentId::new("x")).unwrap().rect;
    let (x, y, _, _) = corner(&r);
    assert!(x > 0.0 && y > 0.0, "slot should be a positive grid position");

    let mut l2 = ledger();
    apply(&mut l2, upsert("y", None), ActorRef::system(), 0);
    assert_eq!(
        r,
        l2.component(&ComponentId::new("y")).unwrap().rect,
        "slot allocation must be deterministic"
    );
}

#[test]
fn two_no_coord_upserts_do_not_overlap() {
    let mut l = ledger();
    apply(&mut l, upsert("one", None), ActorRef::system(), 0);
    apply(&mut l, upsert("two", None), ActorRef::system(), 0);
    let r1 = l.component(&ComponentId::new("one")).unwrap().rect;
    let r2 = l.component(&ComponentId::new("two")).unwrap().rect;
    assert!(!overlap(&r1, &r2), "two auto-placed components must not overlap");
}

#[test]
fn slot_scan_walks_rows_of_columns_and_ends() {
    let mut scan = SlotScan::start();
    assert_eq!((scan.row, scan.column), (0, 0));
    for _ in 0..64 {
        scan = scan.next().expect("a next cell");
    }
    assert_eq!((scan.row, scan.column), (1, 0));
    let last = SlotScan { row: 4095, column: 63 };
    assert!(last.next().is_none());
}

#[test]
fn select_and_set_viewport_apply() {
    let mut l = ledger();
    apply(&mut l, upsert("c1", None), ActorRef::system(), 0);
    apply(
        &mut l,
        SurfacePatch::Select { ids: vec![ComponentId::new("c1")] },
        ActorRef::system(),
        1,
    );
    assert_eq!(l.selection.component_ids, vec![ComponentId::new("c1")]);

    let view = Viewport { x: at(5.0), y: at(6.0), zoom: at(2.0) };
    apply(&mut l, SurfacePatch::SetViewport { viewport: view }, ActorRef::system(), 2);
    assert_eq!(l.viewport, view);
}

#[test]
fn layout_grid_repositions_components() {
    let mut l = ledger();
    for i in 0..4 {
        apply(
            &mut l,
            upsert(&format!("c{i}"), Some(rect(999.0, 999.0, 100.0, 100.0))),
            ActorRef::system(),
            0,
        );
    }
    apply(
        &mut l,
        SurfacePatch::Layout { target: LayoutTarget::Canvas, strategy: LayoutStrategy::Grid },
        ActorRef::system(),
        1,
    );
    let rects: Vec<Rect> = l.components.values().iter().map(|c| c.rect).collect();
    for i in 0..rects.len() {
        for j in (i + 1)..rects.len() {
            assert!(!overlap(&rects[i], &rects[j]), "grid layout produced overlap");
        }
    }
}

#[test]
fn group_records_children() {
    let mut l = ledger();
    apply(&mut l, upsert("frame", None), ActorRef::system(), 0);
    apply(&mut l, upsert("child", None), ActorRef::system(), 0);
    apply(
        &mut l,
        SurfacePatch::Group {
            frame_id: ComponentId::new("frame"),
            children: vec![ComponentId::new("child")],
        },
        ActorRef::system(),
        1,
    );
    assert_eq!(
        l.component(&ComponentId::new("frame")).unwrap().children,
        vec![ComponentId::new("child")]
    );
}

#[test]
fn compact_context_includes_ids_rects_and_edges() {
    let mut l = ledger();
    let place = |x: f32| Some(rect(x, 20.0, 300.0, 200.0));
    apply(&mut l, upsert("brief-1", place(10.0)), ActorRef::system(), 0);
    apply(&mut l, upsert("proposal-1", place(400.0)), ActorRef::system(), 0);
    apply(&mut l, connect("e1", "brief-1", "proposal-1", None, None), ActorRef::system(), 0);
    apply(
        &mut l,
        SurfacePatch::Select { ids: vec![ComponentId::new("brief-1")] },
        ActorRef::system(),
        0,
    );

    let ctx = l.compact_context();
    assert_eq!(ctx.canvas_id, CanvasId::new("canvas:main"));
    assert_eq!(ctx.components.len(), 2);

    let ids: Vec<&str> = ctx.components.iter().map(|c| c.id.as_str()).collect();
    assert_eq!(ids, vec!["brief-1", "proposal-1"], "stable insertion order");

    let first = &ctx.components[0];
    assert_eq!(first.rect, rect(10.0, 20.0, 300.0, 200.0));
    assert_eq!(first.title.as_deref(), Some("brief-1"));

    assert_eq!(ctx.edges.len(), 1);
    assert_eq!(ctx.edges[0].from, ComponentId::new("brief-1"));
    assert_eq!(ctx.edges[0].to, ComponentId::new("proposal-1"));
    assert_eq!(ctx.selection, vec![ComponentId::new("brief-1")]);
}

#[test]
fn removing_a_component_keeps_the_order_of_the_others() {
    let mut l = ledger();
    for id in ["a", "b", "c", "d"] {
        apply(&mut l, upsert(id, None), ActorRef::system(), 0);
    }
    apply(
        &mut l,
        SurfacePatch::DeleteComponent { component_id: ComponentId::new("b") },
        ActorRef::system(),
        1,
    );
    apply(&mut l, upsert("c", None), ActorRef::system(), 2);
    let ids: Vec<&str> = l.components.values().iter().map(|c| c.id.as_str()).collect();
    assert_eq!(ids, vec!["a", "c", "d"]);
}

fn ledger_with(canvas: &str, component: &str) -> CanvasLedger {
    let mut l = CanvasLedger::new(canvas, "sess-1", CanvasMode::Freeform);
    apply(&mut l, upsert(component, Some(rect(0.0, 0.0, 10.0, 10.0))), ActorRef::system(), 0);
    l
}

#[test]
fn distinct_canvas_ids_coexist_as_separate_ledgers() {
    let mut set = CanvasLedgerSet::new();
    set.put(ledger_with("canvas:storyboard", "frame-1"));
    set.put(ledger_with("canvas:workflow", "node-1"));

    assert_eq!(set.len(), 2, "two canvases must coexist");

    let story = set.get(&CanvasId::new("canvas:storyboard")).unwrap();
    assert!(story.component(&ComponentId::new("frame-1")).is_some());
    assert!(
        story.component(&ComponentId::new("node-1")).is_none(),
        "the workflow node must not bleed into the storyboard canvas",
    );

    let flow = set.get(&CanvasId::new("canvas:workflow")).unwrap();
    assert!(flow.component(&ComponentId::new("node-1")).is_some());
    assert!(flow.component(&ComponentId::new("frame-1")).is_none());
}

#[test]
fn first_canvas_becomes_active_and_set_active_switches() {
    let mut set = CanvasLedgerSet::new();
    assert!(set.active().is_none());

    set.put(ledger_with("canvas:main", "a"));
    assert_eq!(
        set.active_id(),
        Some(&CanvasId::new("canvas:main")),
        "first canvas is active",
    );

    set.put(ledger_with("canvas:secondary", "b"));
    assert_eq!(set.active_id(), Some(&CanvasId::new("canvas:main")));

    set.set_active(&CanvasId::new("canvas:secondary"));
    assert_eq!(set.active_id(), Some(&CanvasId::new("canvas:secondary")));

    set.set_active(&CanvasId::new("canvas:ghost"));
    assert_eq!(set.active_id(), Some(&CanvasId::new("canvas:secondary")));
}

#[test]
fn take_then_put_roundtrips_and_preserves_other_canvases() {
    let mut set = CanvasLedgerSet::new();
    set.put(ledger_with("canvas:a", "a1"));
    set.put(ledger_with("canvas:b", "b1"));

    let mut a = set.take(&CanvasId::new("canvas:a")).expect("canvas:a present");
    assert_eq!(set.len(), 1, "take removes the canvas from the set");
    apply(
        &mut a,
        SurfacePatch::UpsertComponent {
            component: CanvasComponentPatch {
                id: ComponentId::new("a2"),
                kind: String::from("card"),
                rect: Some(rect(20.0, 0.0, 10.0, 10.0)),
                z_index: None,
                content: Json::Null,
                metadata: Json::Null,
            },
        },
        ActorRef::system(),
        1,
    );
    set.put(a);

    assert_eq!(set.len(), 2, "put restores it");
    let a = set.get(&CanvasId::new("canvas:a")).unwrap();
    assert_eq!(a.components.len(), 2, "the mutation landed");
    let b = set.get(&CanvasId::new("canvas:b")).unwrap();
    assert_eq!(b.components.len(), 1, "canvas:b is unaffected");
    let ids: Vec<String> = set.canvas_ids().iter().map(|id| String::from(id.as_str())).collect();
    assert_eq!(ids, vec!["canvas:a", "canvas:b"]);
}

fn ledger_with_card() -> CanvasLedger {
    let mut ledger = CanvasLedger::new("canvas:main", "sess-1", CanvasMode::Freeform);
    apply(
        &mut ledger,
        SurfacePatch::UpsertComponent {
            component: CanvasComponentPatch {
                id: ComponentId::new("brief-1"),
                kind: String::from("brief_card"),
                rect: Some(rect(420.0, 120.0, 320.0, 220.0)),
                z_index: None,
                content: title("Sales Brief"),
                metadata: Json::Null,
            },
        },
        ActorRef::agent(Some(String::from("sage"))),
        1_000,
    );
    ledger
}

#[test]
fn empty_when_no_native_canvas() {
    let ctx = CanvasTurnContext::from_ledger(None);
    assert!(ctx.is_empty());
    assert!(ctx.active.is_none());
    assert!(ctx.canvas_ids.is_empty());
    assert!(canvas_context_block(&ctx, "{}").is_none());
    assert_eq!(prompt_with_canvas_context("hi", &ctx, "{}"), "hi");
}

#[test]
fn context_carries_compact_ledger_fields() {
    let ledger = ledger_with_card();
    let ctx = CanvasTurnContext::from_ledger(Some(&ledger));

    assert_eq!(ctx.active_canvas_id.as_deref(), Some("canvas:main"));
    assert_eq!(ctx.canvas_ids, vec![String::from("canvas:main")]);

    let active = ctx.active.as_ref().expect("active canvas present");
    assert_eq!(active.canvas_id.as_str(), "canvas:main");
    assert_eq!(active.components.len(), 1);
    assert_eq!(active.components[0].id.as_str(), "brief-1");
    assert_eq!(active.components[0].kind, "brief_card");
    assert_eq!(active.components[0].title.as_deref(), Some("Sales Brief"));
}

#[test]
fn block_includes_surface_patch_contract_and_component_id() {
    let ledger = ledger_with_card();
    let ctx = CanvasTurnContext::from_ledger(Some(&ledger));
    let json = "{\"id\":\"brief-1\",\"kind\":\"brief_card\",\"x\":420.0}";
    let block = canvas_context_block(&ctx, json).expect("block present");

    assert!(block.contains("surface_patch"));
    assert!(block.contains("do not draw ASCII diagrams"));
    assert!(block.contains("<ocean_canvas_context>"));
    assert!(block.contains("</ocean_canvas_context>"));

    assert!(block.contains("brief-1"));
    assert!(block.contains("brief_card"));
    assert!(block.contains("\"x\":420"));
}

#[test]
fn prompt_injection_appends_block_after_user_text() {
    let ledger = ledger_with_card();
    let ctx = CanvasTurnContext::from_ledger(Some(&ledger));
    let out = prompt_with_canvas_context("what is on the canvas?", &ctx, "{\"id\":\"brief-1\"}");

    assert!(out.starts_with("what is on the canvas?"));
    assert!(out.contains("<ocean_canvas_context>"));
    assert!(out.contains("brief-1"));
}

#[test]
fn strategies_come_down_to_four_arrangements() {
    let of = |strategy: LayoutStrategy| LayoutEngine::arrangement(&strategy);
    assert_eq!(of(LayoutStrategy::Grid), Arrangement::SquareGrid);
    assert_eq!(of(LayoutStrategy::Graph), Arrangement::SquareGrid);
    assert_eq!(of(LayoutStrategy::Tree), Arrangement::SquareGrid);
    assert_eq!(of(LayoutStrategy::Row), Arrangement::Row);
    assert_eq!(of(LayoutStrategy::Column), Arrangement::Column);
    assert_eq!(of(LayoutStrategy::Stack), Arrangement::Column);
    assert_eq!(of(LayoutStrategy::Other(String::from("spiral"))), Arrangement::OneColumnGrid);
    assert_eq!(LayoutEngine::grid_cell(5, 3), (2, 1));
    assert_eq!(LayoutEngine::grid_cell(5, 0), (0, 5));
}

#[test]
fn only_new_components_without_a_rectangle_need_a_slot() {
    let mut ledger = CanvasLedger::new("canvas:main", "session", CanvasMode::Freeform);
    let new = |id: &str, rect: Option<Rect>| SurfacePatch::UpsertComponent {
        component: CanvasComponentPatch {
            id: ComponentId::new(id),
            kind: String::from("card"),
            rect,
            z_index: None,
            content: Json::Null,
            metadata: Json::Null,
        },
    };
    assert!(ledger.needs_slot(&new("a", None)));
    assert!(!ledger.needs_slot(&new("a", Some(rect(0.0, 0.0, 10.0, 10.0)))));
    let place = placement(&ledger);
    ledger.apply_patch(new("a", None), ActorRef::system(), 1, &place);
    assert!(!ledger.needs_slot(&new("a", None)));
    assert!(!ledger.needs_slot(&SurfacePatch::Disconnect { edge_id: EdgeId::new("e") }));
}

#[test]
fn moves_in_either_order_leave_the_component_in_one_place() {
    let start = || {
        let mut ledger = CanvasLedger::new("canvas:main", "session", CanvasMode::Freeform);
        let place = placement(&ledger);
        let upsert = SurfacePatch::UpsertComponent {
            component: CanvasComponentPatch {
                id: ComponentId::new("card"),
                kind: String::from("card"),
                rect: Some(rect(0.0, 0.0, 10.0, 10.0)),
                z_index: None,
                content: Json::Null,
                metadata: Json::Null,
            },
        };
        ledger.apply_patch(upsert, ActorRef::system(), 1, &place);
        ledger
    };
    let moved = |rev: u64, actor: &str, x: f32| SurfacePatchEnvelope {
        patch_id: PatchId::new("elsewhere"),
        session_id: String::from("session"),
        surface_id: SurfaceId::new("other"),
        canvas_id: CanvasId::new("canvas:main"),
        actor: ActorRef::agent(Some(String::from(actor))),
        created_at_ms: rev as i64,
        patch: SurfacePatch::MoveComponent {
            component_id: ComponentId::new("card"),
            x: at(x),
            y: at(x),
        },
        version: Some(ComponentVersion::new(rev, ActorId::new(actor))),
    };
    let after = |moves: Vec<SurfacePatchEnvelope>| {
        let mut ledger = start();
        for env in moves {
            let place = placement(&ledger);
            ledger.apply_remote_patch(env, &place);
        }
        corner(&ledger.component(&ComponentId::new("card")).expect("the card").rect)
    };
    let first = after(vec![moved(7, "sage", 50.0), moved(7, "flux", 90.0)]);
    let second = after(vec![moved(7, "flux", 90.0), moved(7, "sage", 50.0)]);
    assert_eq!(first, (50.0, 50.0, 10.0, 10.0));
    assert_eq!(first, second);
}
