//! Templates: names, expansions and what is drawn of them.

use ocean_gui::json::{Json, JsonNumber};
use ocean_gui::shell::canvas::ledger::{CanvasLedger, CanvasMode, ComponentKind, Placement};
use ocean_gui::shell::canvas::patch::{
    ActorRef, CanvasComponentPatch, ComponentId, Coord, Rect, SurfacePatch,
};
use ocean_gui::shell::canvas::templates::{NodeStatus, TallyRow, Template, TemplateContent};

fn text(s: &str) -> Json {
    Json::Text(String::from(s))
}

fn num(n: u64) -> Json {
    Json::Number(JsonNumber { text: format!("{n}"), unsigned: Some(n) })
}

fn obj(members: Vec<(&str, Json)>) -> Json {
    Json::Object(members.into_iter().map(|(k, v)| (String::from(k), v)).collect())
}

fn list(items: Vec<Json>) -> Json {
    Json::Array(items)
}

fn patch(id: &str, kind: &str, content: Json) -> CanvasComponentPatch {
    CanvasComponentPatch {
        id: ComponentId::new(id),
        kind: String::from(kind),
        rect: None,
        z_index: None,
        content,
        metadata: Json::Null,
    }
}

/// A slot of its own for every patch, from left to right.
fn slot(number: usize) -> Placement {
    let x = 80.0 + number as f32 * 400.0;
    Placement {
        slot: Rect::new(
            Coord(x.to_bits()),
            Coord(80.0f32.to_bits()),
            Coord(320.0f32.to_bits()),
            Coord(220.0f32.to_bits()),
        ),
        rects: Vec::new(),
    }
}

fn apply_all(ledger: &mut CanvasLedger, patches: Vec<SurfacePatch>) {
    for (number, sp) in patches.into_iter().enumerate() {
        ledger.apply_patch(sp, ActorRef::agent(Some(String::from("sage"))), 0, &slot(number));
    }
}

#[test]
fn every_template_roundtrips_name_and_kind() {
    for t in [
        Template::BriefCard,
        Template::WorkflowNode,
        Template::KanbanColumn,
        Template::StoryboardFrame,
        Template::StatTile,
        Template::LonghouseProposal,
    ] {
        assert_eq!(Template::from_kind(t.name()), Some(t), "{}", t.name());
    }
}

#[test]
fn primitive_and_unknown_kinds_are_not_templates() {
    for k in ["card", "node", "lane", "frame", "stat", "blah", "text_block"] {
        assert_eq!(Template::from_kind(k), None, "{k} should not be a template");
    }
}

#[test]
fn templates_map_to_the_section_5_primitives() {
    assert_eq!(Template::BriefCard.primitive_kind(), ComponentKind::Card);
    assert_eq!(Template::WorkflowNode.primitive_kind(), ComponentKind::Node);
    assert_eq!(Template::KanbanColumn.primitive_kind(), ComponentKind::Lane);
    assert_eq!(Template::StoryboardFrame.primitive_kind(), ComponentKind::Frame);
    assert_eq!(Template::StatTile.primitive_kind(), ComponentKind::Stat);
    assert_eq!(Template::LonghouseProposal.primitive_kind(), ComponentKind::Card);
}

#[test]
fn from_patch_kind_agrees_with_template_primitive() {
    for t in [
        Template::BriefCard,
        Template::WorkflowNode,
        Template::KanbanColumn,
        Template::StoryboardFrame,
        Template::LonghouseProposal,
    ] {
        assert_eq!(
            ComponentKind::from_patch_kind(t.name()),
            t.primitive_kind(),
            "ledger vs template disagree for {}",
            t.name()
        );
    }
}

#[test]
fn default_sizes_are_those_of_the_templates() {
    let size = |t: Template| {
        let (w, h) = t.default_size();
        (f32::from_bits(w.0), f32::from_bits(h.0))
    };
    assert_eq!(size(Template::BriefCard), (320.0, 220.0));
    assert_eq!(size(Template::KanbanColumn), (260.0, 480.0));
    assert_eq!(size(Template::StatTile), (160.0, 96.0));
}

#[test]
fn brief_card_expands_to_a_single_card_with_content_preserved() {
    let p = patch(
        "brief-1",
        "brief_card",
        obj(vec![("title", text("Sales Brief")), ("body", text("Draft for Warner"))]),
    );
    let exp = Template::BriefCard.expand(&p);
    assert!(exp.children.is_empty());
    assert!(exp.edges.is_empty());
    assert_eq!(exp.primary.id, ComponentId::new("brief-1"));
    assert_eq!(exp.primary.kind, "brief_card");
    assert_eq!(exp.primary.content.get_str("title"), Some("Sales Brief"));
    assert_eq!(exp.into_patches().len(), 1);
}

#[test]
fn workflow_node_and_stat_and_storyboard_are_atomic() {
    for (kind, t) in [
        ("workflow_node", Template::WorkflowNode),
        ("stat_tile", Template::StatTile),
        ("storyboard_frame", Template::StoryboardFrame),
    ] {
        let exp = t.expand(&patch("x", kind, obj(vec![])));
        assert!(exp.children.is_empty(), "{kind} should be atomic");
        assert!(exp.edges.is_empty(), "{kind} should be atomic");
        assert_eq!(exp.into_patches().len(), 1);
    }
}

#[test]
fn kanban_column_expands_lane_plus_child_cards() {
    let p = patch(
        "todo",
        "kanban_column",
        obj(vec![
            ("title", text("To Do")),
            (
                "cards",
                list(vec![
                    text("ship slice 8"),
                    obj(vec![("title", text("review PR")), ("body", text("knox"))]),
                ]),
            ),
        ]),
    );
    let exp = Template::KanbanColumn.expand(&p);
    assert_eq!(exp.primary.kind, "kanban_column");
    assert_eq!(exp.children.len(), 2);
    assert!(exp.children.iter().all(|c| c.kind == "brief_card"));
    assert_eq!(exp.children[0].content.get_str("title"), Some("ship slice 8"));
    assert_eq!(exp.children[1].content.get_str("title"), Some("review PR"));
    assert_eq!(exp.children[1].content.get_str("body"), Some("knox"));
    assert_eq!(exp.child_ids[0], ComponentId::new("todo-card-0"));

    let patches = exp.into_patches();
    assert_eq!(patches.len(), 4);
    assert!(matches!(patches[0], SurfacePatch::UpsertComponent { .. }));
    assert!(matches!(patches.last(), Some(SurfacePatch::Group { .. })));
}

#[test]
fn kanban_column_with_no_cards_is_just_a_lane() {
    let exp = Template::KanbanColumn.expand(&patch(
        "c",
        "kanban_column",
        obj(vec![("title", text("Empty"))]),
    ));
    assert!(exp.children.is_empty());
    assert_eq!(exp.into_patches().len(), 1);
}

#[test]
fn longhouse_proposal_expands_card_with_option_edges() {
    let p = patch(
        "prop-1",
        "longhouse_proposal",
        obj(vec![
            ("title", text("Adopt Loro")),
            ("body", text("CRDT for local-first sync")),
            (
                "options",
                list(vec![
                    obj(vec![("id", text("opt-yes")), ("title", text("Yes")), ("votes", num(5))]),
                    obj(vec![("title", text("No")), ("votes", num(2))]),
                ]),
            ),
        ]),
    );
    let exp = Template::LonghouseProposal.expand(&p);
    assert_eq!(exp.primary.kind, "longhouse_proposal");
    assert_eq!(exp.children.len(), 2);
    assert_eq!(exp.edges.len(), 2);

    assert_eq!(exp.children[0].id, ComponentId::new("opt-yes"));
    assert_eq!(exp.children[1].id, ComponentId::new("prop-1-opt-1"));

    let e0 = &exp.edges[0];
    assert_eq!(e0.from.component_id, ComponentId::new("prop-1"));
    assert_eq!(e0.to.component_id, ComponentId::new("opt-yes"));
    assert_eq!(e0.kind.as_deref(), Some("reference"));
    assert_eq!(e0.label.as_deref(), Some("5"));

    let patches = exp.into_patches();
    assert_eq!(patches.len(), 6);
    assert_eq!(
        patches.iter().filter(|p| matches!(p, SurfacePatch::Connect { .. })).count(),
        2
    );
}

#[test]
fn brief_content_exposes_title_body_and_metadata_lines() {
    let c = Template::BriefCard.content(&obj(vec![
        ("title", text("Brief")),
        ("body", text("Body text")),
        (
            "metadata",
            obj(vec![("source", text("longhouse.sales")), ("owner", text("sage"))]),
        ),
    ]));
    let TemplateContent::Brief { title, body, metadata } = c else {
        panic!("expected Brief");
    };
    assert_eq!(title.as_deref(), Some("Brief"));
    assert_eq!(body.as_deref(), Some("Body text"));
    assert_eq!(
        metadata,
        vec![
            (String::from("source"), String::from("longhouse.sales")),
            (String::from("owner"), String::from("sage")),
        ]
    );
}

#[test]
fn workflow_node_content_resolves_status_and_ports() {
    let c = Template::WorkflowNode.content(&obj(vec![
        ("title", text("Fetch")),
        ("status", text("Running")),
        ("inputs", list(vec![text("trigger")])),
        ("outputs", list(vec![text("rows"), obj(vec![("name", text("error"))])])),
    ]));
    let TemplateContent::WorkflowNode { title, status, inputs, outputs } = c else {
        panic!("expected WorkflowNode");
    };
    assert_eq!(title.as_deref(), Some("Fetch"));
    assert_eq!(status, NodeStatus::Running);
    assert_eq!(inputs, vec![String::from("trigger")]);
    assert_eq!(outputs, vec![String::from("rows"), String::from("error")]);
}

#[test]
fn workflow_status_parsing_is_lenient_and_defaults_to_idle() {
    let status = |members: Vec<(&str, Json)>| {
        let TemplateContent::WorkflowNode { status, .. } =
            Template::WorkflowNode.content(&obj(members))
        else {
            panic!("expected WorkflowNode");
        };
        status
    };
    assert_eq!(status(vec![("status", text("DONE"))]), NodeStatus::Succeeded);
    assert_eq!(status(vec![("status", text("failed"))]), NodeStatus::Error);
    assert_eq!(status(vec![("status", text("blocked"))]), NodeStatus::Waiting);
    assert_eq!(status(vec![]), NodeStatus::Idle);
    assert_eq!(status(vec![("status", text("weird"))]), NodeStatus::Idle);
}

#[test]
fn stat_content_resolves_value_label_and_delta_from_numbers_or_strings() {
    let c = Template::StatTile.content(&obj(vec![
        ("label", text("Saves")),
        ("value", num(1206)),
        ("delta", text("+12%")),
    ]));
    let TemplateContent::Stat { label, value, delta } = c else {
        panic!("expected Stat");
    };
    assert_eq!(label.as_deref(), Some("Saves"));
    assert_eq!(value.as_deref(), Some("1206"));
    assert_eq!(delta.as_deref(), Some("+12%"));
}

#[test]
fn storyboard_content_resolves_media_and_caption() {
    let c = Template::StoryboardFrame.content(&obj(vec![
        ("caption", text("Opening shot")),
        ("shot", text("wide.png")),
    ]));
    let TemplateContent::StoryboardFrame { caption, media } = c else {
        panic!("expected StoryboardFrame");
    };
    assert_eq!(caption.as_deref(), Some("Opening shot"));
    assert_eq!(media.as_deref(), Some("wide.png"));
}

#[test]
fn kanban_content_reports_card_count() {
    let c = Template::KanbanColumn.content(&obj(vec![
        ("title", text("Doing")),
        ("cards", list(vec![num(1), num(2), num(3)])),
    ]));
    let TemplateContent::KanbanColumn { title, count } = c else {
        panic!("expected KanbanColumn");
    };
    assert_eq!(title.as_deref(), Some("Doing"));
    assert_eq!(count, Some(3));
}

#[test]
fn proposal_content_resolves_tally_from_object_or_array() {
    let from_obj = Template::LonghouseProposal.content(&obj(vec![
        ("title", text("P")),
        ("tally", obj(vec![("yes", num(5)), ("no", num(2))])),
    ]));
    let TemplateContent::LonghouseProposal { tally, .. } = from_obj else {
        panic!("expected LonghouseProposal");
    };
    assert_eq!(tally.len(), 2);
    assert!(tally.contains(&TallyRow { label: String::from("yes"), count: 5 }));

    let row = |label: &str, count: u64| obj(vec![("label", text(label)), ("count", num(count))]);
    let from_arr = Template::LonghouseProposal
        .content(&obj(vec![("tally", list(vec![row("yes", 5), row("no", 2)]))]));
    let TemplateContent::LonghouseProposal { tally, .. } = from_arr else {
        panic!("expected LonghouseProposal");
    };
    assert_eq!(
        tally,
        vec![
            TallyRow { label: String::from("yes"), count: 5 },
            TallyRow { label: String::from("no"), count: 2 },
        ]
    );
}

#[test]
fn resolve_returns_none_for_non_templates() {
    assert!(TemplateContent::resolve("card", &obj(vec![])).is_none());
    assert!(TemplateContent::resolve("brief_card", &obj(vec![])).is_some());
}

#[test]
fn kanban_expansion_applied_to_ledger_builds_lane_with_grouped_cards() {
    let mut l = CanvasLedger::new("canvas:main", "sess-1", CanvasMode::Kanban);
    let p = patch(
        "todo",
        "kanban_column",
        obj(vec![("title", text("To Do")), ("cards", list(vec![text("a"), text("b")]))]),
    );
    apply_all(&mut l, Template::KanbanColumn.expand(&p).into_patches());

    assert_eq!(l.components.len(), 3);
    let lane = l.component(&ComponentId::new("todo")).unwrap();
    assert_eq!(lane.kind, ComponentKind::Lane);
    assert_eq!(lane.template, "kanban_column");
    assert_eq!(lane.children.len(), 2);
    let child = l.component(&ComponentId::new("todo-card-0")).unwrap();
    assert_eq!(child.kind, ComponentKind::Card);
    assert_eq!(child.content.get_str("title"), Some("a"));
    let c0 = l.component(&ComponentId::new("todo-card-0")).unwrap().rect;
    let c1 = l.component(&ComponentId::new("todo-card-1")).unwrap().rect;
    assert!(c0 != c1, "kanban cards must not overlap");
}

#[test]
fn proposal_expansion_applied_to_ledger_builds_card_and_edges() {
    let mut l = CanvasLedger::new("canvas:main", "sess-1", CanvasMode::Freeform);
    let p = patch(
        "prop",
        "longhouse_proposal",
        obj(vec![
            ("title", text("P")),
            (
                "options",
                list(vec![
                    obj(vec![("title", text("Yes")), ("votes", num(3))]),
                    obj(vec![("title", text("No"))]),
                ]),
            ),
        ]),
    );
    apply_all(&mut l, Template::LonghouseProposal.expand(&p).into_patches());
    assert_eq!(l.components.len(), 3);
    assert_eq!(l.edges.len(), 2);
    for edge in l.edges.values() {
        assert_eq!(edge.from.component_id, ComponentId::new("prop"));
    }
}

#[test]
fn members_may_stand_in_any_order() {
    let number = |text: &str, unsigned: Option<u64>| {
        Json::Number(JsonNumber { text: text.to_string(), unsigned })
    };
    let member = |key: &str, value: Json| (key.to_string(), value);
    let one = Json::Object(vec![
        member("a", number("1", Some(1))),
        member("b", Json::Array(vec![Json::Null, Json::Bool(true)])),
    ]);
    let other = Json::Object(vec![
        member("b", Json::Array(vec![Json::Null, Json::Bool(true)])),
        member("a", number("1", Some(1))),
    ]);
    assert!(one.same_as(&other));
    assert!(one.same_as(&one.clone()));
    assert_ne!(one, other);
    let less = Json::Object(vec![member("a", number("1", Some(1)))]);
    assert!(!one.same_as(&less));
    assert!(!less.same_as(&one));
    assert!(number("0.0", None).same_as(&number("-0.0", None)));
    assert!(!number("1", Some(1)).same_as(&number("1.0", None)));
    let reversed = Json::Array(vec![Json::Bool(true), Json::Null]);
    assert!(!reversed.same_as(&Json::Array(vec![Json::Null, Json::Bool(true)])));
    let twice = Json::Object(vec![member("a", Json::Null), member("a", number("1", Some(1)))]);
    assert!(twice.same_as(&less));
}
