//! Templates: the work objects an agent can ask for by name, what they expand into,
//! and what is drawn of their content.

use vstd::prelude::*;

use crate::json::Json;
use crate::shell::canvas::ledger::ComponentKind;
use crate::shell::canvas::patch::{
    CanvasComponentPatch, CanvasEdgePatch, ComponentId, Coord, EdgeId, Endpoint, SurfacePatch,
};
use crate::text::{bool_text, copy_str, decimal_usize, str_eq, to_ascii_lower, trim};

verus! {

broadcast use vstd::string::group_string_axioms;

use crate::json::{json_view, member_of, JsonView};
use crate::shell::canvas::ledger::kind_of;
use crate::shell::canvas::patch::{
    id_views, ComponentPatchView, EdgePatchView, EndpointView, PatchView,
};
use crate::text::{
    ascii_lower, ascii_lower_chars, bool_chars, decimal, opt_chars, texts,
    trim_end_chars, trim_start_chars, trimmed,
};

/// The work objects an agent can ask for.
#[derive(Clone, Copy, Debug, PartialEq, Eq, Structural)]
pub enum Template {
    /// A card with title, body and metadata.
    BriefCard,
    /// A node with ports and a status.
    WorkflowNode,
    /// A lane with cards in it.
    KanbanColumn,
    /// A frame with a picture and a caption.
    StoryboardFrame,
    /// A number with a label.
    StatTile,
    /// A card with a tally and edges to its options.
    LonghouseProposal,
}

/// The name of a template.
pub open spec fn template_name(t: Template) -> Seq<char> {
    match t {
        Template::BriefCard => "brief_card"@,
        Template::WorkflowNode => "workflow_node"@,
        Template::KanbanColumn => "kanban_column"@,
        Template::StoryboardFrame => "storyboard_frame"@,
        Template::StatTile => "stat_tile"@,
        Template::LonghouseProposal => "longhouse_proposal"@,
    }
}

/// The template with a name.
pub open spec fn template_of(kind: Seq<char>) -> Option<Template> {
    if kind == "brief_card"@ {
        Some(Template::BriefCard)
    } else if kind == "workflow_node"@ {
        Some(Template::WorkflowNode)
    } else if kind == "kanban_column"@ {
        Some(Template::KanbanColumn)
    } else if kind == "storyboard_frame"@ {
        Some(Template::StoryboardFrame)
    } else if kind == "stat_tile"@ {
        Some(Template::StatTile)
    } else if kind == "longhouse_proposal"@ {
        Some(Template::LonghouseProposal)
    } else {
        None
    }
}

/// The structural kind that a template is drawn as.
pub open spec fn template_primitive(t: Template) -> ComponentKind {
    match t {
        Template::BriefCard => ComponentKind::Card,
        Template::WorkflowNode => ComponentKind::Node,
        Template::KanbanColumn => ComponentKind::Lane,
        Template::StoryboardFrame => ComponentKind::Frame,
        Template::StatTile => ComponentKind::Stat,
        Template::LonghouseProposal => ComponentKind::Card,
    }
}

/// A child that a compound template asks for.
struct ChildSpec {
    id: Option<ComponentId>,
    content: Json,
    label: Option<String>,
}

/// A child that a compound template asks for: its id where it has one, its content
/// and the label of its edge.
pub struct ChildView {
    pub id: Option<Seq<char>>,
    pub content: JsonView,
    pub label: Option<Seq<char>>,
}

impl ChildSpec {
    spec fn view(self) -> ChildView {
        ChildView {
            id: match self.id {
                Some(id) => Some(id@),
                None => None,
            },
            content: self.content@,
            label: opt_chars(self.label),
        }
    }
}

/// A plain value in short: text that is not empty, a number or a truth value.
pub open spec fn short_text(v: JsonView) -> Option<Seq<char>> {
    match v {
        JsonView::Text(s) => if s.len() > 0 {
            Some(s)
        } else {
            None
        },
        JsonView::Number(text, _) => Some(text),
        JsonView::Bool(b) => Some(bool_chars(b)),
        _ => None,
    }
}

fn value_to_short_string(v: &Json) -> (r: Option<String>)
    ensures
        opt_chars(r) == short_text(v@),
{
    match v {
        Json::Text(s) => if s.is_empty() {
            None
        } else {
            Some(s.clone())
        },
        Json::Number(n) => Some(n.text.clone()),
        Json::Bool(b) => Some(bool_text(*b)),
        _ => None,
    }
}

/// The short text under a key.
pub open spec fn short_slot(content: JsonView, key: Seq<char>) -> Option<Seq<char>> {
    match content.get(key) {
        Some(v) => short_text(v),
        None => None,
    }
}

fn short_at(content: &Json, key: &str) -> (r: Option<String>)
    ensures
        opt_chars(r) == short_slot(content@, key@),
{
    match content.get(key) {
        Some(v) => value_to_short_string(v),
        None => None,
    }
}

/// The text under a key, where it is not empty.
pub open spec fn text_slot(content: JsonView, key: Seq<char>) -> Option<Seq<char>> {
    match content.get_string(key) {
        Some(s) => if s.len() > 0 {
            Some(s)
        } else {
            None
        },
        None => None,
    }
}

/// The text under a key, where it is not empty.
pub fn str_slot(content: &Json, key: &str) -> (r: Option<String>)
    ensures
        opt_chars(r) == text_slot(content@, key@),
{
    match content.get_str(key) {
        Some(s) => if s.is_empty() {
            None
        } else {
            Some(copy_str(s))
        },
        None => None,
    }
}

/// The first of two that is there.
pub open spec fn first_of(a: Option<Seq<char>>, b: Option<Seq<char>>) -> Option<Seq<char>> {
    if a is Some {
        a
    } else {
        b
    }
}

fn either(a: Option<String>, b: Option<String>) -> (r: Option<String>)
    ensures
        opt_chars(r) == first_of(opt_chars(a), opt_chars(b)),
{
    match a {
        Some(s) => Some(s),
        None => b,
    }
}

/// The members of a child's content: title and body, where they are text.
pub open spec fn child_members(item: JsonView) -> Seq<(Seq<char>, JsonView)> {
    let title = match item.get_string("title"@) {
        Some(s) => seq![("title"@, JsonView::Text(s))],
        None => Seq::empty(),
    };
    match item.get_string("body"@) {
        Some(s) => title.push(("body"@, JsonView::Text(s))),
        None => title,
    }
}

/// The label of a child's edge: its votes, tally or count, whichever key stands first.
pub open spec fn child_label(item: JsonView) -> Option<Seq<char>> {
    if item.get("votes"@) is Some {
        short_slot(item, "votes"@)
    } else if item.get("tally"@) is Some {
        short_slot(item, "tally"@)
    } else {
        short_slot(item, "count"@)
    }
}

/// The child that an item asks for: a text is a title; of an object its id, title,
/// body and label count; anything else is an empty child.
pub open spec fn child_of(item: JsonView) -> ChildView {
    match item {
        JsonView::Text(title) => ChildView {
            id: None,
            content: JsonView::Object(seq![("title"@, JsonView::Text(title))]),
            label: None,
        },
        JsonView::Object(_) => ChildView {
            id: item.get_string("id"@),
            content: JsonView::Object(child_members(item)),
            label: child_label(item),
        },
        _ => ChildView { id: None, content: JsonView::Null, label: None },
    }
}

/// The children that a list in the content asks for.
pub open spec fn children_under(content: JsonView, key: Seq<char>) -> Seq<ChildView> {
    match content.get(key) {
        Some(JsonView::Array(items)) => Seq::new(items.len(), |i: int| child_of(items[i])),
        _ => Seq::empty(),
    }
}

/// The id of the child at `i`: its own, or one made from the parent's.
pub open spec fn child_id(parent: Seq<char>, infix: Seq<char>, child: ChildView, i: nat) -> Seq<
    char,
> {
    match child.id {
        Some(id) => id,
        None => parent + infix + decimal(i),
    }
}

/// A child as a card.
pub open spec fn child_patch(id: Seq<char>, child: ChildView) -> ComponentPatchView {
    ComponentPatchView {
        id,
        kind: "brief_card"@,
        rect: None,
        z_index: None,
        content: child.content,
        metadata: JsonView::Null,
    }
}

/// The edge from a proposal to one of its options.
pub open spec fn option_edge(parent: Seq<char>, id: Seq<char>, child: ChildView) -> EdgePatchView {
    EdgePatchView {
        id: parent + "->"@ + id,
        from: EndpointView { component_id: parent, port: None },
        to: EndpointView { component_id: id, port: None },
        kind: Some("reference"@),
        label: child.label,
        metadata: JsonView::Null,
    }
}

/// What a template asks for: the component itself, its children, the edges to them
/// and the children's ids.
#[verifier::ext_equal]
pub struct ExpansionView {
    pub primary: ComponentPatchView,
    pub children: Seq<ComponentPatchView>,
    pub edges: Seq<EdgePatchView>,
    pub child_ids: Seq<Seq<char>>,
}

/// What stands between the parent's id and the number in a child's id.
pub open spec fn child_infix(t: Template) -> Seq<char> {
    match t {
        Template::KanbanColumn => "-card-"@,
        _ => "-opt-"@,
    }
}

/// The children of a template, none but for lanes and proposals.
pub open spec fn template_children(t: Template, content: JsonView) -> Seq<ChildView> {
    match t {
        Template::KanbanColumn => children_under(content, "cards"@),
        Template::LonghouseProposal => children_under(content, "options"@),
        _ => Seq::empty(),
    }
}

/// What a template asks for. The component keeps everything it came with but takes
/// the template's name as its kind.
pub open spec fn expansion_of(t: Template, p: ComponentPatchView) -> ExpansionView {
    let kids = template_children(t, p.content);
    let ids = Seq::new(
        kids.len(),
        |i: int| child_id(p.id, child_infix(t), kids[i], i as nat),
    );
    ExpansionView {
        primary: ComponentPatchView { kind: template_name(t), ..p },
        children: Seq::new(kids.len(), |i: int| child_patch(ids[i], kids[i])),
        edges: if t is LonghouseProposal {
            Seq::new(kids.len(), |i: int| option_edge(p.id, ids[i], kids[i]))
        } else {
            Seq::empty()
        },
        child_ids: ids,
    }
}

/// What a template expands into.
#[derive(Debug, PartialEq, Eq)]
pub struct TemplateExpansion {
    /// The component itself.
    pub primary: CanvasComponentPatch,
    /// Its children.
    pub children: Vec<CanvasComponentPatch>,
    /// The edges to them.
    pub edges: Vec<CanvasEdgePatch>,
    /// The children's ids, in order.
    pub child_ids: Vec<ComponentId>,
}

/// The views of a list of component patches.
pub open spec fn component_patch_views(s: Seq<CanvasComponentPatch>) -> Seq<ComponentPatchView> {
    Seq::new(s.len(), |i: int| s[i]@)
}

/// The views of a list of edge patches.
pub open spec fn edge_patch_views(s: Seq<CanvasEdgePatch>) -> Seq<EdgePatchView> {
    Seq::new(s.len(), |i: int| s[i]@)
}

/// The views of a list of patches.
pub open spec fn patch_views(s: Seq<SurfacePatch>) -> Seq<PatchView> {
    Seq::new(s.len(), |i: int| s[i]@)
}

impl View for TemplateExpansion {
    type V = ExpansionView;

    open spec fn view(&self) -> ExpansionView {
        ExpansionView {
            primary: self.primary@,
            children: component_patch_views(self.children@),
            edges: edge_patch_views(self.edges@),
            child_ids: id_views(self.child_ids@),
        }
    }
}

/// The patches that bring an expansion about: the component, its children, a group
/// that ties them to it, and the edges.
pub open spec fn expansion_patches(e: ExpansionView) -> Seq<PatchView> {
    let upserts = seq![PatchView::Upsert(e.primary)] + Seq::new(
        e.children.len(),
        |i: int| PatchView::Upsert(e.children[i]),
    );
    let group = if e.child_ids.len() > 0 {
        seq![PatchView::Group(e.primary.id, e.child_ids)]
    } else {
        Seq::empty()
    };
    upserts + group + Seq::new(e.edges.len(), |i: int| PatchView::Connect(e.edges[i]))
}

impl TemplateExpansion {
    /// The patches to apply, in order.
    pub fn into_patches(self) -> (r: Vec<SurfacePatch>)
        ensures
            patch_views(r@) == expansion_patches(self@),
    {
        let ghost e = self@;
        let ghost kids = self.children@;
        let ghost links = self.edges@;
        let mut patches: Vec<SurfacePatch> = Vec::new();
        let frame_id = self.primary.id.clone();
        patches.push(SurfacePatch::UpsertComponent { component: self.primary });
        let ghost upserts = seq![PatchView::Upsert(e.primary)] + Seq::new(
            e.children.len(),
            |i: int| PatchView::Upsert(e.children[i]),
        );
        assert(patch_views(patches@) =~= upserts.take(1));
        for child in it: self.children
            invariant
                it.seq() == kids,
                e.children == component_patch_views(kids),
                upserts == seq![PatchView::Upsert(e.primary)] + Seq::new(
                    e.children.len(),
                    |i: int| PatchView::Upsert(e.children[i]),
                ),
                patch_views(patches@) == upserts.take(it.index() + 1),
        {
            let ghost before = patches@;
            let ghost k = it.index();
            patches.push(SurfacePatch::UpsertComponent { component: child });
            proof {
                assert(upserts[k + 1] == PatchView::Upsert(kids[k]@));
                assert(patch_views(patches@) =~= patch_views(before).push(upserts[k + 1]));
                assert(upserts.take(k + 2) =~= upserts.take(k + 1).push(upserts[k + 1]));
            }
        }
        assert(upserts.take(upserts.len() as int) =~= upserts);
        let ghost group = if e.child_ids.len() > 0 {
            seq![PatchView::Group(e.primary.id, e.child_ids)]
        } else {
            Seq::empty()
        };
        let ghost head = upserts + group;
        if self.child_ids.len() > 0 {
            let ghost before = patches@;
            patches.push(SurfacePatch::Group { frame_id, children: self.child_ids });
            assert(patch_views(patches@) =~= patch_views(before).push(group[0]));
        }
        assert(patch_views(patches@) =~= head);
        let ghost connects = Seq::new(e.edges.len(), |i: int| PatchView::Connect(e.edges[i]));
        assert(head + connects.take(0) =~= head);
        for edge in it: self.edges
            invariant
                it.seq() == links,
                e.edges == edge_patch_views(links),
                connects == Seq::new(e.edges.len(), |i: int| PatchView::Connect(e.edges[i])),
                patch_views(patches@) == head + connects.take(it.index()),
        {
            let ghost before = patches@;
            let ghost k = it.index();
            patches.push(SurfacePatch::Connect { edge });
            proof {
                assert(connects[k] == PatchView::Connect(links[k]@));
                assert(patch_views(patches@) =~= patch_views(before).push(connects[k]));
                assert(head + connects.take(k + 1) =~= (head + connects.take(k)).push(
                    connects[k],
                ));
            }
        }
        assert(connects.take(connects.len() as int) =~= connects);
        patches
    }
}

fn title_content(title: &str) -> (r: Json)
    ensures
        r@ == JsonView::Object(seq![("title"@, JsonView::Text(title@))]),
{
    let mut members: Vec<(String, Json)> = Vec::new();
    members.push((copy_str("title"), Json::Text(copy_str(title))));
    let r = Json::Object(members);
    assert(r@->Object_0 =~= seq![("title"@, JsonView::Text(title@))]) by {
        reveal_with_fuel(json_view, 2);
    }
    r
}

fn child_content(item: &Json) -> (r: Json)
    ensures
        r@ == JsonView::Object(child_members(item@)),
{
    let mut members: Vec<(String, Json)> = Vec::new();
    if let Some(title) = item.get_str("title") {
        members.push((copy_str("title"), Json::Text(copy_str(title))));
    }
    if let Some(body) = item.get_str("body") {
        members.push((copy_str("body"), Json::Text(copy_str(body))));
    }
    let r = Json::Object(members);
    assert(r@->Object_0 =~= child_members(item@)) by {
        reveal_with_fuel(json_view, 2);
    }
    r
}

fn child_spec(item: &Json) -> (r: ChildSpec)
    ensures
        r.view() == child_of(item@),
{
    match item {
        Json::Text(title) => ChildSpec {
            id: None,
            content: title_content(title.as_str()),
            label: None,
        },
        Json::Object(_) => {
            let id = match item.get_str("id") {
                Some(id) => Some(ComponentId::new(id)),
                None => None,
            };
            let label = if item.get("votes").is_some() {
                short_at(item, "votes")
            } else if item.get("tally").is_some() {
                short_at(item, "tally")
            } else {
                short_at(item, "count")
            };
            ChildSpec { id, content: child_content(item), label }
        },
        _ => ChildSpec { id: None, content: Json::Null, label: None },
    }
}

spec fn child_views(s: Seq<ChildSpec>) -> Seq<ChildView> {
    Seq::new(s.len(), |i: int| s[i].view())
}

/// Writes the id of the child at `i`.
fn make_child_id(parent: &ComponentId, infix: &str, i: usize, own: Option<ComponentId>) -> (r:
    ComponentId)
    ensures
        r@ == (match own {
            Some(id) => id@,
            None => parent@ + infix@ + decimal(i as nat),
        }),
{
    match own {
        Some(id) => id,
        None => {
            let mut s = copy_str(parent.as_str());
            s.push_str(infix);
            s.push_str(decimal_usize(i).as_str());
            ComponentId(s)
        },
    }
}

impl Template {
    /// The template with a name; nothing for primitive kinds and unknown names.
    pub fn from_kind(kind: &str) -> (r: Option<Self>)
        ensures
            r == template_of(kind@),
    {
        if str_eq(kind, "brief_card") {
            Some(Template::BriefCard)
        } else if str_eq(kind, "workflow_node") {
            Some(Template::WorkflowNode)
        } else if str_eq(kind, "kanban_column") {
            Some(Template::KanbanColumn)
        } else if str_eq(kind, "storyboard_frame") {
            Some(Template::StoryboardFrame)
        } else if str_eq(kind, "stat_tile") {
            Some(Template::StatTile)
        } else if str_eq(kind, "longhouse_proposal") {
            Some(Template::LonghouseProposal)
        } else {
            None
        }
    }

    /// The template's name.
    pub fn name(self) -> (r: &'static str)
        ensures
            r@ == template_name(self),
    {
        match self {
            Template::BriefCard => "brief_card",
            Template::WorkflowNode => "workflow_node",
            Template::KanbanColumn => "kanban_column",
            Template::StoryboardFrame => "storyboard_frame",
            Template::StatTile => "stat_tile",
            Template::LonghouseProposal => "longhouse_proposal",
        }
    }

    /// The structural kind that the template is drawn as.
    pub fn primitive_kind(self) -> (r: ComponentKind)
        ensures
            r == template_primitive(self),
    {
        match self {
            Template::BriefCard => ComponentKind::Card,
            Template::WorkflowNode => ComponentKind::Node,
            Template::KanbanColumn => ComponentKind::Lane,
            Template::StoryboardFrame => ComponentKind::Frame,
            Template::StatTile => ComponentKind::Stat,
            Template::LonghouseProposal => ComponentKind::Card,
        }
    }

    /// Width and height of the template's component where the patch does not say, as
    /// single-precision bit patterns: 320 by 220 for a brief, 200 by 96 for a node, 260
    /// by 480 for a lane, 320 by 200 for a frame, 160 by 96 for a stat and 340 by 240
    /// for a proposal.
    pub fn default_size(self) -> (r: (Coord, Coord))
        ensures
            r == (match self {
                Template::BriefCard => (Coord(0x43a0_0000), Coord(0x435c_0000)),
                Template::WorkflowNode => (Coord(0x4348_0000), Coord(0x42c0_0000)),
                Template::KanbanColumn => (Coord(0x4382_0000), Coord(0x43f0_0000)),
                Template::StoryboardFrame => (Coord(0x43a0_0000), Coord(0x4348_0000)),
                Template::StatTile => (Coord(0x4320_0000), Coord(0x42c0_0000)),
                Template::LonghouseProposal => (Coord(0x43aa_0000), Coord(0x4370_0000)),
            }),
    {
        match self {
            Template::BriefCard => (Coord(0x43a0_0000), Coord(0x435c_0000)),
            Template::WorkflowNode => (Coord(0x4348_0000), Coord(0x42c0_0000)),
            Template::KanbanColumn => (Coord(0x4382_0000), Coord(0x43f0_0000)),
            Template::StoryboardFrame => (Coord(0x43a0_0000), Coord(0x4348_0000)),
            Template::StatTile => (Coord(0x4320_0000), Coord(0x42c0_0000)),
            Template::LonghouseProposal => (Coord(0x43aa_0000), Coord(0x4370_0000)),
        }
    }

    fn child_specs(self, content: &Json, key: &str) -> (r: Vec<ChildSpec>)
        ensures
            child_views(r@) == children_under(content@, key@),
    {
        let mut r: Vec<ChildSpec> = Vec::new();
        match content.get(key) {
            Some(Json::Array(items)) => {
                let ghost all = children_under(content@, key@);
                let mut i: usize = 0;
                while i < items.len()
                    invariant
                        i <= items@.len(),
                        content@.get(key@) == Some(json_view(Json::Array(*items))),
                        all == children_under(content@, key@),
                        child_views(r@) =~= all.take(i as int),
                    decreases items@.len() - i,
                {
                    assert(all[i as int] == child_of(items@[i as int]@));
                    let ghost before = r@;
                    r.push(child_spec(&items[i]));
                    assert(child_views(r@) =~= child_views(before).push(all[i as int]));
                    i = i + 1;
                }
                assert(all.take(all.len() as int) =~= all);
            },
            _ => {
                assert(child_views(r@) =~= children_under(content@, key@));
            },
        }
        r
    }

    /// What a template-tagged component expands into: the component itself, the cards
    /// of a lane, the options of a proposal with an edge to each.
    pub fn expand(self, patch: &CanvasComponentPatch) -> (r: TemplateExpansion)
        ensures
            r@ == expansion_of(self, patch@),
    {
        let primary = CanvasComponentPatch {
            id: patch.id.clone(),
            kind: copy_str(self.name()),
            rect: patch.rect,
            z_index: patch.z_index,
            content: patch.content.clone(),
            metadata: patch.metadata.clone(),
        };
        let specs: Vec<ChildSpec> = match self {
            Template::KanbanColumn => self.child_specs(&patch.content, "cards"),
            Template::LonghouseProposal => self.child_specs(&patch.content, "options"),
            _ => {
                let none: Vec<ChildSpec> = Vec::new();
                assert(child_views(none@) =~= Seq::empty());
                none
            },
        };
        let infix: &str = match self {
            Template::KanbanColumn => "-card-",
            _ => "-opt-",
        };
        let linked = match self {
            Template::LonghouseProposal => true,
            _ => false,
        };
        let ghost kids = child_views(specs@);
        let ghost whole = expansion_of(self, patch@);
        let ghost all = specs@;
        assert(kids == template_children(self, patch@.content));
        let mut children: Vec<CanvasComponentPatch> = Vec::new();
        let mut edges: Vec<CanvasEdgePatch> = Vec::new();
        let mut child_ids: Vec<ComponentId> = Vec::new();
        let mut i: usize = 0;
        let total: usize = specs.len();
        for child in it: specs
            invariant
                it.seq() == all,
                i == it.index(),
                all.len() == total,
                kids == child_views(all),
                kids == template_children(self, patch@.content),
                infix@ == child_infix(self),
                linked == (self is LonghouseProposal),
                whole == expansion_of(self, patch@),
                component_patch_views(children@) =~= whole.children.take(i as int),
                id_views(child_ids@) =~= whole.child_ids.take(i as int),
                edge_patch_views(edges@) =~= (if linked {
                    whole.edges.take(i as int)
                } else {
                    Seq::empty()
                }),
        {
            assert(kids[i as int] == child.view());
            let ghost kid = child.view();
            let id = make_child_id(&patch.id, infix, i, child.id);
            assert(id@ == whole.child_ids[i as int]);
            let card = CanvasComponentPatch {
                id: id.clone(),
                kind: copy_str(Template::BriefCard.name()),
                rect: None,
                z_index: None,
                content: child.content,
                metadata: Json::Null,
            };
            assert(card@ == whole.children[i as int]);
            let ghost before = children@;
            children.push(card);
            assert(component_patch_views(children@) =~= component_patch_views(before).push(
                whole.children[i as int],
            ));
            if linked {
                let mut edge_id = copy_str(patch.id.as_str());
                edge_id.push_str("->");
                edge_id.push_str(id.as_str());
                let edge = CanvasEdgePatch {
                    id: EdgeId(edge_id),
                    from: Endpoint { component_id: patch.id.clone(), port: None },
                    to: Endpoint { component_id: id.clone(), port: None },
                    kind: Some(copy_str("reference")),
                    label: child.label,
                    metadata: Json::Null,
                };
                assert(edge@ == whole.edges[i as int]);
                let ghost links = edges@;
                edges.push(edge);
                assert(edge_patch_views(edges@) =~= edge_patch_views(links).push(
                    whole.edges[i as int],
                ));
            }
            let ghost ids = child_ids@;
            child_ids.push(id);
            assert(id_views(child_ids@) =~= id_views(ids).push(whole.child_ids[i as int]));
            i = i + 1;
        }
        let r = TemplateExpansion { primary, children, edges, child_ids };
        proof {
            assert(whole.children.take(kids.len() as int) =~= whole.children);
            assert(whole.child_ids.take(kids.len() as int) =~= whole.child_ids);
            assert(linked ==> whole.edges.take(kids.len() as int) =~= whole.edges);
            assert(r@ =~= whole);
        }
        r
    }

    /// What is drawn of a component's content.
    pub fn content(self, content: &Json) -> (r: TemplateContent)
        ensures
            r@ == content_of(self, content@),
    {
        let title = str_slot(content, "title");
        let body = either(str_slot(content, "body"), str_slot(content, "text"));
        match self {
            Template::BriefCard => TemplateContent::Brief {
                title,
                body,
                metadata: metadata_lines(content),
            },
            Template::WorkflowNode => TemplateContent::WorkflowNode {
                title,
                status: status_slot(content),
                inputs: port_names(content, "inputs"),
                outputs: port_names(content, "outputs"),
            },
            Template::KanbanColumn => {
                let count: Option<usize> = match content.get("cards") {
                    Some(Json::Array(cards)) => Some(cards.len()),
                    _ => None,
                };
                TemplateContent::KanbanColumn { title, count }
            },
            Template::StoryboardFrame => TemplateContent::StoryboardFrame {
                caption: either(str_slot(content, "caption"), title),
                media: either(
                    str_slot(content, "media"),
                    either(str_slot(content, "image"), str_slot(content, "shot")),
                ),
            },
            Template::StatTile => TemplateContent::Stat {
                label: either(str_slot(content, "label"), title),
                value: either(str_slot(content, "value"), short_at(content, "value")),
                delta: either(str_slot(content, "delta"), short_at(content, "delta")),
            },
            Template::LonghouseProposal => TemplateContent::LonghouseProposal {
                title,
                body,
                tally: tally_slots(content),
            },
        }
    }
}

/// The state of a workflow node.
#[derive(Clone, Copy, Debug, PartialEq, Eq, Structural)]
pub enum NodeStatus {
    Idle,
    Running,
    Succeeded,
    Error,
    Waiting,
}

/// The state that a word stands for, white space and capitals aside; a node with any
/// other word is idle.
pub open spec fn status_of(text: Seq<char>) -> NodeStatus {
    let word = ascii_lower_chars(trimmed(text));
    if word == "running"@ || word == "active"@ || word == "in_progress"@ || word
        == "in-progress"@ {
        NodeStatus::Running
    } else if word == "ok"@ || word == "done"@ || word == "success"@ || word == "succeeded"@ || word
        == "complete"@ || word == "completed"@ {
        NodeStatus::Succeeded
    } else if word == "error"@ || word == "failed"@ || word == "failure"@ || word == "err"@ {
        NodeStatus::Error
    } else if word == "waiting"@ || word == "blocked"@ || word == "pending"@ || word
        == "queued"@ {
        NodeStatus::Waiting
    } else {
        NodeStatus::Idle
    }
}

/// The word for a state.
pub open spec fn status_label(status: NodeStatus) -> Seq<char> {
    match status {
        NodeStatus::Idle => "idle"@,
        NodeStatus::Running => "running"@,
        NodeStatus::Succeeded => "ok"@,
        NodeStatus::Error => "error"@,
        NodeStatus::Waiting => "waiting"@,
    }
}

impl NodeStatus {
    /// The word drawn for the state.
    pub fn label(self) -> (r: &'static str)
        ensures
            r@ == status_label(self),
    {
        match self {
            NodeStatus::Idle => "idle",
            NodeStatus::Running => "running",
            NodeStatus::Succeeded => "ok",
            NodeStatus::Error => "error",
            NodeStatus::Waiting => "waiting",
        }
    }

    /// The state that a word stands for.
    pub fn parse(s: &str) -> (r: Self)
        ensures
            r == status_of(s@),
    {
        let lower = to_ascii_lower(trim(s).as_str());
        let word = lower.as_str();
        if str_eq(word, "running") || str_eq(word, "active") || str_eq(word, "in_progress")
            || str_eq(word, "in-progress") {
            NodeStatus::Running
        } else if str_eq(word, "ok") || str_eq(word, "done") || str_eq(word, "success") || str_eq(
            word,
            "succeeded",
        ) || str_eq(word, "complete") || str_eq(word, "completed") {
            NodeStatus::Succeeded
        } else if str_eq(word, "error") || str_eq(word, "failed") || str_eq(word, "failure")
            || str_eq(word, "err") {
            NodeStatus::Error
        } else if str_eq(word, "waiting") || str_eq(word, "blocked") || str_eq(word, "pending")
            || str_eq(word, "queued") {
            NodeStatus::Waiting
        } else {
            NodeStatus::Idle
        }
    }
}

/// One row of a tally.
#[derive(Debug, PartialEq, Eq)]
pub struct TallyRow {
    pub label: String,
    pub count: u64,
}

/// What is drawn of a template's content.
#[allow(inconsistent_fields)]
#[derive(Debug, PartialEq, Eq)]
pub enum TemplateContent {
    /// Heading, paragraph and metadata lines.
    Brief { title: Option<String>, body: Option<String>, metadata: Vec<(String, String)> },
    /// Heading, state and ports.
    WorkflowNode {
        title: Option<String>,
        status: NodeStatus,
        inputs: Vec<String>,
        outputs: Vec<String>,
    },
    /// Heading and number of cards.
    KanbanColumn { title: Option<String>, count: Option<usize> },
    /// Picture and caption.
    StoryboardFrame { caption: Option<String>, media: Option<String> },
    /// Value, label and change.
    Stat { label: Option<String>, value: Option<String>, delta: Option<String> },
    /// Heading, paragraph and tally.
    LonghouseProposal { title: Option<String>, body: Option<String>, tally: Vec<TallyRow> },
}

/// What is drawn of a template's content.
pub enum ContentView {
    Brief(Option<Seq<char>>, Option<Seq<char>>, Seq<(Seq<char>, Seq<char>)>),
    WorkflowNode(Option<Seq<char>>, NodeStatus, Seq<Seq<char>>, Seq<Seq<char>>),
    KanbanColumn(Option<Seq<char>>, Option<int>),
    StoryboardFrame(Option<Seq<char>>, Option<Seq<char>>),
    Stat(Option<Seq<char>>, Option<Seq<char>>, Option<Seq<char>>),
    LonghouseProposal(Option<Seq<char>>, Option<Seq<char>>, Seq<(Seq<char>, u64)>),
}

/// The texts of a list of pairs of strings.
pub open spec fn pair_views(s: Seq<(String, String)>) -> Seq<(Seq<char>, Seq<char>)> {
    Seq::new(s.len(), |i: int| (s[i].0@, s[i].1@))
}

/// The rows of a tally.
pub open spec fn tally_views(s: Seq<TallyRow>) -> Seq<(Seq<char>, u64)> {
    Seq::new(s.len(), |i: int| (s[i].label@, s[i].count))
}

impl View for TemplateContent {
    type V = ContentView;

    open spec fn view(&self) -> ContentView {
        match *self {
            TemplateContent::Brief { title, body, metadata } => ContentView::Brief(
                opt_chars(title),
                opt_chars(body),
                pair_views(metadata@),
            ),
            TemplateContent::WorkflowNode { title, status, inputs, outputs } => {
                ContentView::WorkflowNode(
                    opt_chars(title),
                    status,
                    texts(inputs@),
                    texts(outputs@),
                )
            },
            TemplateContent::KanbanColumn { title, count } => ContentView::KanbanColumn(
                opt_chars(title),
                match count {
                    Some(n) => Some(n as int),
                    None => None,
                },
            ),
            TemplateContent::StoryboardFrame { caption, media } => ContentView::StoryboardFrame(
                opt_chars(caption),
                opt_chars(media),
            ),
            TemplateContent::Stat { label, value, delta } => ContentView::Stat(
                opt_chars(label),
                opt_chars(value),
                opt_chars(delta),
            ),
            TemplateContent::LonghouseProposal { title, body, tally } => {
                ContentView::LonghouseProposal(
                    opt_chars(title),
                    opt_chars(body),
                    tally_views(tally@),
                )
            },
        }
    }
}

/// The metadata lines among the first `n` members: those with a plain value.
pub open spec fn lines_among(members: Seq<(Seq<char>, JsonView)>, n: int) -> Seq<
    (Seq<char>, Seq<char>),
>
    decreases n,
{
    if n <= 0 {
        Seq::empty()
    } else {
        match short_text(members[n - 1].1) {
            Some(s) => lines_among(members, n - 1).push((members[n - 1].0, s)),
            None => lines_among(members, n - 1),
        }
    }
}

/// The metadata lines of a content.
pub open spec fn lines_of(content: JsonView) -> Seq<(Seq<char>, Seq<char>)> {
    match content.get("metadata"@) {
        Some(JsonView::Object(members)) => lines_among(members, members.len() as int),
        _ => Seq::empty(),
    }
}

/// The name of a port: a text, or the name of an object.
pub open spec fn port_name(v: JsonView) -> Option<Seq<char>> {
    match v {
        JsonView::Text(s) => Some(s),
        JsonView::Object(_) => v.get_string("name"@),
        _ => None,
    }
}

/// The port names among the first `n` items.
pub open spec fn ports_among(items: Seq<JsonView>, n: int) -> Seq<Seq<char>>
    decreases n,
{
    if n <= 0 {
        Seq::empty()
    } else {
        match port_name(items[n - 1]) {
            Some(s) => ports_among(items, n - 1).push(s),
            None => ports_among(items, n - 1),
        }
    }
}

/// The port names under a key.
pub open spec fn ports_of(content: JsonView, key: Seq<char>) -> Seq<Seq<char>> {
    match content.get(key) {
        Some(JsonView::Array(items)) => ports_among(items, items.len() as int),
        _ => Seq::empty(),
    }
}

/// The tally rows among the first `n` members: those with a whole number.
pub open spec fn member_tally(members: Seq<(Seq<char>, JsonView)>, n: int) -> Seq<(Seq<char>, u64)>
    decreases n,
{
    if n <= 0 {
        Seq::empty()
    } else {
        match members[n - 1].1 {
            JsonView::Number(_, Some(count)) => member_tally(members, n - 1).push(
                (members[n - 1].0, count),
            ),
            _ => member_tally(members, n - 1),
        }
    }
}

/// The count of a tally row, zero where it has none.
pub open spec fn row_count(row: JsonView) -> u64 {
    match row.get("count"@) {
        Some(JsonView::Number(_, Some(count))) => count,
        _ => 0,
    }
}

/// The tally rows among the first `n` items: those with a label.
pub open spec fn row_tally(rows: Seq<JsonView>, n: int) -> Seq<(Seq<char>, u64)>
    decreases n,
{
    if n <= 0 {
        Seq::empty()
    } else {
        match rows[n - 1].get_string("label"@) {
            Some(label) => row_tally(rows, n - 1).push((label, row_count(rows[n - 1]))),
            None => row_tally(rows, n - 1),
        }
    }
}

/// The tally of a content, written as an object or as a list.
pub open spec fn tally_of(content: JsonView) -> Seq<(Seq<char>, u64)> {
    match content.get("tally"@) {
        Some(JsonView::Object(members)) => member_tally(members, members.len() as int),
        Some(JsonView::Array(rows)) => row_tally(rows, rows.len() as int),
        _ => Seq::empty(),
    }
}

/// What is drawn of a content.
pub open spec fn content_of(t: Template, content: JsonView) -> ContentView {
    let title = text_slot(content, "title"@);
    let body = first_of(text_slot(content, "body"@), text_slot(content, "text"@));
    match t {
        Template::BriefCard => ContentView::Brief(title, body, lines_of(content)),
        Template::WorkflowNode => ContentView::WorkflowNode(
            title,
            match content.get_string("status"@) {
                Some(s) => status_of(s),
                None => NodeStatus::Idle,
            },
            ports_of(content, "inputs"@),
            ports_of(content, "outputs"@),
        ),
        Template::KanbanColumn => ContentView::KanbanColumn(
            title,
            match content.get("cards"@) {
                Some(JsonView::Array(cards)) => Some(cards.len() as int),
                _ => None,
            },
        ),
        Template::StoryboardFrame => ContentView::StoryboardFrame(
            first_of(text_slot(content, "caption"@), title),
            first_of(
                text_slot(content, "media"@),
                first_of(text_slot(content, "image"@), text_slot(content, "shot"@)),
            ),
        ),
        Template::StatTile => ContentView::Stat(
            first_of(text_slot(content, "label"@), title),
            first_of(text_slot(content, "value"@), short_slot(content, "value"@)),
            first_of(text_slot(content, "delta"@), short_slot(content, "delta"@)),
        ),
        Template::LonghouseProposal => ContentView::LonghouseProposal(
            title,
            body,
            tally_of(content),
        ),
    }
}

impl TemplateContent {
    /// What is drawn of a component with a template's name as its kind; nothing for
    /// other kinds.
    pub fn resolve(kind: &str, content: &Json) -> (r: Option<Self>)
        ensures
            match template_of(kind@) {
                Some(t) => r matches Some(c) && c@ == content_of(t, content@),
                None => r is None,
            },
    {
        match Template::from_kind(kind) {
            Some(t) => Some(t.content(content)),
            None => None,
        }
    }
}

fn status_slot(content: &Json) -> (r: NodeStatus)
    ensures
        r == (match content@.get_string("status"@) {
            Some(s) => status_of(s),
            None => NodeStatus::Idle,
        }),
{
    match content.get_str("status") {
        Some(s) => NodeStatus::parse(s),
        None => NodeStatus::Idle,
    }
}

fn port_names(content: &Json, key: &str) -> (r: Vec<String>)
    ensures
        texts(r@) == ports_of(content@, key@),
{
    let mut r: Vec<String> = Vec::new();
    match content.get(key) {
        Some(Json::Array(items)) => {
            let ghost all = json_view(Json::Array(*items))->Array_0;
            let mut i: usize = 0;
            assert(texts(r@) =~= ports_among(all, 0));
            while i < items.len()
                invariant
                    i <= items@.len(),
                    all == json_view(Json::Array(*items))->Array_0,
                    texts(r@) == ports_among(all, i as int),
                decreases items@.len() - i,
            {
                let item = &items[i];
                assert(all[i as int] == item@);
                let name: Option<&str> = match item {
                    Json::Text(s) => Some(s.as_str()),
                    Json::Object(_) => item.get_str("name"),
                    _ => None,
                };
                let ghost before = r@;
                if let Some(s) = name {
                    r.push(copy_str(s));
                    assert(texts(r@) =~= texts(before).push(s@));
                }
                i = i + 1;
            }
        },
        _ => {
            assert(texts(r@) =~= Seq::empty());
        },
    }
    r
}

fn metadata_lines(content: &Json) -> (r: Vec<(String, String)>)
    ensures
        pair_views(r@) == lines_of(content@),
{
    let mut r: Vec<(String, String)> = Vec::new();
    match content.get("metadata") {
        Some(Json::Object(members)) => {
            let ghost all = json_view(Json::Object(*members))->Object_0;
            let mut i: usize = 0;
            assert(pair_views(r@) =~= lines_among(all, 0));
            while i < members.len()
                invariant
                    i <= members@.len(),
                    all == json_view(Json::Object(*members))->Object_0,
                    pair_views(r@) == lines_among(all, i as int),
                decreases members@.len() - i,
            {
                assert(all[i as int] == (members@[i as int].0@, members@[i as int].1@));
                let ghost before = r@;
                if let Some(s) = value_to_short_string(&members[i].1) {
                    let ghost line = (members@[i as int].0@, s@);
                    r.push((members[i].0.clone(), s));
                    assert(pair_views(r@) =~= pair_views(before).push(line));
                }
                i = i + 1;
            }
        },
        _ => {
            assert(pair_views(r@) =~= Seq::empty());
        },
    }
    r
}

fn tally_slots(content: &Json) -> (r: Vec<TallyRow>)
    ensures
        tally_views(r@) == tally_of(content@),
{
    let mut r: Vec<TallyRow> = Vec::new();
    match content.get("tally") {
        Some(Json::Object(members)) => {
            let ghost all = json_view(Json::Object(*members))->Object_0;
            let mut i: usize = 0;
            assert(tally_views(r@) =~= member_tally(all, 0));
            while i < members.len()
                invariant
                    i <= members@.len(),
                    all == json_view(Json::Object(*members))->Object_0,
                    tally_views(r@) == member_tally(all, i as int),
                decreases members@.len() - i,
            {
                assert(all[i as int] == (members@[i as int].0@, members@[i as int].1@));
                let ghost before = r@;
                if let Some(count) = members[i].1.as_u64() {
                    r.push(TallyRow { label: members[i].0.clone(), count });
                    assert(tally_views(r@) =~= tally_views(before).push(
                        (members@[i as int].0@, count),
                    ));
                }
                i = i + 1;
            }
        },
        Some(Json::Array(rows)) => {
            let ghost all = json_view(Json::Array(*rows))->Array_0;
            let mut i: usize = 0;
            assert(tally_views(r@) =~= row_tally(all, 0));
            while i < rows.len()
                invariant
                    i <= rows@.len(),
                    all == json_view(Json::Array(*rows))->Array_0,
                    tally_views(r@) == row_tally(all, i as int),
                decreases rows@.len() - i,
            {
                let row = &rows[i];
                assert(all[i as int] == row@);
                let ghost before = r@;
                if let Some(label) = row.get_str("label") {
                    let count: u64 = match row.get("count") {
                        Some(v) => match v.as_u64() {
                            Some(n) => n,
                            None => 0,
                        },
                        None => 0,
                    };
                    r.push(TallyRow { label: copy_str(label), count });
                    assert(tally_views(r@) =~= tally_views(before).push((label@, count)));
                }
                i = i + 1;
            }
        },
        _ => {
            assert(tally_views(r@) =~= Seq::empty());
        },
    }
    r
}

/// A template is found again by its name.
pub proof fn law_template_found_by_name(t: Template)
    ensures
        template_of(template_name(t)) == Some(t),
{
    reveal_strlit("brief_card");
    reveal_strlit("workflow_node");
    reveal_strlit("kanban_column");
    reveal_strlit("storyboard_frame");
    reveal_strlit("stat_tile");
    reveal_strlit("longhouse_proposal");
    let name = template_name(t);
    assert(name[0] == 'b' || name[0] == 'w' || name[0] == 'k' || name[0] == 's' || name[0] == 'l');
    assert("storyboard_frame"@[2] == 'o');
    assert("stat_tile"@[2] == 'a');
    assert("brief_card"@[0] == 'b');
    assert("workflow_node"@[0] == 'w');
    assert("kanban_column"@[0] == 'k');
    assert("longhouse_proposal"@[0] == 'l');
    assert("storyboard_frame"@[0] == 's');
    assert("stat_tile"@[0] == 's');
}

/// The kind that a ledger gives to a template's name is the one the template is drawn
/// as. A stat tile is the exception: by its name it is a card.
pub proof fn law_kind_agrees_with_template(t: Template)
    requires
        t !is StatTile,
    ensures
        kind_of(template_name(t)) == template_primitive(t),
{
    reveal_strlit("brief_card");
    reveal_strlit("workflow_node");
    reveal_strlit("kanban_column");
    reveal_strlit("storyboard_frame");
    reveal_strlit("stat_tile");
    reveal_strlit("longhouse_proposal");
    reveal_strlit("card");
    reveal_strlit("text_block");
    reveal_strlit("textblock");
    reveal_strlit("frame");
    reveal_strlit("node");
    reveal_strlit("port");
    reveal_strlit("edge_label");
    reveal_strlit("edgelabel");
    reveal_strlit("lane");
    reveal_strlit("table");
    reveal_strlit("media_slot");
    reveal_strlit("mediaslot");
    reveal_strlit("stat");
    reveal_strlit("_card");
    reveal_strlit("_node");
    reveal_strlit("_column");
    reveal_strlit("_lane");
    reveal_strlit("_frame");
    let name = template_name(t);
    let n = name.len() as int;
    assert(n >= 10);
    assert(name.skip(n - 5).len() == 5);
    match t {
        Template::BriefCard => {
            assert(name.skip(n - 5) =~= "_card"@);
            assert(name[0] != "text_block"@[0] && name[0] != "edge_label"@[0] && name[0]
                != "media_slot"@[0]);
        },
        Template::WorkflowNode => {
            assert(name.skip(n - 5) =~= "_node"@);
            assert(name.skip(n - 5)[1] != "_card"@[1]);
        },
        Template::KanbanColumn => {
            assert(name.skip(n - 7) =~= "_column"@);
            assert(name.skip(n - 5)[0] == 'o');
            assert("_card"@[0] == '_' && "_node"@[0] == '_');
        },
        Template::StoryboardFrame => {
            assert(name.skip(n - 6) =~= "_frame"@);
            assert(name.skip(n - 5)[0] == 'f');
            assert(name.skip(n - 7)[0] == 'd');
            assert("_card"@[0] == '_' && "_node"@[0] == '_' && "_lane"@[0] == '_'
                && "_column"@[0] == '_');
        },
        _ => {
            assert(name.skip(n - 5)[0] == 'p' || name.skip(n - 5)[0] == 'o');
            assert(name.skip(n - 6)[0] == 'o' || name.skip(n - 6)[0] == 'r' || name.skip(n - 6)[0]
                == 'p');
            assert(name.skip(n - 7)[0] == 'r' || name.skip(n - 7)[0] == 'p');
            assert("_card"@[0] == '_' && "_node"@[0] == '_' && "_lane"@[0] == '_'
                && "_column"@[0] == '_' && "_frame"@[0] == '_');
        },
    }
}

/// The word for a state stands for that state.
pub proof fn law_status_label_parses(status: NodeStatus)
    ensures
        status_of(status_label(status)) == status,
{
    let word = status_label(status);
    reveal_strlit("idle");
    reveal_strlit("running");
    reveal_strlit("ok");
    reveal_strlit("error");
    reveal_strlit("waiting");
    reveal_strlit("active");
    reveal_strlit("in_progress");
    reveal_strlit("in-progress");
    reveal_strlit("done");
    reveal_strlit("success");
    reveal_strlit("succeeded");
    reveal_strlit("complete");
    reveal_strlit("completed");
    reveal_strlit("failed");
    reveal_strlit("failure");
    reveal_strlit("err");
    reveal_strlit("blocked");
    reveal_strlit("pending");
    reveal_strlit("queued");
    assert(word.len() > 0 && 'a' <= word[0] <= 'z' && 'a' <= word.last() <= 'z');
    assert(trim_start_chars(word) == word);
    assert(trim_end_chars(word) == word);
    assert(ascii_lower_chars(word) =~= word) by {
        assert forall|i: int| 0 <= i < word.len() implies ascii_lower(word[i]) == word[i] by {
            assert('a' <= word[i] <= 'z');
        }
    }
    if status is Idle {
        assert(word[0] == 'i' && word[1] == 'd' && word.len() == 4);
        assert("done"@[0] == 'd');
    }
    if status is Waiting {
        assert(word[0] == 'w' && "running"@[0] == 'r' && "success"@[0] == 's' && "failure"@[0]
            == 'f');
    }
}

/// A template leaves the component that it was asked for as it came: its id, its place and
/// its content. Its kind is the one by which the template is found again.
pub proof fn law_component_keeps_what_it_came_with(t: Template, p: ComponentPatchView)
    ensures
        ({
            let primary = expansion_of(t, p).primary;
            &&& primary.id == p.id
            &&& primary.rect == p.rect
            &&& primary.z_index == p.z_index
            &&& primary.content == p.content
            &&& primary.metadata == p.metadata
            &&& template_of(primary.kind) == Some(t)
        }),
{
    law_template_found_by_name(t);
}

/// Whether a child says what its item says: a text is its title, and of an object the title
/// and the body are taken where they are text; its id is the item's where it has one, and
/// otherwise its parent's with `infix` and its number.
pub open spec fn says_what_item_says(
    child: ComponentPatchView,
    item: JsonView,
    parent: Seq<char>,
    infix: Seq<char>,
    i: nat,
) -> bool {
    &&& child.kind == "brief_card"@
    &&& child.rect is None
    &&& child.z_index is None
    &&& child.metadata is Null
    &&& item matches JsonView::Text(s) ==> child.content.get_string("title"@) == Some(s)
        && child.content.get("body"@) is None
    &&& item is Object ==> child.content.get_string("title"@) == item.get_string("title"@)
        && child.content.get_string("body"@) == item.get_string("body"@)
    &&& item.get_string("id"@) matches Some(id) ==> child.id == id
    &&& item.get_string("id"@) is None ==> child.id == parent + infix + decimal(i)
}

proof fn lemma_child_says(item: JsonView, parent: Seq<char>, infix: Seq<char>, i: nat)
    ensures
        says_what_item_says(
            child_patch(child_id(parent, infix, child_of(item), i), child_of(item)),
            item,
            parent,
            infix,
            i,
        ),
{
    reveal_strlit("title");
    reveal_strlit("body");
    assert("title"@.len() != "body"@.len());
    match item {
        JsonView::Text(s) => {
            let members = seq![("title"@, JsonView::Text(s))];
            assert(members.drop_last() =~= Seq::empty());
            reveal_with_fuel(member_of, 3);
            assert(member_of(members, "title"@) == Some(JsonView::Text(s)));
            assert(member_of(members, "body"@) is None);
        },
        JsonView::Object(_) => {
            let members = child_members(item);
            reveal_with_fuel(member_of, 4);
            let title = match item.get_string("title"@) {
                Some(s) => seq![("title"@, JsonView::Text(s))],
                None => Seq::empty(),
            };
            if item.get_string("body"@) is Some {
                assert(members.drop_last() =~= title);
            }
            if item.get_string("title"@) is Some {
                assert(title.drop_last() =~= Seq::empty());
            }
            assert(member_of(title, "body"@) is None);
            assert(JsonView::Object(title).get_string("title"@) == item.get_string("title"@));
        },
        _ => {},
    }
}

/// A lane brings a card for every item of its list, in order, and no edges.
pub proof fn law_lane_brings_its_cards(p: ComponentPatchView, items: Seq<JsonView>, i: int)
    requires
        p.content.get("cards"@) == Some(JsonView::Array(items)),
    ensures
        ({
            let e = expansion_of(Template::KanbanColumn, p);
            &&& e.children.len() == items.len()
            &&& e.child_ids.len() == items.len()
            &&& e.edges.len() == 0
            &&& 0 <= i < items.len() ==> e.child_ids[i] == e.children[i].id && says_what_item_says(
                e.children[i],
                items[i],
                p.id,
                "-card-"@,
                i as nat,
            )
        }),
{
    if 0 <= i < items.len() {
        lemma_child_says(items[i], p.id, "-card-"@, i as nat);
    }
}

/// A proposal brings a card for every option of its list, in order, and to each an edge that
/// refers to it, labelled with its votes, its tally or its count, whichever key it has first.
pub proof fn law_proposal_brings_its_options(p: ComponentPatchView, items: Seq<JsonView>, i: int)
    requires
        p.content.get("options"@) == Some(JsonView::Array(items)),
    ensures
        ({
            let e = expansion_of(Template::LonghouseProposal, p);
            &&& e.children.len() == items.len()
            &&& e.child_ids.len() == items.len()
            &&& e.edges.len() == items.len()
            &&& 0 <= i < items.len() ==> {
                &&& e.child_ids[i] == e.children[i].id
                &&& says_what_item_says(e.children[i], items[i], p.id, "-opt-"@, i as nat)
                &&& e.edges[i].id == p.id + "->"@ + e.children[i].id
                &&& e.edges[i].from.component_id == p.id
                &&& e.edges[i].to.component_id == e.children[i].id
                &&& e.edges[i].from.port is None
                &&& e.edges[i].to.port is None
                &&& e.edges[i].kind == Some("reference"@)
                &&& e.edges[i].metadata is Null
                &&& items[i] is Object && items[i].get("votes"@) is Some ==> e.edges[i].label
                    == short_slot(items[i], "votes"@)
                &&& items[i] is Object && items[i].get("votes"@) is None && items[i].get("tally"@)
                    is Some ==> e.edges[i].label == short_slot(items[i], "tally"@)
                &&& items[i] is Object && items[i].get("votes"@) is None && items[i].get("tally"@)
                    is None ==> e.edges[i].label == short_slot(items[i], "count"@)
                &&& items[i] !is Object ==> e.edges[i].label is None
            }
        }),
{
    if 0 <= i < items.len() {
        lemma_child_says(items[i], p.id, "-opt-"@, i as nat);
    }
}

/// Only lanes and proposals have children, and only where they come with a list.
pub proof fn law_plain_templates_stand_alone(t: Template, p: ComponentPatchView)
    requires
        (t is KanbanColumn && !(p.content.get("cards"@) matches Some(JsonView::Array(_)))) || (
        t is LonghouseProposal && !(p.content.get("options"@) matches Some(JsonView::Array(_)))) || (
        t !is KanbanColumn && t !is LonghouseProposal),
    ensures
        expansion_of(t, p).children.len() == 0,
        expansion_of(t, p).child_ids.len() == 0,
        expansion_of(t, p).edges.len() == 0,
{
}

/// The patches of an expansion bring the component first, then its children in order, then
/// the group that ties them to it, where there are any, and last the edges in order.
pub proof fn law_patches_bring_the_expansion_about(e: ExpansionView, i: int)
    ensures
        ({
            let patches = expansion_patches(e);
            let n = e.children.len() as int;
            let group: int = if e.child_ids.len() > 0 {
                1
            } else {
                0
            };
            &&& patches.len() == 1 + n + group + e.edges.len()
            &&& patches[0] == PatchView::Upsert(e.primary)
            &&& 0 <= i < n ==> patches[1 + i] == PatchView::Upsert(e.children[i])
            &&& group == 1 ==> patches[1 + n] == PatchView::Group(e.primary.id, e.child_ids)
            &&& 0 <= i < e.edges.len() ==> patches[1 + n + group + i] == PatchView::Connect(
                e.edges[i],
            )
        }),
{
}

/// What is drawn of a text under a key: all of it, unless it is empty.
pub open spec fn drawn(content: JsonView, key: Seq<char>) -> Option<Seq<char>> {
    match content.get(key) {
        Some(JsonView::Text(s)) => if s.len() > 0 {
            Some(s)
        } else {
            None
        },
        _ => None,
    }
}

/// The heading that is drawn is the title; of a frame it is the caption first and of a stat
/// the label. The paragraph is the body or, without one, the text.
pub proof fn law_heading_and_paragraph_are_drawn(content: JsonView)
    ensures
        ({
            let title = drawn(content, "title"@);
            let body = if drawn(content, "body"@) is Some {
                drawn(content, "body"@)
            } else {
                drawn(content, "text"@)
            };
            &&& content_of(Template::BriefCard, content) matches ContentView::Brief(t, b, _) && t
                == title && b == body
            &&& content_of(Template::WorkflowNode, content) matches ContentView::WorkflowNode(
                t,
                _,
                _,
                _,
            ) && t == title
            &&& content_of(Template::KanbanColumn, content) matches ContentView::KanbanColumn(
                t,
                _,
            ) && t == title
            &&& content_of(Template::LonghouseProposal, content)
                matches ContentView::LonghouseProposal(t, b, _) && t == title && b == body
            &&& content_of(Template::StoryboardFrame, content)
                matches ContentView::StoryboardFrame(t, m) && (drawn(content, "caption"@) is Some
                ==> t == drawn(content, "caption"@)) && (drawn(content, "caption"@) is None ==> t
                == title) && (drawn(content, "media"@) is Some ==> m == drawn(content, "media"@))
                && (drawn(content, "media"@) is None && drawn(content, "image"@) is Some ==> m
                == drawn(content, "image"@)) && (drawn(content, "media"@) is None && drawn(
                content,
                "image"@,
            ) is None ==> m == drawn(content, "shot"@))
            &&& content_of(Template::StatTile, content) matches ContentView::Stat(t, v, d) && (
            drawn(content, "label"@) is Some ==> t == drawn(content, "label"@)) && (drawn(
                content,
                "label"@,
            ) is None ==> t == title) && (drawn(content, "value"@) is Some ==> v == drawn(
                content,
                "value"@,
            )) && (content.get("value"@) matches Some(JsonView::Number(n, _)) ==> v == Some(n))
                && (drawn(content, "delta"@) is Some ==> d == drawn(content, "delta"@)) && (
            content.get("delta"@) matches Some(JsonView::Number(n, _)) ==> d == Some(n))
        }),
{
}

/// A lane tells how many cards are listed; a node tells the state that its content names and
/// is idle where it names none.
pub proof fn law_lane_counts_and_node_tells(content: JsonView)
    ensures
        content.get("cards"@) matches Some(JsonView::Array(cards)) ==> (content_of(
            Template::KanbanColumn,
            content,
        ) matches ContentView::KanbanColumn(_, n) && n == Some(cards.len() as int)),
        content.get("status"@) matches Some(JsonView::Text(s)) ==> (content_of(
            Template::WorkflowNode,
            content,
        ) matches ContentView::WorkflowNode(_, status, _, _) && status == status_of(s)),
        !(content.get("status"@) matches Some(JsonView::Text(_))) ==> (content_of(
            Template::WorkflowNode,
            content,
        ) matches ContentView::WorkflowNode(_, status, _, _) && status is Idle),
{
}

proof fn lemma_lines_grow(members: Seq<(Seq<char>, JsonView)>, i: int, n: int)
    requires
        0 <= i <= n <= members.len(),
    ensures
        lines_among(members, i).is_prefix_of(lines_among(members, n)),
    decreases n,
{
    if i < n {
        lemma_lines_grow(members, i, n - 1);
    }
}

/// Every plain value among the metadata is a line, under its key and behind those before it:
/// text that is not empty, numbers as they are written, and truth values by name. Nothing
/// else is.
pub proof fn law_plain_metadata_is_listed(members: Seq<(Seq<char>, JsonView)>, i: int)
    requires
        0 <= i < members.len(),
    ensures
        ({
            let before = lines_among(members, i);
            let all = lines_among(members, members.len() as int);
            let line = |s: Seq<char>|
                before.len() < all.len() && all[before.len() as int] == (members[i].0, s);
            &&& before.is_prefix_of(all)
            &&& lines_among(members, 0).len() == 0
            &&& members[i].1 matches JsonView::Text(s) ==> (s.len() > 0 ==> line(s))
            &&& members[i].1 matches JsonView::Number(s, _) ==> line(s)
            &&& members[i].1 == JsonView::Bool(true) ==> line("true"@)
            &&& members[i].1 == JsonView::Bool(false) ==> line("false"@)
            &&& members[i].1 is Null || members[i].1 is Array || members[i].1 is Object
                ==> lines_among(members, i + 1) == before
            &&& members[i].1 matches JsonView::Text(s) ==> (s.len() == 0 ==> lines_among(
                members,
                i + 1,
            ) == before)
        }),
{
    lemma_lines_grow(members, i, members.len() as int);
    lemma_lines_grow(members, i + 1, members.len() as int);
    let before = lines_among(members, i);
    let with = lines_among(members, i + 1);
    let all = lines_among(members, members.len() as int);
    if with.len() > before.len() {
        assert(with == before.push(with.last()));
        assert(with[before.len() as int] == all.subrange(0, with.len() as int)[before.len() as int]);
    }
}

proof fn lemma_ports_grow(items: Seq<JsonView>, i: int, n: int)
    requires
        0 <= i <= n <= items.len(),
    ensures
        ports_among(items, i).is_prefix_of(ports_among(items, n)),
    decreases n,
{
    if i < n {
        lemma_ports_grow(items, i, n - 1);
    }
}

/// Every port is listed behind those before it: a text by itself, an object by its name.
/// Nothing else is.
pub proof fn law_ports_are_listed(items: Seq<JsonView>, i: int)
    requires
        0 <= i < items.len(),
    ensures
        ({
            let before = ports_among(items, i);
            let all = ports_among(items, items.len() as int);
            &&& before.is_prefix_of(all)
            &&& ports_among(items, 0).len() == 0
            &&& items[i] matches JsonView::Text(s) ==> before.len() < all.len()
                && all[before.len() as int] == s
            &&& items[i].get("name"@) matches Some(JsonView::Text(s)) ==> before.len() < all.len()
                && all[before.len() as int] == s
            &&& items[i] !is Text && items[i] !is Object ==> ports_among(items, i + 1) == before
        }),
{
    lemma_ports_grow(items, i, items.len() as int);
    lemma_ports_grow(items, i + 1, items.len() as int);
    let before = ports_among(items, i);
    let with = ports_among(items, i + 1);
    let all = ports_among(items, items.len() as int);
    if with.len() > before.len() {
        assert(with == before.push(with.last()));
        assert(with[before.len() as int] == all.subrange(0, with.len() as int)[before.len() as int]);
    }
}

proof fn lemma_tally_grows(members: Seq<(Seq<char>, JsonView)>, i: int, n: int)
    requires
        0 <= i <= n <= members.len(),
    ensures
        member_tally(members, i).is_prefix_of(member_tally(members, n)),
    decreases n,
{
    if i < n {
        lemma_tally_grows(members, i, n - 1);
    }
}

proof fn lemma_rows_grow(rows: Seq<JsonView>, i: int, n: int)
    requires
        0 <= i <= n <= rows.len(),
    ensures
        row_tally(rows, i).is_prefix_of(row_tally(rows, n)),
    decreases n,
{
    if i < n {
        lemma_rows_grow(rows, i, n - 1);
    }
}

/// A tally that is written as an object has a row for every whole number in it, under its
/// key and behind those before it, and no others.
pub proof fn law_tally_object_is_counted(members: Seq<(Seq<char>, JsonView)>, i: int)
    requires
        0 <= i < members.len(),
    ensures
        ({
            let before = member_tally(members, i);
            let all = member_tally(members, members.len() as int);
            &&& before.is_prefix_of(all)
            &&& member_tally(members, 0).len() == 0
            &&& members[i].1 matches JsonView::Number(_, Some(n)) ==> before.len() < all.len()
                && all[before.len() as int] == (members[i].0, n)
            &&& !(members[i].1 matches JsonView::Number(_, Some(_))) ==> member_tally(
                members,
                i + 1,
            ) == before
        }),
{
    lemma_tally_grows(members, i, members.len() as int);
    lemma_tally_grows(members, i + 1, members.len() as int);
    let before = member_tally(members, i);
    let with = member_tally(members, i + 1);
    let all = member_tally(members, members.len() as int);
    if with.len() > before.len() {
        assert(with == before.push(with.last()));
        assert(with[before.len() as int] == all.subrange(0, with.len() as int)[before.len() as int]);
    }
}

/// A tally that is written as a list has a row for every item with a label, behind those
/// before it: with the item's count, or nought where it has none.
pub proof fn law_tally_list_is_counted(rows: Seq<JsonView>, i: int)
    requires
        0 <= i < rows.len(),
    ensures
        ({
            let before = row_tally(rows, i);
            let all = row_tally(rows, rows.len() as int);
            &&& before.is_prefix_of(all)
            &&& row_tally(rows, 0).len() == 0
            &&& rows[i].get("label"@) matches Some(JsonView::Text(s)) ==> before.len() < all.len()
                && all[before.len() as int].0 == s && (rows[i].get("count"@) matches Some(
                JsonView::Number(_, Some(n)),
            ) ==> all[before.len() as int].1 == n) && (rows[i].get("count"@) is None
                ==> all[before.len() as int].1 == 0)
            &&& !(rows[i].get("label"@) matches Some(JsonView::Text(_))) ==> row_tally(rows, i + 1)
                == before
        }),
{
    lemma_rows_grow(rows, i, rows.len() as int);
    lemma_rows_grow(rows, i + 1, rows.len() as int);
    let before = row_tally(rows, i);
    let with = row_tally(rows, i + 1);
    let all = row_tally(rows, rows.len() as int);
    if with.len() > before.len() {
        assert(with == before.push(with.last()));
        assert(with[before.len() as int] == all.subrange(0, with.len() as int)[before.len() as int]);
    }
}

/// What a list or an object holds is drawn by the templates that have a place for it.
pub proof fn law_lists_are_drawn(content: JsonView)
    ensures
        content.get("metadata"@) matches Some(JsonView::Object(members)) ==> (content_of(
            Template::BriefCard,
            content,
        ) matches ContentView::Brief(_, _, lines) && lines == lines_among(
            members,
            members.len() as int,
        )),
        content.get("inputs"@) matches Some(JsonView::Array(items)) ==> (content_of(
            Template::WorkflowNode,
            content,
        ) matches ContentView::WorkflowNode(_, _, inputs, _) && inputs == ports_among(
            items,
            items.len() as int,
        )),
        content.get("outputs"@) matches Some(JsonView::Array(items)) ==> (content_of(
            Template::WorkflowNode,
            content,
        ) matches ContentView::WorkflowNode(_, _, _, outputs) && outputs == ports_among(
            items,
            items.len() as int,
        )),
        content.get("tally"@) matches Some(JsonView::Object(members)) ==> (content_of(
            Template::LonghouseProposal,
            content,
        ) matches ContentView::LonghouseProposal(_, _, tally) && tally == member_tally(
            members,
            members.len() as int,
        )),
        content.get("tally"@) matches Some(JsonView::Array(rows)) ==> (content_of(
            Template::LonghouseProposal,
            content,
        ) matches ContentView::LonghouseProposal(_, _, tally) && tally == row_tally(
            rows,
            rows.len() as int,
        )),
{
}

/// The words for a state mean it in any capitals and with white space around them.
pub proof fn law_words_for_a_state_mean_it(text: Seq<char>)
    ensures
        ({
            let word = ascii_lower_chars(trimmed(text));
            &&& word == "running"@ || word == "active"@ || word == "in_progress"@ || word
                == "in-progress"@ ==> status_of(text) is Running
            &&& word == "ok"@ || word == "done"@ || word == "success"@ || word == "succeeded"@
                || word == "complete"@ || word == "completed"@ ==> status_of(text) is Succeeded
            &&& word == "error"@ || word == "failed"@ || word == "failure"@ || word == "err"@
                ==> status_of(text) is Error
            &&& word == "waiting"@ || word == "blocked"@ || word == "pending"@ || word
                == "queued"@ ==> status_of(text) is Waiting
        }),
{
    reveal_strlit("running");
    reveal_strlit("ok");
    reveal_strlit("error");
    reveal_strlit("waiting");
    reveal_strlit("active");
    reveal_strlit("in_progress");
    reveal_strlit("in-progress");
    reveal_strlit("done");
    reveal_strlit("success");
    reveal_strlit("succeeded");
    reveal_strlit("complete");
    reveal_strlit("completed");
    reveal_strlit("failed");
    reveal_strlit("failure");
    reveal_strlit("err");
    reveal_strlit("blocked");
    reveal_strlit("pending");
    reveal_strlit("queued");
    let word = ascii_lower_chars(trimmed(text));
    assert("running"@[0] == 'r' && "active"@[0] == 'a' && "in_progress"@[0] == 'i'
        && "in-progress"@[0] == 'i');
    assert("ok"@[0] == 'o' && "done"@[0] == 'd' && "success"@[0] == 's' && "succeeded"@[0] == 's'
        && "complete"@[0] == 'c' && "completed"@[0] == 'c');
    assert("error"@[0] == 'e' && "failed"@[0] == 'f' && "failure"@[0] == 'f' && "err"@[0] == 'e');
    assert("waiting"@[0] == 'w' && "blocked"@[0] == 'b' && "pending"@[0] == 'p' && "queued"@[0]
        == 'q');
}

} // verus!
