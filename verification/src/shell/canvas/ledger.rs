//! The ledger of one canvas: its components, edges, selection and viewport, the
//! log of every patch that was applied, and the versions by which concurrent
//! writes converge.

use vstd::prelude::*;

use crate::json::{Json, JsonNumber};
use crate::ordered_map::OrderedMap;
use crate::shell::canvas::patch::{
    copy_ids, ids_contain, ActorId, ActorRef, CanvasComponentPatch, CanvasEdgePatch, CanvasId,
    CanvasMergeState, ComponentId, ComponentVersion, EdgeId, Endpoint, FocusTarget, LamportClock,
    LayoutTarget, PatchId, Rect, SurfaceId, SurfacePatch, SurfacePatchEnvelope, Viewport,
};
use crate::text::{copy_str, decimal_text, ends_with, str_eq};

verus! {

broadcast use vstd::string::group_string_axioms;

use crate::json::{json_view, JsonView};
use crate::ordered_map::{
    holds_key, keys_distinct, lemma_filter_distinct, lemma_filter_from, lemma_filter_step,
    lemma_filter_to, lemma_place_of_key, lemma_same_keys, place_of_key, value_of, with_entry,
    without_entry,
};
use crate::shell::canvas::patch::{
    actor_id_of, id_views, law_merge_commutes, law_version_irreflexive, law_version_total,
    law_version_transitive, merged, origin_viewport, version_less, ActorView, ComponentPatchView,
    EdgePatchView, EndpointView, EnvelopeView, FocusView, LayoutTargetView, PatchView, VersionView,
    Versions,
};
use crate::text::{decimal, ends_with_chars, opt_chars};

/// How a canvas is worked with.
#[derive(Clone, Copy, Debug, PartialEq, Eq, Structural)]
pub enum CanvasMode {
    Freeform,
    Workflow,
    Kanban,
    Storyboard,
}

impl Default for CanvasMode {
    fn default() -> (r: Self)
        ensures
            r is Freeform,
    {
        CanvasMode::Freeform
    }
}

/// The structural kinds of component.
#[derive(Clone, Copy, Debug, PartialEq, Eq, Structural)]
pub enum ComponentKind {
    Card,
    TextBlock,
    Frame,
    Node,
    Port,
    EdgeLabel,
    Lane,
    Table,
    MediaSlot,
    Stat,
}

/// The structural kind of a kind or template name; names without a kind of their
/// own go by their ending, and are cards otherwise.
pub open spec fn kind_of(name: Seq<char>) -> ComponentKind {
    if name == "card"@ {
        ComponentKind::Card
    } else if name == "text_block"@ || name == "textblock"@ {
        ComponentKind::TextBlock
    } else if name == "frame"@ {
        ComponentKind::Frame
    } else if name == "node"@ {
        ComponentKind::Node
    } else if name == "port"@ {
        ComponentKind::Port
    } else if name == "edge_label"@ || name == "edgelabel"@ {
        ComponentKind::EdgeLabel
    } else if name == "lane"@ {
        ComponentKind::Lane
    } else if name == "table"@ {
        ComponentKind::Table
    } else if name == "media_slot"@ || name == "mediaslot"@ {
        ComponentKind::MediaSlot
    } else if name == "stat"@ {
        ComponentKind::Stat
    } else if ends_with_chars(name, "_card"@) {
        ComponentKind::Card
    } else if ends_with_chars(name, "_node"@) {
        ComponentKind::Node
    } else if ends_with_chars(name, "_column"@) || ends_with_chars(name, "_lane"@) {
        ComponentKind::Lane
    } else if ends_with_chars(name, "_frame"@) {
        ComponentKind::Frame
    } else {
        ComponentKind::Card
    }
}

impl ComponentKind {
    /// The structural kind of a kind or template name.
    pub fn from_patch_kind(kind: &str) -> (r: Self)
        ensures
            r == kind_of(kind@),
    {
        if str_eq(kind, "card") {
            ComponentKind::Card
        } else if str_eq(kind, "text_block") || str_eq(kind, "textblock") {
            ComponentKind::TextBlock
        } else if str_eq(kind, "frame") {
            ComponentKind::Frame
        } else if str_eq(kind, "node") {
            ComponentKind::Node
        } else if str_eq(kind, "port") {
            ComponentKind::Port
        } else if str_eq(kind, "edge_label") || str_eq(kind, "edgelabel") {
            ComponentKind::EdgeLabel
        } else if str_eq(kind, "lane") {
            ComponentKind::Lane
        } else if str_eq(kind, "table") {
            ComponentKind::Table
        } else if str_eq(kind, "media_slot") || str_eq(kind, "mediaslot") {
            ComponentKind::MediaSlot
        } else if str_eq(kind, "stat") {
            ComponentKind::Stat
        } else if ends_with(kind, "_card") {
            ComponentKind::Card
        } else if ends_with(kind, "_node") {
            ComponentKind::Node
        } else if ends_with(kind, "_column") || ends_with(kind, "_lane") {
            ComponentKind::Lane
        } else if ends_with(kind, "_frame") {
            ComponentKind::Frame
        } else {
            ComponentKind::Card
        }
    }
}

/// What an edge means. Names outside the known set are carried as they are.
#[derive(Clone, Debug, PartialEq, Eq)]
pub enum EdgeKind {
    Flow,
    Dependency,
    Reference,
    Other(String),
}

/// What an edge means.
pub enum EdgeKindView {
    Flow,
    Dependency,
    Reference,
    Other(Seq<char>),
}

impl View for EdgeKind {
    type V = EdgeKindView;

    open spec fn view(&self) -> EdgeKindView {
        match *self {
            EdgeKind::Flow => EdgeKindView::Flow,
            EdgeKind::Dependency => EdgeKindView::Dependency,
            EdgeKind::Reference => EdgeKindView::Reference,
            EdgeKind::Other(name) => EdgeKindView::Other(name@),
        }
    }
}

/// The kind of edge that a name asks for, a reference where there is no name.
pub open spec fn edge_kind_of(name: Option<Seq<char>>) -> EdgeKindView {
    match name {
        None => EdgeKindView::Reference,
        Some(n) => if n == "flow"@ {
            EdgeKindView::Flow
        } else if n == "dependency"@ {
            EdgeKindView::Dependency
        } else if n == "reference"@ {
            EdgeKindView::Reference
        } else {
            EdgeKindView::Other(n)
        },
    }
}

impl EdgeKind {
    /// The kind of edge that a name asks for, a reference where there is no name.
    pub fn from_opt(kind: Option<String>) -> (r: Self)
        ensures
            r@ == edge_kind_of(opt_chars(kind)),
    {
        match kind {
            None => EdgeKind::Reference,
            Some(name) => if str_eq(name.as_str(), "flow") {
                EdgeKind::Flow
            } else if str_eq(name.as_str(), "dependency") {
                EdgeKind::Dependency
            } else if str_eq(name.as_str(), "reference") {
                EdgeKind::Reference
            } else {
                EdgeKind::Other(name)
            },
        }
    }
}

/// How an edge is routed.
#[derive(Clone, Copy, Debug, PartialEq, Eq, Structural)]
pub enum EdgeRoute {
    Straight,
    Orthogonal,
    Bezier,
}

impl Default for EdgeRoute {
    fn default() -> (r: Self)
        ensures
            r is Straight,
    {
        EdgeRoute::Straight
    }
}

/// A connection point on a component.
#[derive(Clone, Debug, PartialEq, Eq)]
pub struct Port {
    pub name: String,
    pub metadata: Json,
}

/// A component on the canvas.
#[derive(Clone, Debug, PartialEq, Eq)]
pub struct CanvasComponent {
    pub id: ComponentId,
    pub kind: ComponentKind,
    /// The kind or template name as it was given.
    pub template: String,
    pub rect: Rect,
    pub z_index: i32,
    pub content: Json,
    pub ports: Vec<Port>,
    pub children: Vec<ComponentId>,
    pub metadata: Json,
    pub created_by: ActorRef,
    pub updated_by: ActorRef,
    pub created_at_ms: i64,
    pub updated_at_ms: i64,
}

/// A component on the canvas.
pub struct ComponentView {
    pub id: Seq<char>,
    pub kind: ComponentKind,
    pub template: Seq<char>,
    pub rect: Rect,
    pub z_index: i32,
    pub content: JsonView,
    pub ports: Seq<(Seq<char>, JsonView)>,
    pub children: Seq<Seq<char>>,
    pub metadata: JsonView,
    pub created_by: ActorView,
    pub updated_by: ActorView,
    pub created_at_ms: i64,
    pub updated_at_ms: i64,
}

impl View for CanvasComponent {
    type V = ComponentView;

    open spec fn view(&self) -> ComponentView {
        ComponentView {
            id: self.id@,
            kind: self.kind,
            template: self.template@,
            rect: self.rect,
            z_index: self.z_index,
            content: self.content@,
            ports: Seq::new(
                self.ports@.len(),
                |i: int| (self.ports@[i].name@, self.ports@[i].metadata@),
            ),
            children: id_views(self.children@),
            metadata: self.metadata@,
            created_by: self.created_by@,
            updated_by: self.updated_by@,
            created_at_ms: self.created_at_ms,
            updated_at_ms: self.updated_at_ms,
        }
    }
}

/// An edge between two components.
#[derive(Clone, Debug, PartialEq, Eq)]
pub struct CanvasEdge {
    pub id: EdgeId,
    pub from: Endpoint,
    pub to: Endpoint,
    pub kind: EdgeKind,
    pub label: Option<String>,
    pub route: EdgeRoute,
    pub metadata: Json,
}

/// An edge between two components.
pub struct EdgeView {
    pub id: Seq<char>,
    pub from: EndpointView,
    pub to: EndpointView,
    pub kind: EdgeKindView,
    pub label: Option<Seq<char>>,
    pub route: EdgeRoute,
    pub metadata: JsonView,
}

impl View for CanvasEdge {
    type V = EdgeView;

    open spec fn view(&self) -> EdgeView {
        EdgeView {
            id: self.id@,
            from: self.from@,
            to: self.to@,
            kind: self.kind@,
            label: opt_chars(self.label),
            route: self.route,
            metadata: self.metadata@,
        }
    }
}

/// What is selected.
#[derive(Clone, Debug, PartialEq, Eq)]
pub struct SelectionState {
    pub component_ids: Vec<ComponentId>,
    pub edge_ids: Vec<EdgeId>,
}

impl Default for SelectionState {
    fn default() -> (r: Self)
        ensures
            r.component_ids@.len() == 0,
            r.edge_ids@.len() == 0,
    {
        SelectionState { component_ids: Vec::new(), edge_ids: Vec::new() }
    }
}

/// The texts of a list of edge ids.
pub open spec fn edge_id_views(ids: Seq<EdgeId>) -> Seq<Seq<char>> {
    Seq::new(ids.len(), |i: int| ids[i]@)
}

/// Where the app puts what a patch leaves open: the slot for a component without
/// a rectangle, and the rectangles of the components to be laid out, in order.
#[derive(Clone, Debug, PartialEq, Eq)]
pub struct Placement {
    pub slot: Rect,
    pub rects: Vec<Rect>,
}

/// The state of one canvas.
#[derive(Clone)]
pub struct CanvasLedger {
    pub canvas_id: CanvasId,
    pub session_id: String,
    pub revision: u64,
    pub mode: CanvasMode,
    pub viewport: Viewport,
    pub components: OrderedMap<CanvasComponent>,
    pub edges: OrderedMap<CanvasEdge>,
    pub selection: SelectionState,
    pub patch_log: Vec<SurfacePatchEnvelope>,
    pub metadata: Json,
    pub merge_state: CanvasMergeState,
    pub clock: LamportClock,
}

/// Components by id, in order.
pub type Components = Seq<(Seq<char>, ComponentView)>;

/// Edges by id, in order.
pub type Edges = Seq<(Seq<char>, EdgeView)>;

/// The state of one canvas.
#[verifier::ext_equal]
pub struct LedgerView {
    pub canvas_id: Seq<char>,
    pub session_id: Seq<char>,
    pub revision: u64,
    pub mode: CanvasMode,
    pub viewport: Viewport,
    pub components: Components,
    pub edges: Edges,
    pub selected: Seq<Seq<char>>,
    pub selected_edges: Seq<Seq<char>>,
    pub patch_log: Seq<EnvelopeView>,
    pub metadata: JsonView,
    pub merge_state: Versions,
    pub clock: u64,
}

/// The components of a map.
pub open spec fn component_views(e: Seq<(Seq<char>, CanvasComponent)>) -> Components {
    Seq::new(e.len(), |i: int| (e[i].0, e[i].1@))
}

/// The edges of a map.
pub open spec fn edge_views(e: Seq<(Seq<char>, CanvasEdge)>) -> Edges {
    Seq::new(e.len(), |i: int| (e[i].0, e[i].1@))
}

/// The envelopes of a log.
pub open spec fn envelope_views(log: Seq<SurfacePatchEnvelope>) -> Seq<EnvelopeView> {
    Seq::new(log.len(), |i: int| log[i]@)
}

impl View for CanvasLedger {
    type V = LedgerView;

    open spec fn view(&self) -> LedgerView {
        LedgerView {
            canvas_id: self.canvas_id@,
            session_id: self.session_id@,
            revision: self.revision,
            mode: self.mode,
            viewport: self.viewport,
            components: component_views(self.components.entries()),
            edges: edge_views(self.edges.entries()),
            selected: id_views(self.selection.component_ids@),
            selected_edges: edge_id_views(self.selection.edge_ids@),
            patch_log: envelope_views(self.patch_log@),
            metadata: self.metadata@,
            merge_state: self.merge_state@,
            clock: self.clock@,
        }
    }
}

/// A ledger's own rules: ids are unique and stand with what they name, and the
/// clock has seen every version.
pub open spec fn ledger_wf(v: LedgerView) -> bool {
    &&& keys_distinct(v.components)
    &&& keys_distinct(v.edges)
    &&& forall|i: int|
        0 <= i < v.components.len() ==> (#[trigger] v.components[i]).0 == v.components[i].1.id
    &&& forall|i: int| 0 <= i < v.edges.len() ==> (#[trigger] v.edges[i]).0 == v.edges[i].1.id
    &&& forall|id: Seq<char>| #[trigger]
        v.merge_state.contains_key(id) ==> v.merge_state[id].rev <= v.clock
}

/// A component after an upsert. What the patch leaves out stays as it was; a new
/// component is placed in the slot.
pub open spec fn upserted(
    existing: Option<ComponentView>,
    p: ComponentPatchView,
    actor: ActorView,
    now: i64,
    slot: Rect,
) -> ComponentView {
    match existing {
        Some(c) => ComponentView {
            kind: kind_of(p.kind),
            template: p.kind,
            rect: match p.rect {
                Some(r) => r,
                None => c.rect,
            },
            z_index: match p.z_index {
                Some(z) => z,
                None => c.z_index,
            },
            content: if p.content is Null {
                c.content
            } else {
                p.content
            },
            metadata: if p.metadata is Null {
                c.metadata
            } else {
                p.metadata
            },
            updated_by: actor,
            updated_at_ms: now,
            ..c
        },
        None => ComponentView {
            id: p.id,
            kind: kind_of(p.kind),
            template: p.kind,
            rect: match p.rect {
                Some(r) => r,
                None => slot,
            },
            z_index: match p.z_index {
                Some(z) => z,
                None => 0,
            },
            content: p.content,
            ports: Seq::empty(),
            children: Seq::empty(),
            metadata: p.metadata,
            created_by: actor,
            updated_by: actor,
            created_at_ms: now,
            updated_at_ms: now,
        },
    }
}

/// The edge that an edge patch asks for.
pub open spec fn edge_of(p: EdgePatchView) -> EdgeView {
    EdgeView {
        id: p.id,
        from: p.from,
        to: p.to,
        kind: edge_kind_of(p.kind),
        label: p.label,
        route: EdgeRoute::Straight,
        metadata: p.metadata,
    }
}

/// The components with one of them changed, where it is there.
pub open spec fn with_change(
    components: Components,
    id: Seq<char>,
    change: spec_fn(ComponentView) -> ComponentView,
) -> Components {
    if holds_key(components, id) {
        let p = place_of_key(components, id);
        components.update(p, (components[p].0, change(components[p].1)))
    } else {
        components
    }
}

/// Whether an edge has an end at a component.
pub open spec fn edge_touches(e: (Seq<char>, EdgeView), id: Seq<char>) -> bool {
    e.1.from.component_id == id || e.1.to.component_id == id
}

/// Whether an item is another than `id`.
pub open spec fn other_than(id: Seq<char>) -> spec_fn(Seq<char>) -> bool {
    |s: Seq<char>| s != id
}

/// Whether an edge stays when a component goes.
pub open spec fn edge_stays(id: Seq<char>) -> spec_fn((Seq<char>, EdgeView)) -> bool {
    |e: (Seq<char>, EdgeView)| !edge_touches(e, id)
}

/// The list with each new item appended that is not there yet.
pub open spec fn with_missing(have: Seq<Seq<char>>, add: Seq<Seq<char>>) -> Seq<Seq<char>>
    decreases add.len(),
{
    if add.len() == 0 {
        have
    } else {
        let before = with_missing(have, add.drop_last());
        if before.contains(add.last()) {
            before
        } else {
            before.push(add.last())
        }
    }
}

/// The ids that a layout target names.
pub open spec fn layout_scope(components: Components, target: LayoutTargetView) -> Seq<Seq<char>> {
    match target {
        LayoutTargetView::Canvas => Seq::new(components.len(), |i: int| components[i].0),
        LayoutTargetView::Component(id) => match value_of(components, id) {
            Some(c) => c.children,
            None => Seq::empty(),
        },
        LayoutTargetView::Components(ids) => ids,
    }
}

/// The components that a layout target names and that are there, in order.
pub open spec fn layout_ids(components: Components, target: LayoutTargetView) -> Seq<Seq<char>> {
    layout_scope(components, target).filter(|id: Seq<char>| holds_key(components, id))
}

/// The components after the first `n` of `ids` took their rectangles.
pub open spec fn laid_out(
    components: Components,
    ids: Seq<Seq<char>>,
    rects: Seq<Rect>,
    now: i64,
    n: int,
) -> Components
    decreases n,
{
    if n <= 0 {
        components
    } else {
        with_change(
            laid_out(components, ids, rects, now, n - 1),
            ids[n - 1],
            |c: ComponentView| ComponentView { rect: rects[n - 1], updated_at_ms: now, ..c },
        )
    }
}

/// How many components a layout reaches.
pub open spec fn layout_reach(ids: Seq<Seq<char>>, rects: Seq<Rect>) -> int {
    if ids.len() <= rects.len() {
        ids.len() as int
    } else {
        rects.len() as int
    }
}

/// The canvas after a patch, log and versions aside.
pub open spec fn changed(
    v: LedgerView,
    patch: PatchView,
    actor: ActorView,
    now: i64,
    slot: Rect,
    rects: Seq<Rect>,
) -> LedgerView {
    match patch {
        PatchView::Upsert(p) => LedgerView {
            components: with_entry(
                v.components,
                p.id,
                upserted(value_of(v.components, p.id), p, actor, now, slot),
            ),
            ..v
        },
        PatchView::Move(id, x, y) => LedgerView {
            components: with_change(
                v.components,
                id,
                |c: ComponentView|
                    ComponentView {
                        rect: Rect { x, y, ..c.rect },
                        updated_by: actor,
                        updated_at_ms: now,
                        ..c
                    },
            ),
            ..v
        },
        PatchView::Resize(id, w, h) => LedgerView {
            components: with_change(
                v.components,
                id,
                |c: ComponentView|
                    ComponentView {
                        rect: Rect { w, h, ..c.rect },
                        updated_by: actor,
                        updated_at_ms: now,
                        ..c
                    },
            ),
            ..v
        },
        PatchView::Delete(id) => if holds_key(v.components, id) {
            LedgerView {
                components: without_entry(v.components, id),
                edges: v.edges.filter(edge_stays(id)),
                selected: v.selected.filter(other_than(id)),
                ..v
            }
        } else {
            v
        },
        PatchView::Connect(p) => LedgerView {
            edges: with_entry(v.edges, p.id, edge_of(p)),
            ..v
        },
        PatchView::Disconnect(id) => LedgerView {
            edges: without_entry(v.edges, id),
            selected_edges: v.selected_edges.filter(other_than(id)),
            ..v
        },
        PatchView::Focus(FocusView::Component(id)) => LedgerView { selected: seq![id], ..v },
        PatchView::Focus(FocusView::Edge(id)) => LedgerView { selected_edges: seq![id], ..v },
        PatchView::Focus(FocusView::Canvas) => LedgerView {
            selected: Seq::empty(),
            selected_edges: Seq::empty(),
            ..v
        },
        PatchView::Select(ids) => LedgerView { selected: ids, ..v },
        PatchView::SetViewport(viewport) => LedgerView { viewport, ..v },
        PatchView::Layout(target, _) => {
            let ids = layout_ids(v.components, target);
            LedgerView {
                components: laid_out(v.components, ids, rects, now, layout_reach(ids, rects)),
                ..v
            }
        },
        PatchView::Group(frame, children) => LedgerView {
            components: with_change(
                v.components,
                frame,
                |c: ComponentView|
                    ComponentView {
                        children: with_missing(c.children, children),
                        updated_at_ms: now,
                        ..c
                    },
            ),
            ..v
        },
    }
}

/// The components that a patch touches.
pub open spec fn touched_by(v: LedgerView, patch: PatchView, rects: Seq<Rect>) -> Seq<Seq<char>> {
    match patch {
        PatchView::Upsert(p) => seq![p.id],
        PatchView::Move(id, _, _) => if holds_key(v.components, id) {
            seq![id]
        } else {
            Seq::empty()
        },
        PatchView::Resize(id, _, _) => if holds_key(v.components, id) {
            seq![id]
        } else {
            Seq::empty()
        },
        PatchView::Delete(id) => if holds_key(v.components, id) {
            seq![id]
        } else {
            Seq::empty()
        },
        PatchView::Connect(p) => seq![p.from.component_id, p.to.component_id],
        PatchView::Disconnect(_) => Seq::empty(),
        PatchView::Focus(FocusView::Component(id)) => seq![id],
        PatchView::Focus(_) => Seq::empty(),
        PatchView::Select(ids) => ids,
        PatchView::SetViewport(_) => Seq::empty(),
        PatchView::Layout(target, _) => {
            let ids = layout_ids(v.components, target);
            ids.take(layout_reach(ids, rects))
        },
        PatchView::Group(frame, children) => seq![frame] + children,
    }
}

/// The id of the patch that brings a canvas to a revision.
pub open spec fn patch_id_of(canvas_id: Seq<char>, revision: nat) -> Seq<char> {
    canvas_id.push('@') + decimal(revision)
}

/// The version that a ledger gives to a write of its own: one past its clock.
pub open spec fn stamp_of(v: LedgerView, patch: PatchView, actor: ActorView) -> Option<VersionView> {
    if patch.target() is Some {
        Some(VersionView { rev: (v.clock + 1) as u64, actor: actor_id_of(actor) })
    } else {
        None
    }
}

/// The ledger after an envelope is logged and its version noted.
pub open spec fn recorded(v: LedgerView, env: EnvelopeView) -> LedgerView {
    LedgerView {
        revision: (v.revision + 1) as u64,
        patch_log: v.patch_log.push(env),
        merge_state: match (env.patch.target(), env.version) {
            (Some(id), Some(version)) => merged(v.merge_state, id, version),
            _ => v.merge_state,
        },
        clock: match (env.patch.target(), env.version) {
            (Some(_), Some(version)) => if v.clock >= version.rev {
                v.clock
            } else {
                version.rev
            },
            _ => v.clock,
        },
        ..v
    }
}

/// The envelope of a patch made here.
pub open spec fn local_envelope(
    v: LedgerView,
    patch: PatchView,
    actor: ActorView,
    now: i64,
) -> EnvelopeView {
    EnvelopeView {
        patch_id: patch_id_of(v.canvas_id, (v.revision + 1) as nat),
        session_id: v.session_id,
        surface_id: "gpui:local"@,
        canvas_id: v.canvas_id,
        actor,
        created_at_ms: now,
        patch,
        version: stamp_of(v, patch, actor),
    }
}

/// The ledger after a patch made here.
pub open spec fn locally_applied(
    v: LedgerView,
    patch: PatchView,
    actor: ActorView,
    now: i64,
    slot: Rect,
    rects: Seq<Rect>,
) -> LedgerView {
    recorded(
        changed(v, patch, actor, now, slot, rects),
        local_envelope(v, patch, actor, now),
    )
}

/// Whether a version from elsewhere loses to the one that is here.
pub open spec fn loses(v: LedgerView, env: EnvelopeView) -> bool {
    match (env.patch.target(), env.version) {
        (Some(id), Some(version)) => v.merge_state.contains_key(id) && !version_less(
            v.merge_state[id],
            version,
        ),
        _ => false,
    }
}

/// The ledger after an envelope from elsewhere or from the log. One without a
/// version is given one here; one that loses only moves the clock.
pub open spec fn remotely_applied(
    v: LedgerView,
    env: EnvelopeView,
    slot: Rect,
    rects: Seq<Rect>,
) -> LedgerView {
    let stamped = EnvelopeView {
        version: if env.version is None {
            stamp_of(v, env.patch, env.actor)
        } else {
            env.version
        },
        ..env
    };
    if loses(v, stamped) {
        LedgerView {
            clock: if v.clock >= stamped.version->0.rev {
                v.clock
            } else {
                stamped.version->0.rev
            },
            ..v
        }
    } else {
        recorded(changed(v, env.patch, env.actor, env.created_at_ms, slot, rects), stamped)
    }
}

proof fn lemma_component_views(e: Seq<(Seq<char>, CanvasComponent)>, key: Seq<char>)
    ensures
        holds_key(component_views(e), key) == holds_key(e, key),
        place_of_key(component_views(e), key) == place_of_key(e, key),
        value_of(component_views(e), key) == (match value_of(e, key) {
            Some(c) => Some(c@),
            None => None,
        }),
{
    lemma_same_keys(e, component_views(e), key);
    lemma_place_of_key(e, key);
}

proof fn lemma_edge_views(e: Seq<(Seq<char>, CanvasEdge)>, key: Seq<char>)
    ensures
        holds_key(edge_views(e), key) == holds_key(e, key),
        place_of_key(edge_views(e), key) == place_of_key(e, key),
        value_of(edge_views(e), key) == (match value_of(e, key) {
            Some(c) => Some(c@),
            None => None,
        }),
{
    lemma_same_keys(e, edge_views(e), key);
    lemma_place_of_key(e, key);
}

proof fn lemma_with_change_keys(
    components: Components,
    id: Seq<char>,
    change: spec_fn(ComponentView) -> ComponentView,
)
    ensures
        with_change(components, id, change).len() == components.len(),
        forall|i: int|
            0 <= i < components.len() ==> (#[trigger] with_change(components, id, change)[i]).0
                == components[i].0,
{
    lemma_place_of_key(components, id);
}

spec fn ids_match(components: Components) -> bool {
    forall|i: int| 0 <= i < components.len() ==> (#[trigger] components[i]).0 == components[i].1.id
}

proof fn lemma_with_change_wf(
    components: Components,
    id: Seq<char>,
    change: spec_fn(ComponentView) -> ComponentView,
)
    requires
        keys_distinct(components),
        ids_match(components),
        forall|c: ComponentView| (#[trigger] change(c)).id == c.id,
    ensures
        keys_distinct(with_change(components, id, change)),
        ids_match(with_change(components, id, change)),
{
    lemma_with_change_keys(components, id, change);
    lemma_place_of_key(components, id);
    let after = with_change(components, id, change);
    assert forall|i: int, j: int|
        #![trigger after[i], after[j]]
        0 <= i < j < after.len() implies after[i].0 != after[j].0 by {
        assert(components[i].0 != components[j].0);
    }
    assert forall|i: int| 0 <= i < after.len() implies (#[trigger] after[i]).0 == after[i].1.id by {
        assert(components[i].0 == components[i].1.id);
    }
}

proof fn lemma_laid_out_wf(
    components: Components,
    ids: Seq<Seq<char>>,
    rects: Seq<Rect>,
    now: i64,
    n: int,
)
    requires
        keys_distinct(components),
        ids_match(components),
    ensures
        keys_distinct(laid_out(components, ids, rects, now, n)),
        ids_match(laid_out(components, ids, rects, now, n)),
        laid_out(components, ids, rects, now, n).len() == components.len(),
        forall|i: int|
            0 <= i < components.len() ==> (#[trigger] laid_out(
                components,
                ids,
                rects,
                now,
                n,
            )[i]).0 == components[i].0,
    decreases n,
{
    if n > 0 {
        lemma_laid_out_wf(components, ids, rects, now, n - 1);
        let change = |c: ComponentView|
            ComponentView { rect: rects[n - 1], updated_at_ms: now, ..c };
        lemma_with_change_wf(
            laid_out(components, ids, rects, now, n - 1),
            ids[n - 1],
            change,
        );
        lemma_with_change_keys(
            laid_out(components, ids, rects, now, n - 1),
            ids[n - 1],
            change,
        );
    }
}

/// A patch keeps ids unique and with what they name.
pub proof fn lemma_changed_wf(
    v: LedgerView,
    patch: PatchView,
    actor: ActorView,
    now: i64,
    slot: Rect,
    rects: Seq<Rect>,
)
    requires
        ledger_wf(v),
    ensures
        ledger_wf(changed(v, patch, actor, now, slot, rects)),
{
    let after = changed(v, patch, actor, now, slot, rects);
    assert(ids_match(v.components));
    match patch {
        PatchView::Upsert(p) => {
            lemma_place_of_key(v.components, p.id);
            let c = after.components;
            let n = v.components.len();
            assert forall|i: int, j: int|
                #![trigger c[i], c[j]]
                0 <= i < j < c.len() implies c[i].0 != c[j].0 by {
                assert(v.components[i].0 == c[i].0);
                if j < n {
                    assert(v.components[j].0 == c[j].0);
                }
            }
            assert forall|i: int| 0 <= i < c.len() implies (#[trigger] c[i]).0 == c[i].1.id by {
                if i < n {
                    assert(v.components[i].0 == v.components[i].1.id);
                }
            }
        },
        PatchView::Move(id, x, y) => {
            lemma_with_change_wf(
                v.components,
                id,
                |c: ComponentView|
                    ComponentView {
                        rect: Rect { x, y, ..c.rect },
                        updated_by: actor,
                        updated_at_ms: now,
                        ..c
                    },
            );
        },
        PatchView::Resize(id, w, h) => {
            lemma_with_change_wf(
                v.components,
                id,
                |c: ComponentView|
                    ComponentView {
                        rect: Rect { w, h, ..c.rect },
                        updated_by: actor,
                        updated_at_ms: now,
                        ..c
                    },
            );
        },
        PatchView::Delete(id) => {
            lemma_place_of_key(v.components, id);
            let at = place_of_key(v.components, id);
            if holds_key(v.components, id) {
                let c = after.components;
                assert forall|i: int, j: int|
                    #![trigger c[i], c[j]]
                    0 <= i < j < c.len() implies c[i].0 != c[j].0 by {
                    let a = if i < at {
                        i
                    } else {
                        i + 1
                    };
                    let b = if j < at {
                        j
                    } else {
                        j + 1
                    };
                    assert(c[i] == v.components[a] && c[j] == v.components[b]);
                }
                assert forall|i: int| 0 <= i < c.len() implies (#[trigger] c[i]).0
                    == c[i].1.id by {
                    let a = if i < at {
                        i
                    } else {
                        i + 1
                    };
                    assert(c[i] == v.components[a]);
                }
                let keep = edge_stays(id);
                lemma_filter_distinct(v.edges, keep);
                assert forall|i: int| 0 <= i < after.edges.len() implies (
                #[trigger] after.edges[i]).0 == after.edges[i].1.id by {
                    lemma_filter_from(v.edges, keep, i);
                    let k = choose|k: int|
                        0 <= k < v.edges.len() && v.edges[k] == after.edges[i];
                    assert(v.edges[k].0 == v.edges[k].1.id);
                }
            }
        },
        PatchView::Connect(p) => {
            lemma_place_of_key(v.edges, p.id);
            let c = after.edges;
            let n = v.edges.len();
            assert forall|i: int, j: int|
                #![trigger c[i], c[j]]
                0 <= i < j < c.len() implies c[i].0 != c[j].0 by {
                assert(v.edges[i].0 == c[i].0);
                if j < n {
                    assert(v.edges[j].0 == c[j].0);
                }
            }
            assert forall|i: int| 0 <= i < c.len() implies (#[trigger] c[i]).0 == c[i].1.id by {
                if i < n {
                    assert(v.edges[i].0 == v.edges[i].1.id);
                }
            }
        },
        PatchView::Disconnect(id) => {
            lemma_place_of_key(v.edges, id);
            let at = place_of_key(v.edges, id);
            if holds_key(v.edges, id) {
                let c = after.edges;
                assert forall|i: int, j: int|
                    #![trigger c[i], c[j]]
                    0 <= i < j < c.len() implies c[i].0 != c[j].0 by {
                    let a = if i < at {
                        i
                    } else {
                        i + 1
                    };
                    let b = if j < at {
                        j
                    } else {
                        j + 1
                    };
                    assert(c[i] == v.edges[a] && c[j] == v.edges[b]);
                }
                assert forall|i: int| 0 <= i < c.len() implies (#[trigger] c[i]).0
                    == c[i].1.id by {
                    let a = if i < at {
                        i
                    } else {
                        i + 1
                    };
                    assert(c[i] == v.edges[a]);
                }
            }
        },
        PatchView::Layout(target, _) => {
            let ids = layout_ids(v.components, target);
            lemma_laid_out_wf(v.components, ids, rects, now, layout_reach(ids, rects));
        },
        PatchView::Group(frame, children) => {
            lemma_with_change_wf(
                v.components,
                frame,
                |c: ComponentView|
                    ComponentView {
                        children: with_missing(c.children, children),
                        updated_at_ms: now,
                        ..c
                    },
            );
        },
        _ => {},
    }
}

/// Logging an envelope keeps the clock past every version.
pub proof fn lemma_recorded_wf(v: LedgerView, env: EnvelopeView)
    requires
        ledger_wf(v),
    ensures
        ledger_wf(recorded(v, env)),
{
    let after = recorded(v, env);
    assert forall|id: Seq<char>| #[trigger]
        after.merge_state.contains_key(id) implies after.merge_state[id].rev <= after.clock by {
        if v.merge_state.contains_key(id) {
            assert(v.merge_state[id].rev <= v.clock);
        }
    }
}

fn without_id(ids: &Vec<ComponentId>, id: &ComponentId) -> (r: Vec<ComponentId>)
    ensures
        id_views(r@) == id_views(ids@).filter(other_than(id@)),
{
    let ghost keep = other_than(id@);
    let ghost all = id_views(ids@);
    let mut r: Vec<ComponentId> = Vec::new();
    let mut i: usize = 0;
    assert(all.take(0).filter(keep) =~= Seq::empty()) by {
        reveal(Seq::filter);
    }
    assert(id_views(r@) =~= Seq::empty());
    while i < ids.len()
        invariant
            i <= ids@.len(),
            all == id_views(ids@),
            keep == other_than(id@),
            id_views(r@) == all.take(i as int).filter(keep),
        decreases ids@.len() - i,
    {
        proof {
            lemma_filter_step(all, i as int, keep);
        }
        if !str_eq(ids[i].as_str(), id.as_str()) {
            let ghost before = r@;
            r.push(ids[i].clone());
            assert(id_views(r@) =~= id_views(before).push(all[i as int]));
        }
        i = i + 1;
    }
    assert(all.take(all.len() as int) =~= all);
    r
}

fn without_edge_id(ids: &Vec<EdgeId>, id: &EdgeId) -> (r: Vec<EdgeId>)
    ensures
        edge_id_views(r@) == edge_id_views(ids@).filter(other_than(id@)),
{
    let ghost keep = other_than(id@);
    let ghost all = edge_id_views(ids@);
    let mut r: Vec<EdgeId> = Vec::new();
    let mut i: usize = 0;
    assert(all.take(0).filter(keep) =~= Seq::empty()) by {
        reveal(Seq::filter);
    }
    assert(edge_id_views(r@) =~= Seq::empty());
    while i < ids.len()
        invariant
            i <= ids@.len(),
            all == edge_id_views(ids@),
            keep == other_than(id@),
            edge_id_views(r@) == all.take(i as int).filter(keep),
        decreases ids@.len() - i,
    {
        proof {
            lemma_filter_step(all, i as int, keep);
        }
        if !str_eq(ids[i].as_str(), id.as_str()) {
            let ghost before = r@;
            r.push(ids[i].clone());
            assert(edge_id_views(r@) =~= edge_id_views(before).push(all[i as int]));
        }
        i = i + 1;
    }
    assert(all.take(all.len() as int) =~= all);
    r
}

fn one_id(id: &ComponentId) -> (r: Vec<ComponentId>)
    ensures
        id_views(r@) == seq![id@],
        r@.len() == 1,
        r@[0]@ == id@,
{
    let mut r: Vec<ComponentId> = Vec::new();
    r.push(id.clone());
    assert(id_views(r@) =~= seq![id@]);
    r
}

fn no_ids() -> (r: Vec<ComponentId>)
    ensures
        id_views(r@) == Seq::<Seq<char>>::empty(),
{
    let r: Vec<ComponentId> = Vec::new();
    assert(id_views(r@) =~= Seq::empty());
    r
}

/// The members `grid_size: 24` that every ledger starts with.
pub open spec fn first_metadata() -> JsonView {
    JsonView::Object(seq![("grid_size"@, JsonView::Number("24"@, Some(24)))])
}

/// A canvas on which nothing has happened.
pub open spec fn fresh_ledger(
    canvas_id: Seq<char>,
    session_id: Seq<char>,
    mode: CanvasMode,
) -> LedgerView {
    LedgerView {
        canvas_id,
        session_id,
        revision: 0,
        mode,
        viewport: origin_viewport(),
        components: Seq::empty(),
        edges: Seq::empty(),
        selected: Seq::empty(),
        selected_edges: Seq::empty(),
        patch_log: Seq::empty(),
        metadata: first_metadata(),
        merge_state: Map::empty(),
        clock: 0,
    }
}

impl CanvasLedger {
    /// A well-formed ledger.
    pub open spec fn wf(self) -> bool {
        &&& self.components.wf()
        &&& self.edges.wf()
        &&& self.merge_state.wf()
        &&& ledger_wf(self@)
    }

    /// An empty ledger for a canvas within a session.
    pub fn new(canvas_id: &str, session_id: &str, mode: CanvasMode) -> (ledger: Self)
        ensures
            ledger.wf(),
            ledger@ == fresh_ledger(canvas_id@, session_id@, mode),
    {
        let mut members: Vec<(String, Json)> = Vec::new();
        members.push(
            (
                copy_str("grid_size"),
                Json::Number(JsonNumber { text: copy_str("24"), unsigned: Some(24) }),
            ),
        );
        let metadata = Json::Object(members);
        assert(metadata@->Object_0 =~= first_metadata()->Object_0) by {
            reveal_with_fuel(json_view, 2);
        }
        let ledger = CanvasLedger {
            canvas_id: CanvasId::new(canvas_id),
            session_id: copy_str(session_id),
            revision: 0,
            mode,
            viewport: Viewport::default(),
            components: OrderedMap::new(),
            edges: OrderedMap::new(),
            selection: SelectionState::default(),
            patch_log: Vec::new(),
            metadata,
            merge_state: CanvasMergeState::new(),
            clock: LamportClock::new(),
        };
        assert(ledger@.components =~= Seq::empty());
        assert(ledger@.edges =~= Seq::empty());
        assert(ledger@.selected =~= Seq::empty());
        assert(ledger@.selected_edges =~= Seq::empty());
        assert(ledger@.patch_log =~= Seq::empty());
        ledger
    }

    /// Applies a patch made here: changes the canvas, moves to the next revision and
    /// logs the patch under that revision's id. A patch that contends for a component
    /// gets a version past everything seen so far, so it always lands. Gives the
    /// components it touched.
    pub fn apply_patch(
        &mut self,
        patch: SurfacePatch,
        actor: ActorRef,
        created_at_ms: i64,
        placement: &Placement,
    ) -> (touched: Vec<ComponentId>)
        requires
            old(self).wf(),
            old(self).revision < u64::MAX,
            old(self)@.clock < u64::MAX,
        ensures
            final(self).wf(),
            final(self)@ == locally_applied(
                old(self)@,
                patch@,
                actor@,
                created_at_ms,
                placement.slot,
                placement.rects@,
            ),
            id_views(touched@) == touched_by(old(self)@, patch@, placement.rects@),
    {
        let ghost v = self@;
        let touched = self.apply_inner(&patch, &actor, created_at_ms, placement);
        let version = self.stamp(&patch, &actor);
        self.revision = self.revision + 1;
        let mut patch_id = self.canvas_id.as_str().to_owned();
        patch_id.push('@');
        patch_id.push_str(decimal_text(self.revision).as_str());
        let env = SurfacePatchEnvelope {
            patch_id: PatchId(patch_id),
            session_id: self.session_id.clone(),
            surface_id: SurfaceId::new("gpui:local"),
            canvas_id: self.canvas_id.clone(),
            actor,
            created_at_ms,
            patch,
            version,
        };
        let ghost log = self.patch_log@;
        let ghost e = env@;
        self.patch_log.push(env);
        proof {
            assert(envelope_views(self.patch_log@) =~= envelope_views(log).push(e));
            assert(e == local_envelope(v, e.patch, e.actor, created_at_ms));
            let mid = changed(
                v,
                e.patch,
                e.actor,
                created_at_ms,
                placement.slot,
                placement.rects@,
            );
            lemma_changed_wf(
                v,
                e.patch,
                e.actor,
                created_at_ms,
                placement.slot,
                placement.rects@,
            );
            lemma_recorded_wf(mid, e);
            assert(self@ =~= recorded(mid, e));
        }
        touched
    }

    /// Applies an envelope from elsewhere or from the log. A patch that contends for a
    /// component lands only where its version wins over the one that is here; where it
    /// carries none it is given one past everything seen so far.
    pub fn apply_remote_patch(
        &mut self,
        env: SurfacePatchEnvelope,
        placement: &Placement,
    ) -> (touched: Vec<ComponentId>)
        requires
            old(self).wf(),
            old(self).revision < u64::MAX,
            old(self)@.clock < u64::MAX,
        ensures
            final(self).wf(),
            final(self)@ == remotely_applied(
                old(self)@,
                env@,
                placement.slot,
                placement.rects@,
            ),
            id_views(touched@) == if loses(old(self)@, env@) {
                Seq::<Seq<char>>::empty()
            } else {
                touched_by(old(self)@, env@.patch, placement.rects@)
            },
    {
        let ghost v = self@;
        let ghost e = env@;
        if let (Some(id), Some(version)) = (env.patch.target_component(), &env.version) {
            let loses_here = match self.merge_state.version(id) {
                Some(stored) => !version.supersedes(stored),
                None => false,
            };
            if loses_here {
                self.clock.observe(version.rev);
                proof {
                    assert forall|id: Seq<char>| #[trigger]
                        self@.merge_state.contains_key(id) implies self@.merge_state[id].rev
                        <= self@.clock by {
                        assert(v.merge_state[id].rev <= v.clock);
                    }
                    assert(self@ =~= remotely_applied(v, e, placement.slot, placement.rects@));
                }
                return no_ids();
            }
        }
        let touched = self.apply_inner(&env.patch, &env.actor, env.created_at_ms, placement);
        let mut env = env;
        let ghost mid = self@;
        if env.version.is_none() {
            env.version = self.stamp(&env.patch, &env.actor);
        } else if let (Some(id), Some(version)) = (env.patch.target_component(), &env.version) {
            self.clock.observe(version.rev);
            self.merge_state.merge(id, version.clone());
        }
        self.revision = self.revision + 1;
        let ghost stamped = env@;
        let ghost log = self.patch_log@;
        self.patch_log.push(env);
        proof {
            assert(envelope_views(self.patch_log@) =~= envelope_views(log).push(stamped));
            lemma_changed_wf(
                v,
                e.patch,
                e.actor,
                e.created_at_ms,
                placement.slot,
                placement.rects@,
            );
            lemma_recorded_wf(mid, stamped);
            assert(stamped == EnvelopeView {
                version: if e.version is None {
                    stamp_of(v, e.patch, e.actor)
                } else {
                    e.version
                },
                ..e
            });
            assert(!loses(v, stamped));
            assert(self@ =~= recorded(mid, stamped));
        }
        touched
    }

    fn stamp(&mut self, patch: &SurfacePatch, actor: &ActorRef) -> (r: Option<ComponentVersion>)
        requires
            old(self).components.wf(),
            old(self).edges.wf(),
            old(self).merge_state.wf(),
            old(self)@.clock < u64::MAX,
            forall|id: Seq<char>| #[trigger]
                old(self)@.merge_state.contains_key(id) ==> old(self)@.merge_state[id].rev <= old(
                    self,
                )@.clock,
        ensures
            final(self).components.wf(),
            final(self).edges.wf(),
            final(self).merge_state.wf(),
            match stamp_of(old(self)@, patch@, actor@) {
                Some(v) => {
                    &&& r matches Some(version) && version@ == v
                    &&& final(self)@ == (LedgerView {
                        merge_state: merged(old(self)@.merge_state, patch@.target()->0, v),
                        clock: v.rev,
                        ..old(self)@
                    })
                    &&& final(self)@.merge_state.contains_pair(patch@.target()->0, v)
                },
                None => r is None && final(self)@ == old(self)@,
            },
    {
        match patch.target_component() {
            Some(id) => {
                let rev: u64 = self.clock.tick();
                let version = ComponentVersion::new(rev, ActorId::from_actor(actor));
                self.merge_state.merge(id, version.clone());
                Some(version)
            },
            None => None,
        }
    }

    fn apply_inner(
        &mut self,
        patch: &SurfacePatch,
        actor: &ActorRef,
        now: i64,
        placement: &Placement,
    ) -> (touched: Vec<ComponentId>)
        requires
            old(self).wf(),
        ensures
            final(self).components.wf(),
            final(self).edges.wf(),
            final(self).merge_state.wf(),
            final(self)@ == changed(
                old(self)@,
                patch@,
                actor@,
                now,
                placement.slot,
                placement.rects@,
            ),
            id_views(touched@) == touched_by(old(self)@, patch@, placement.rects@),
    {
        match patch {
            SurfacePatch::UpsertComponent { component } => {
                let id = component.id.clone();
                self.upsert_component(component.clone(), actor.clone(), now, placement.slot);
                one_id(&id)
            },
            SurfacePatch::MoveComponent { component_id, x, y } => {
                proof {
                    lemma_component_views(self.components.entries(), component_id@);
                }
                match self.components.position(component_id.as_str()) {
                    Some(i) => {
                        let ghost before = self.components.entries();
                        let c = self.components.value_at_mut(i);
                        c.rect = Rect { x: *x, y: *y, w: c.rect.w, h: c.rect.h };
                        c.updated_by = actor.clone();
                        c.updated_at_ms = now;
                        assert(self@ =~= changed(
                            old(self)@,
                            patch@,
                            actor@,
                            now,
                            placement.slot,
                            placement.rects@,
                        ));
                        one_id(component_id)
                    },
                    None => no_ids(),
                }
            },
            SurfacePatch::ResizeComponent { component_id, width, height } => {
                proof {
                    lemma_component_views(self.components.entries(), component_id@);
                }
                match self.components.position(component_id.as_str()) {
                    Some(i) => {
                        let c = self.components.value_at_mut(i);
                        c.rect = Rect { x: c.rect.x, y: c.rect.y, w: *width, h: *height };
                        c.updated_by = actor.clone();
                        c.updated_at_ms = now;
                        assert(self@ =~= changed(
                            old(self)@,
                            patch@,
                            actor@,
                            now,
                            placement.slot,
                            placement.rects@,
                        ));
                        one_id(component_id)
                    },
                    None => no_ids(),
                }
            },
            SurfacePatch::DeleteComponent { component_id } => {
                proof {
                    lemma_component_views(self.components.entries(), component_id@);
                }
                let ghost before = self.components.entries();
                match self.components.shift_remove(component_id.as_str()) {
                    Some(_) => {
                        proof {
                            lemma_place_of_key(before, component_id@);
                            assert(component_views(self.components.entries())
                                =~= without_entry(component_views(before), component_id@));
                        }
                        self.drop_edges_of(component_id);
                        self.selection.component_ids = without_id(
                            &self.selection.component_ids,
                            component_id,
                        );
                        assert(self@ =~= changed(
                            old(self)@,
                            patch@,
                            actor@,
                            now,
                            placement.slot,
                            placement.rects@,
                        ));
                        one_id(component_id)
                    },
                    None => no_ids(),
                }
            },
            SurfacePatch::Connect { edge } => {
                self.connect(edge.clone());
                let mut touched = one_id(&edge.from.component_id);
                touched.push(edge.to.component_id.clone());
                assert(touched@[0]@ == edge.from.component_id@);
                assert(touched@[1]@ == edge.to.component_id@);
                assert(id_views(touched@) =~= seq![
                    edge.from.component_id@,
                    edge.to.component_id@,
                ]);
                touched
            },
            SurfacePatch::Disconnect { edge_id } => {
                let ghost before = self.edges.entries();
                proof {
                    lemma_edge_views(before, edge_id@);
                    lemma_place_of_key(before, edge_id@);
                }
                self.edges.shift_remove(edge_id.as_str());
                assert(edge_views(self.edges.entries()) =~= without_entry(
                    edge_views(before),
                    edge_id@,
                ));
                self.selection.edge_ids = without_edge_id(&self.selection.edge_ids, edge_id);
                assert(self@ =~= changed(
                    old(self)@,
                    patch@,
                    actor@,
                    now,
                    placement.slot,
                    placement.rects@,
                ));
                no_ids()
            },
            SurfacePatch::Focus { target } => {
                self.apply_focus(target);
                self.focus_touched(target)
            },
            SurfacePatch::Select { ids } => {
                self.selection.component_ids = copy_ids(ids);
                copy_ids(ids)
            },
            SurfacePatch::SetViewport { viewport } => {
                self.viewport = *viewport;
                no_ids()
            },
            SurfacePatch::Layout { target, strategy } => {
                self.apply_layout(target, &placement.rects, now)
            },
            SurfacePatch::Group { frame_id, children } => {
                self.apply_group(frame_id, children, now);
                let mut touched = one_id(frame_id);
                let mut rest = copy_ids(children);
                let ghost tail = rest@;
                let ghost head = touched@;
                touched.append(&mut rest);
                assert(id_views(touched@) =~= seq![frame_id@] + id_views(children@)) by {
                    assert(touched@ =~= head + tail);
                    assert forall|i: int| 0 <= i < touched@.len() implies id_views(touched@)[i] == (
                    seq![frame_id@] + id_views(children@))[i] by {
                        if i > 0 {
                            assert(id_views(tail)[i - 1] == id_views(children@)[i - 1]);
                        }
                    }
                }
                touched
            },
        }
    }

    fn upsert_component(
        &mut self,
        patch: CanvasComponentPatch,
        actor: ActorRef,
        now: i64,
        slot: Rect,
    )
        requires
            old(self).wf(),
        ensures
            final(self).components.wf(),
            final(self).edges.wf(),
            final(self).merge_state.wf(),
            final(self)@ == changed(
                old(self)@,
                PatchView::Upsert(patch@),
                actor@,
                now,
                slot,
                Seq::empty(),
            ),
    {
        let ghost p = patch@;
        let ghost a = actor@;
        let ghost before = self.components.entries();
        proof {
            lemma_component_views(before, p.id);
            lemma_place_of_key(before, p.id);
        }
        let kind = ComponentKind::from_patch_kind(patch.kind.as_str());
        match self.components.position(patch.id.as_str()) {
            Some(i) => {
                proof {
                    assert(component_views(before)[i as int].0 == component_views(before)[i as int].1.id);
                }
                let existing = self.components.value_at_mut(i);
                existing.kind = kind;
                existing.template = patch.kind;
                if let Some(rect) = patch.rect {
                    existing.rect = rect;
                }
                if let Some(z) = patch.z_index {
                    existing.z_index = z;
                }
                if !patch.content.is_null() {
                    existing.content = patch.content;
                }
                if !patch.metadata.is_null() {
                    existing.metadata = patch.metadata;
                }
                existing.updated_by = actor;
                existing.updated_at_ms = now;
            },
            None => {
                let rect = match patch.rect {
                    Some(r) => r,
                    None => slot,
                };
                let z_index: i32 = match patch.z_index {
                    Some(z) => z,
                    None => 0,
                };
                let key = patch.id.as_str().to_owned();
                let component = CanvasComponent {
                    id: patch.id,
                    kind,
                    template: patch.kind,
                    rect,
                    z_index,
                    content: patch.content,
                    ports: Vec::new(),
                    children: Vec::new(),
                    metadata: patch.metadata,
                    created_by: actor.clone(),
                    updated_by: actor,
                    created_at_ms: now,
                    updated_at_ms: now,
                };
                proof {
                    assert(component@.ports =~= Seq::empty());
                    assert(component@.children =~= Seq::empty());
                }
                self.components.insert(key, component);
            },
        }
        assert(self@.components =~= with_entry(
            component_views(before),
            p.id,
            upserted(value_of(component_views(before), p.id), p, a, now, slot),
        ));
    }

    fn connect(&mut self, patch: CanvasEdgePatch)
        requires
            old(self).wf(),
        ensures
            final(self).components.wf(),
            final(self).edges.wf(),
            final(self).merge_state.wf(),
            final(self)@ == (LedgerView {
                edges: with_entry(old(self)@.edges, patch@.id, edge_of(patch@)),
                ..old(self)@
            }),
    {
        let ghost p = patch@;
        let ghost before = self.edges.entries();
        proof {
            lemma_edge_views(before, p.id);
            lemma_place_of_key(before, p.id);
        }
        let key = patch.id.as_str().to_owned();
        let edge = CanvasEdge {
            id: patch.id,
            from: patch.from,
            to: patch.to,
            kind: EdgeKind::from_opt(patch.kind),
            label: patch.label,
            route: EdgeRoute::default(),
            metadata: patch.metadata,
        };
        self.edges.insert(key, edge);
        assert(self@.edges =~= with_entry(edge_views(before), p.id, edge_of(p)));
    }

    fn drop_edges_of(&mut self, id: &ComponentId)
        requires
            old(self).components.wf(),
            old(self).edges.wf(),
            old(self).merge_state.wf(),
        ensures
            final(self).components.wf(),
            final(self).edges.wf(),
            final(self).merge_state.wf(),
            final(self)@ == (LedgerView {
                edges: old(self)@.edges.filter(edge_stays(id@)),
                ..old(self)@
            }),
    {
        let ghost keep = edge_stays(id@);
        let ghost all = self.edges.entries();
        let ghost views = edge_views(all);
        let ghost mut seen: int = 0;
        let mut i: usize = 0;
        proof {
            assert(views.take(0).filter(keep) =~= Seq::empty()) by {
                reveal(Seq::filter);
            }
            assert(all.skip(0) =~= all);
            assert(self.edges.entries().skip(0) =~= all);
            assert(edge_views(self.edges.entries()).take(0) =~= Seq::empty());
        }
        while i < self.edges.len()
            invariant
                self.components.wf(),
                self.edges.wf(),
                self.merge_state.wf(),
                keep == edge_stays(id@),
                views == edge_views(all),
                0 <= i <= self.edges.entries().len(),
                0 <= seen <= all.len(),
                self.edges.entries().skip(i as int) == all.skip(seen),
                edge_views(self.edges.entries()).take(i as int) == views.take(seen).filter(keep),
                self@ == (LedgerView { edges: edge_views(self.edges.entries()), ..old(self)@ }),
            decreases self.edges.entries().len() - i,
        {
            let ghost now = self.edges.entries();
            proof {
                assert(now.skip(i as int)[0] == now[i as int]);
                assert(all.skip(seen).len() == now.len() - i);
                assert(all.skip(seen)[0] == all[seen]);
                assert(now[i as int] == all[seen]);
                lemma_filter_step(views, seen, keep);
            }
            let edge = self.edges.value_at(i);
            let touches = str_eq(edge.from.component_id.as_str(), id.as_str()) || str_eq(
                edge.to.component_id.as_str(),
                id.as_str(),
            );
            assert(views[seen] == (all[seen].0, all[seen].1@));
            if touches {
                self.edges.remove_at(i);
                proof {
                    assert(self.edges.entries().skip(i as int) =~= now.skip(i as int).skip(1));
                    assert(all.skip(seen).skip(1) =~= all.skip(seen + 1));
                    assert(edge_views(self.edges.entries()).take(i as int) =~= edge_views(
                        now,
                    ).take(i as int));
                }
            } else {
                proof {
                    assert(now.skip(i + 1) =~= now.skip(i as int).skip(1));
                    assert(all.skip(seen).skip(1) =~= all.skip(seen + 1));
                    assert(edge_views(now).take(i + 1) =~= edge_views(now).take(i as int).push(
                        views[seen],
                    ));
                }
                i = i + 1;
            }
            proof {
                seen = seen + 1;
            }
        }
        proof {
            assert(all.skip(seen).len() == 0);
            assert(views.take(seen) =~= views);
            assert(edge_views(self.edges.entries()).take(i as int) =~= edge_views(
                self.edges.entries(),
            ));
        }
    }

    fn apply_focus(&mut self, target: &FocusTarget)
        requires
            old(self).wf(),
        ensures
            final(self).components.wf(),
            final(self).edges.wf(),
            final(self).merge_state.wf(),
            final(self)@ == (match target@ {
                FocusView::Component(id) => LedgerView { selected: seq![id], ..old(self)@ },
                FocusView::Edge(id) => LedgerView { selected_edges: seq![id], ..old(self)@ },
                FocusView::Canvas => LedgerView {
                    selected: Seq::empty(),
                    selected_edges: Seq::empty(),
                    ..old(self)@
                },
            }),
    {
        match target {
            FocusTarget::Component { component_id } => {
                self.selection.component_ids = one_id(component_id);
            },
            FocusTarget::Edge { edge_id } => {
                let mut ids: Vec<EdgeId> = Vec::new();
                ids.push(edge_id.clone());
                assert(edge_id_views(ids@) =~= seq![edge_id@]);
                self.selection.edge_ids = ids;
            },
            FocusTarget::Canvas => {
                self.selection = SelectionState::default();
                assert(self@.selected =~= Seq::empty());
                assert(self@.selected_edges =~= Seq::empty());
            },
        }
    }

    fn focus_touched(&self, target: &FocusTarget) -> (touched: Vec<ComponentId>)
        ensures
            id_views(touched@) == (match target@ {
                FocusView::Component(id) => seq![id],
                _ => Seq::<Seq<char>>::empty(),
            }),
    {
        match target {
            FocusTarget::Component { component_id } => one_id(component_id),
            FocusTarget::Edge { .. } => no_ids(),
            FocusTarget::Canvas => no_ids(),
        }
    }

    fn apply_group(&mut self, frame_id: &ComponentId, children: &Vec<ComponentId>, now: i64)
        requires
            old(self).wf(),
        ensures
            final(self).components.wf(),
            final(self).edges.wf(),
            final(self).merge_state.wf(),
            final(self)@ == (LedgerView {
                components: with_change(
                    old(self)@.components,
                    frame_id@,
                    |c: ComponentView|
                        ComponentView {
                            children: with_missing(c.children, id_views(children@)),
                            updated_at_ms: now,
                            ..c
                        },
                ),
                ..old(self)@
            }),
    {
        let ghost before = self.components.entries();
        proof {
            lemma_component_views(before, frame_id@);
        }
        match self.components.position(frame_id.as_str()) {
            Some(i) => {
                let have = copy_ids(&self.components.value_at(i).children);
                let grown = grow_children(have, children);
                let frame = self.components.value_at_mut(i);
                frame.children = grown;
                frame.updated_at_ms = now;
                assert(self@.components =~= with_change(
                    component_views(before),
                    frame_id@,
                    |c: ComponentView|
                        ComponentView {
                            children: with_missing(c.children, id_views(children@)),
                            updated_at_ms: now,
                            ..c
                        },
                ));
            },
            None => {},
        }
    }

    /// The components that a layout target names and that are there, in order: those
    /// that need a rectangle each.
    pub fn layout_targets(&self, target: &LayoutTarget) -> (ids: Vec<ComponentId>)
        requires
            self.wf(),
        ensures
            id_views(ids@) == layout_ids(self@.components, target@),
    {
        let scope: Vec<ComponentId> = match target {
            LayoutTarget::Canvas => self.component_keys(),
            LayoutTarget::Component { component_id } => {
                proof {
                    lemma_component_views(self.components.entries(), component_id@);
                }
                match self.components.get(component_id.as_str()) {
                    Some(c) => copy_ids(&c.children),
                    None => no_ids(),
                }
            },
            LayoutTarget::Components { ids } => copy_ids(ids),
        };
        let ghost all = id_views(scope@);
        assert(all == layout_scope(self@.components, target@));
        let ghost here = |id: Seq<char>| holds_key(self@.components, id);
        let mut ids: Vec<ComponentId> = Vec::new();
        let mut i: usize = 0;
        assert(all.take(0).filter(here) =~= Seq::empty()) by {
            reveal(Seq::filter);
        }
        assert(id_views(ids@) =~= Seq::empty());
        while i < scope.len()
            invariant
                self.wf(),
                i <= scope@.len(),
                all == id_views(scope@),
                here == (|id: Seq<char>| holds_key(self@.components, id)),
                id_views(ids@) == all.take(i as int).filter(here),
            decreases scope@.len() - i,
        {
            proof {
                lemma_filter_step(all, i as int, here);
                lemma_component_views(self.components.entries(), all[i as int]);
            }
            if self.components.contains_key(scope[i].as_str()) {
                let ghost before = ids@;
                ids.push(scope[i].clone());
                assert(id_views(ids@) =~= id_views(before).push(all[i as int]));
            }
            i = i + 1;
        }
        assert(all.take(all.len() as int) =~= all);
        ids
    }

    fn component_keys(&self) -> (ids: Vec<ComponentId>)
        requires
            self.components.wf(),
        ensures
            id_views(ids@) == Seq::new(
                self@.components.len(),
                |i: int| self@.components[i].0,
            ),
    {
        let mut ids: Vec<ComponentId> = Vec::new();
        let mut i: usize = 0;
        while i < self.components.len()
            invariant
                self.components.wf(),
                i <= self.components.entries().len(),
                ids@.len() == i,
                forall|k: int|
                    0 <= k < i ==> (#[trigger] ids@[k])@ == self.components.entries()[k].0,
            decreases self.components.entries().len() - i,
        {
            ids.push(ComponentId::new(self.components.key_at(i)));
            i = i + 1;
        }
        assert(id_views(ids@) =~= Seq::new(
            self@.components.len(),
            |i: int| self@.components[i].0,
        ));
        ids
    }

    fn apply_layout(&mut self, target: &LayoutTarget, rects: &Vec<Rect>, now: i64) -> (touched: Vec<
        ComponentId,
    >)
        requires
            old(self).wf(),
        ensures
            final(self).components.wf(),
            final(self).edges.wf(),
            final(self).merge_state.wf(),
            ({
                let ids = layout_ids(old(self)@.components, target@);
                &&& final(self)@ == (LedgerView {
                    components: laid_out(
                        old(self)@.components,
                        ids,
                        rects@,
                        now,
                        layout_reach(ids, rects@),
                    ),
                    ..old(self)@
                })
                &&& id_views(touched@) == ids.take(layout_reach(ids, rects@))
            }),
    {
        let targets = self.layout_targets(target);
        let ghost ids = id_views(targets@);
        let ghost start = self@.components;
        let reach: usize = if targets.len() <= rects.len() {
            targets.len()
        } else {
            rects.len()
        };
        let mut touched: Vec<ComponentId> = Vec::new();
        assert(id_views(touched@) =~= ids.take(0));
        let mut n: usize = 0;
        while n < reach
            invariant
                self.components.wf(),
                self.edges.wf(),
                self.merge_state.wf(),
                n <= reach <= targets@.len(),
                reach <= rects@.len(),
                reach == layout_reach(ids, rects@),
                ids == id_views(targets@),
                start == old(self)@.components,
                id_views(touched@) == ids.take(n as int),
                self@ == (LedgerView {
                    components: laid_out(start, ids, rects@, now, n as int),
                    ..old(self)@
                }),
            decreases reach - n,
        {
            let ghost before = self.components.entries();
            let ghost change = |c: ComponentView|
                ComponentView { rect: rects@[n as int], updated_at_ms: now, ..c };
            proof {
                lemma_component_views(before, ids[n as int]);
                lemma_place_of_key(before, ids[n as int]);
            }
            match self.components.position(targets[n].as_str()) {
                Some(i) => {
                    let c = self.components.value_at_mut(i);
                    c.rect = rects[n];
                    c.updated_at_ms = now;
                },
                None => {},
            }
            let ghost t = touched@;
            touched.push(targets[n].clone());
            proof {
                assert(component_views(self.components.entries()) =~= with_change(
                    component_views(before),
                    ids[n as int],
                    change,
                ));
                assert(laid_out(start, ids, rects@, now, n + 1) == with_change(
                    laid_out(start, ids, rects@, now, n as int),
                    ids[n as int],
                    |c: ComponentView|
                        ComponentView { rect: rects@[n + 1 - 1], updated_at_ms: now, ..c },
                ));
                assert(change =~= (|c: ComponentView|
                    ComponentView { rect: rects@[n + 1 - 1], updated_at_ms: now, ..c }));
                assert(id_views(touched@) =~= id_views(t).push(ids[n as int]));
                assert(ids.take(n + 1) =~= ids.take(n as int).push(ids[n as int]));
            }
            n = n + 1;
        }
        touched
    }

    /// Whether applying a patch takes a slot from the app: it creates a component
    /// and does not say where.
    pub fn needs_slot(&self, patch: &SurfacePatch) -> (r: bool)
        requires
            self.wf(),
        ensures
            r == (patch@ matches PatchView::Upsert(p) && p.rect is None && !holds_key(
                self@.components,
                p.id,
            )),
    {
        match patch {
            SurfacePatch::UpsertComponent { component } => {
                proof {
                    lemma_component_views(self.components.entries(), component.id@);
                }
                component.rect.is_none() && !self.components.contains_key(component.id.as_str())
            },
            _ => false,
        }
    }

    /// The component with an id.
    pub fn component(&self, id: &ComponentId) -> (r: Option<&CanvasComponent>)
        requires
            self.wf(),
        ensures
            match value_of(self@.components, id@) {
                Some(c) => r matches Some(x) && x@ == c,
                None => r is None,
            },
    {
        proof {
            lemma_component_views(self.components.entries(), id@);
        }
        self.components.get(id.as_str())
    }

    /// The edge with an id.
    pub fn edge(&self, id: &EdgeId) -> (r: Option<&CanvasEdge>)
        requires
            self.wf(),
        ensures
            match value_of(self@.edges, id@) {
                Some(e) => r matches Some(x) && x@ == e,
                None => r is None,
            },
    {
        proof {
            lemma_edge_views(self.edges.entries(), id@);
        }
        self.edges.get(id.as_str())
    }
}

fn grow_children(have: Vec<ComponentId>, add: &Vec<ComponentId>) -> (r: Vec<ComponentId>)
    ensures
        id_views(r@) == with_missing(id_views(have@), id_views(add@)),
{
    let ghost first = id_views(have@);
    let ghost new = id_views(add@);
    let mut r = have;
    let mut i: usize = 0;
    assert(new.take(0) =~= Seq::empty());
    while i < add.len()
        invariant
            i <= add@.len(),
            new == id_views(add@),
            id_views(r@) == with_missing(first, new.take(i as int)),
        decreases add@.len() - i,
    {
        proof {
            assert(new.take(i + 1).drop_last() =~= new.take(i as int));
            assert(new.take(i + 1).last() == new[i as int]);
        }
        if !ids_contain(&r, &add[i]) {
            let ghost before = r@;
            r.push(add[i].clone());
            assert(id_views(r@) =~= id_views(before).push(new[i as int]));
        }
        i = i + 1;
    }
    assert(new.take(new.len() as int) =~= new);
    r
}

/// A short account of a canvas for the next agent turn.
#[derive(Clone, Debug, PartialEq, Eq)]
pub struct CompactCanvasContext {
    pub canvas_id: CanvasId,
    pub revision: u64,
    pub mode: CanvasMode,
    pub viewport: Viewport,
    pub components: Vec<CompactComponent>,
    pub edges: Vec<CompactEdge>,
    pub selection: Vec<ComponentId>,
}

/// One component in a short account.
#[derive(Clone, Debug, PartialEq, Eq)]
pub struct CompactComponent {
    pub id: ComponentId,
    pub kind: String,
    pub rect: Rect,
    pub title: Option<String>,
}

/// One edge in a short account.
#[derive(Clone, Debug, PartialEq, Eq)]
pub struct CompactEdge {
    pub id: EdgeId,
    pub from: ComponentId,
    pub to: ComponentId,
}

/// One component in a short account.
pub struct CompactComponentView {
    pub id: Seq<char>,
    pub kind: Seq<char>,
    pub rect: Rect,
    pub title: Option<Seq<char>>,
}

/// One edge in a short account.
pub struct CompactEdgeView {
    pub id: Seq<char>,
    pub from: Seq<char>,
    pub to: Seq<char>,
}

/// A short account of a canvas.
pub struct CompactView {
    pub canvas_id: Seq<char>,
    pub revision: u64,
    pub mode: CanvasMode,
    pub viewport: Viewport,
    pub components: Seq<CompactComponentView>,
    pub edges: Seq<CompactEdgeView>,
    pub selection: Seq<Seq<char>>,
}

impl View for CompactComponent {
    type V = CompactComponentView;

    open spec fn view(&self) -> CompactComponentView {
        CompactComponentView {
            id: self.id@,
            kind: self.kind@,
            rect: self.rect,
            title: opt_chars(self.title),
        }
    }
}

impl View for CompactEdge {
    type V = CompactEdgeView;

    open spec fn view(&self) -> CompactEdgeView {
        CompactEdgeView { id: self.id@, from: self.from@, to: self.to@ }
    }
}

impl View for CompactCanvasContext {
    type V = CompactView;

    open spec fn view(&self) -> CompactView {
        CompactView {
            canvas_id: self.canvas_id@,
            revision: self.revision,
            mode: self.mode,
            viewport: self.viewport,
            components: Seq::new(self.components@.len(), |i: int| self.components@[i]@),
            edges: Seq::new(self.edges@.len(), |i: int| self.edges@[i]@),
            selection: id_views(self.selection@),
        }
    }
}

/// A component in short: its id, its kind as it was given, its rectangle and its
/// title.
pub open spec fn compact_component(c: ComponentView) -> CompactComponentView {
    CompactComponentView {
        id: c.id,
        kind: c.template,
        rect: c.rect,
        title: c.content.get_string("title"@),
    }
}

/// An edge in short: its id and its ends.
pub open spec fn compact_edge(e: EdgeView) -> CompactEdgeView {
    CompactEdgeView { id: e.id, from: e.from.component_id, to: e.to.component_id }
}

/// The short account of a ledger: components and edges in order, no log, no
/// provenance and of the content only the titles.
pub open spec fn compact_of(v: LedgerView) -> CompactView {
    CompactView {
        canvas_id: v.canvas_id,
        revision: v.revision,
        mode: v.mode,
        viewport: v.viewport,
        components: Seq::new(
            v.components.len(),
            |i: int| compact_component(v.components[i].1),
        ),
        edges: Seq::new(v.edges.len(), |i: int| compact_edge(v.edges[i].1)),
        selection: v.selected,
    }
}

impl CanvasLedger {
    /// A short account of the canvas for the next agent turn.
    pub fn compact_context(&self) -> (r: CompactCanvasContext)
        ensures
            r@ == compact_of(self@),
    {
        let mut components: Vec<CompactComponent> = Vec::new();
        let values = self.components.values();
        let mut i: usize = 0;
        while i < values.len()
            invariant
                i <= values@.len(),
                values@.len() == self.components.entries().len(),
                forall|k: int|
                    0 <= k < values@.len() ==> #[trigger] values@[k]
                        == self.components.entries()[k].1,
                components@.len() == i,
                forall|k: int|
                    0 <= k < i ==> (#[trigger] components@[k])@ == compact_component(
                        self@.components[k].1,
                    ),
            decreases values@.len() - i,
        {
            let c = &values[i];
            let title = match c.content.get_str("title") {
                Some(t) => Some(copy_str(t)),
                None => None,
            };
            components.push(
                CompactComponent {
                    id: c.id.clone(),
                    kind: c.template.clone(),
                    rect: c.rect,
                    title,
                },
            );
            i = i + 1;
        }
        let mut edges: Vec<CompactEdge> = Vec::new();
        let edge_values = self.edges.values();
        let mut j: usize = 0;
        while j < edge_values.len()
            invariant
                j <= edge_values@.len(),
                edge_values@.len() == self.edges.entries().len(),
                forall|k: int|
                    0 <= k < edge_values@.len() ==> #[trigger] edge_values@[k]
                        == self.edges.entries()[k].1,
                edges@.len() == j,
                forall|k: int|
                    0 <= k < j ==> (#[trigger] edges@[k])@ == compact_edge(self@.edges[k].1),
            decreases edge_values@.len() - j,
        {
            let e = &edge_values[j];
            edges.push(
                CompactEdge {
                    id: e.id.clone(),
                    from: e.from.component_id.clone(),
                    to: e.to.component_id.clone(),
                },
            );
            j = j + 1;
        }
        let r = CompactCanvasContext {
            canvas_id: self.canvas_id.clone(),
            revision: self.revision,
            mode: self.mode,
            viewport: self.viewport,
            components,
            edges,
            selection: copy_ids(&self.selection.component_ids),
        };
        assert(r@.components =~= compact_of(self@).components);
        assert(r@.edges =~= compact_of(self@).edges);
        r
    }
}

/// Every patch made here moves the canvas on by one revision and adds one envelope
/// to the log, whose id names that revision.
pub proof fn law_local_patch_is_counted_and_logged(
    v: LedgerView,
    patch: PatchView,
    actor: ActorView,
    now: i64,
    slot: Rect,
    rects: Seq<Rect>,
)
    requires
        v.revision < u64::MAX,
    ensures
        locally_applied(v, patch, actor, now, slot, rects).revision == v.revision + 1,
        locally_applied(v, patch, actor, now, slot, rects).patch_log == v.patch_log.push(
            local_envelope(v, patch, actor, now),
        ),
        locally_applied(v, patch, actor, now, slot, rects).patch_log.last().patch_id
            == patch_id_of(v.canvas_id, (v.revision + 1) as nat),
{
}

/// A patch made here that contends for a component always lands: its version is
/// the winning one afterwards.
pub proof fn law_local_patch_wins(
    v: LedgerView,
    patch: PatchView,
    actor: ActorView,
    now: i64,
    slot: Rect,
    rects: Seq<Rect>,
)
    requires
        ledger_wf(v),
        v.clock < u64::MAX,
        patch.target() is Some,
    ensures
        locally_applied(v, patch, actor, now, slot, rects).merge_state == v.merge_state.insert(
            patch.target()->0,
            stamp_of(v, patch, actor)->0,
        ),
{
}

/// A deleted component leaves no edge, no selection and no entry behind.
pub proof fn law_delete_leaves_nothing(
    v: LedgerView,
    id: Seq<char>,
    actor: ActorView,
    now: i64,
    slot: Rect,
    rects: Seq<Rect>,
)
    requires
        ledger_wf(v),
        holds_key(v.components, id),
    ensures
        !holds_key(changed(v, PatchView::Delete(id), actor, now, slot, rects).components, id),
        !changed(v, PatchView::Delete(id), actor, now, slot, rects).selected.contains(id),
        forall|i: int|
            0 <= i < changed(v, PatchView::Delete(id), actor, now, slot, rects).edges.len()
                ==> !edge_touches(
                #[trigger] changed(v, PatchView::Delete(id), actor, now, slot, rects).edges[i],
                id,
            ),
{
    let after = changed(v, PatchView::Delete(id), actor, now, slot, rects);
    lemma_place_of_key(v.components, id);
    let at = place_of_key(v.components, id);
    if holds_key(after.components, id) {
        let i = choose|i: int|
            0 <= i < after.components.len() && (#[trigger] after.components[i]).0 == id;
        let a = if i < at {
            i
        } else {
            i + 1
        };
        assert(v.components[a].0 == v.components[at].0);
    }
    if after.selected.contains(id) {
        let i = choose|i: int| 0 <= i < after.selected.len() && after.selected[i] == id;
        lemma_filter_from(v.selected, other_than(id), i);
    }
    assert forall|i: int| 0 <= i < after.edges.len() implies !edge_touches(
        #[trigger] after.edges[i],
        id,
    ) by {
        lemma_filter_from(v.edges, edge_stays(id), i);
    }
}

/// Deleting a component keeps the edges between all others.
pub proof fn law_delete_keeps_other_edges(
    v: LedgerView,
    id: Seq<char>,
    actor: ActorView,
    now: i64,
    slot: Rect,
    rects: Seq<Rect>,
    i: int,
)
    requires
        0 <= i < v.edges.len(),
        !edge_touches(v.edges[i], id),
    ensures
        changed(v, PatchView::Delete(id), actor, now, slot, rects).edges.contains(v.edges[i]),
{
    lemma_filter_to(v.edges, edge_stays(id), i);
}

/// Updating a component keeps its id, its place, and who created it and when.
pub proof fn law_upsert_keeps_provenance(
    v: LedgerView,
    p: ComponentPatchView,
    actor: ActorView,
    now: i64,
    slot: Rect,
    rects: Seq<Rect>,
)
    requires
        ledger_wf(v),
        holds_key(v.components, p.id),
    ensures
        ({
            let at = place_of_key(v.components, p.id);
            let after = changed(v, PatchView::Upsert(p), actor, now, slot, rects).components;
            &&& after.len() == v.components.len()
            &&& after[at].0 == p.id
            &&& after[at].1.id == p.id
            &&& after[at].1.created_by == v.components[at].1.created_by
            &&& after[at].1.created_at_ms == v.components[at].1.created_at_ms
            &&& p.rect is None ==> after[at].1.rect == v.components[at].1.rect
            &&& forall|i: int|
                0 <= i < after.len() && i != at ==> #[trigger] after[i] == v.components[i]
        }),
{
    lemma_place_of_key(v.components, p.id);
}

/// A patch that came with its version from this very state does what it did when it
/// was made here, so a log replays to the same ledger.
pub proof fn law_replay_matches_local_apply(
    v: LedgerView,
    patch: PatchView,
    actor: ActorView,
    now: i64,
    slot: Rect,
    rects: Seq<Rect>,
)
    requires
        ledger_wf(v),
        v.clock < u64::MAX,
    ensures
        remotely_applied(v, local_envelope(v, patch, actor, now), slot, rects) == locally_applied(
            v,
            patch,
            actor,
            now,
            slot,
            rects,
        ),
{
}

/// An envelope with a version that contends for a component does nothing when it
/// arrives a second time.
pub proof fn law_replay_is_idempotent(
    v: LedgerView,
    env: EnvelopeView,
    slot: Rect,
    rects: Seq<Rect>,
)
    requires
        env.patch.target() is Some,
        env.version is Some,
    ensures
        remotely_applied(remotely_applied(v, env, slot, rects), env, slot, rects)
            == remotely_applied(v, env, slot, rects),
{
    law_version_irreflexive(env.version->0);
    let once = remotely_applied(v, env, slot, rects);
    assert(loses(once, env));
    assert(remotely_applied(once, env, slot, rects) =~= once);
}

/// However an envelope with a version fares, the versions and the clock move as the
/// merge of versions says: replicas that saw the same envelopes hold the same ones.
pub proof fn law_remote_versions_merge(
    v: LedgerView,
    env: EnvelopeView,
    slot: Rect,
    rects: Seq<Rect>,
)
    requires
        env.patch.target() is Some,
        env.version is Some,
    ensures
        remotely_applied(v, env, slot, rects).merge_state == merged(
            v.merge_state,
            env.patch.target()->0,
            env.version->0,
        ),
        remotely_applied(v, env, slot, rects).clock >= v.clock,
        remotely_applied(v, env, slot, rects).clock >= env.version->0.rev,
{
}

proof fn lemma_changed_twice(
    components: Components,
    id: Seq<char>,
    first: spec_fn(ComponentView) -> ComponentView,
    last: spec_fn(ComponentView) -> ComponentView,
)
    requires
        forall|c: ComponentView| last(first(c)) == #[trigger] last(c),
    ensures
        with_change(with_change(components, id, first), id, last) == with_change(
            components,
            id,
            last,
        ),
{
    let once = with_change(components, id, first);
    if holds_key(components, id) {
        lemma_place_of_key(components, id);
        let p = place_of_key(components, id);
        assert(components[p].0 == id);
        lemma_same_keys(once, components, id);
        assert(last(first(components[p].1)) == last(components[p].1));
        assert(with_change(once, id, last) =~= with_change(components, id, last));
    }
}

/// A move of a component.
pub open spec fn is_move_of(env: EnvelopeView, id: Seq<char>) -> bool {
    env.version is Some && (env.patch matches PatchView::Move(moved, _, _) && moved == id)
}

proof fn lemma_higher_move_stays(
    v: LedgerView,
    lower: EnvelopeView,
    higher: EnvelopeView,
    id: Seq<char>,
    slot: Rect,
    rects: Seq<Rect>,
)
    requires
        is_move_of(lower, id),
        is_move_of(higher, id),
        version_less(lower.version->0, higher.version->0),
    ensures
        remotely_applied(remotely_applied(v, lower, slot, rects), higher, slot, rects).components
            == remotely_applied(
            remotely_applied(v, higher, slot, rects),
            lower,
            slot,
            rects,
        ).components,
{
    let (low, high) = (lower.version->0, higher.version->0);
    law_version_total(low, high);
    if v.merge_state.contains_key(id) {
        let here = v.merge_state[id];
        law_version_total(here, high);
        law_version_total(here, low);
        if version_less(high, here) {
            law_version_transitive(low, high, here);
        }
    }
    let after_low = remotely_applied(v, lower, slot, rects);
    let after_high = remotely_applied(v, higher, slot, rects);
    if loses(v, higher) {
        assert(loses(v, lower));
    } else {
        assert(loses(after_high, lower));
        if !loses(v, lower) {
            assert(!loses(after_low, higher));
            if let (PatchView::Move(_, x, y), PatchView::Move(_, to_x, to_y)) = (
                lower.patch,
                higher.patch,
            ) {
                let first = |c: ComponentView|
                    ComponentView {
                        rect: Rect { x, y, ..c.rect },
                        updated_by: lower.actor,
                        updated_at_ms: lower.created_at_ms,
                        ..c
                    };
                let last = |c: ComponentView|
                    ComponentView {
                        rect: Rect { x: to_x, y: to_y, ..c.rect },
                        updated_by: higher.actor,
                        updated_at_ms: higher.created_at_ms,
                        ..c
                    };
                lemma_changed_twice(v.components, id, first, last);
                assert(after_low.components == with_change(v.components, id, first));
                assert(after_high.components == with_change(v.components, id, last));
            }
        }
    }
}

/// Surfaces that see two moves of a component in either order agree where it stands: the
/// move with the higher version decides.
pub proof fn law_moves_converge(
    v: LedgerView,
    a: EnvelopeView,
    b: EnvelopeView,
    id: Seq<char>,
    slot: Rect,
    rects: Seq<Rect>,
)
    requires
        is_move_of(a, id),
        is_move_of(b, id),
        a.version != b.version,
    ensures
        remotely_applied(remotely_applied(v, a, slot, rects), b, slot, rects).components
            == remotely_applied(remotely_applied(v, b, slot, rects), a, slot, rects).components,
        remotely_applied(remotely_applied(v, a, slot, rects), b, slot, rects).merge_state
            == remotely_applied(remotely_applied(v, b, slot, rects), a, slot, rects).merge_state,
{
    law_version_total(a.version->0, b.version->0);
    if version_less(a.version->0, b.version->0) {
        lemma_higher_move_stays(v, a, b, id, slot, rects);
    } else {
        lemma_higher_move_stays(v, b, a, id, slot, rects);
    }
    law_remote_versions_merge(v, a, slot, rects);
    law_remote_versions_merge(v, b, slot, rects);
    law_remote_versions_merge(remotely_applied(v, a, slot, rects), b, slot, rects);
    law_remote_versions_merge(remotely_applied(v, b, slot, rects), a, slot, rects);
    law_merge_commutes(v.merge_state, id, a.version->0, id, b.version->0);
}

} // verus!
