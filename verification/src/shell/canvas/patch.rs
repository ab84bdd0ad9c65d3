//! Surface patches: the structured changes that agents and people make to a
//! canvas, and the version order by which concurrent changes converge.

use vstd::prelude::*;

use crate::json::Json;
use crate::text::{copy_opt, copy_str, str_eq, str_less};

verus! {

broadcast use vstd::string::group_string_axioms;

use crate::json::JsonView;
use crate::text::{
    chars_less, lemma_chars_less_irreflexive, lemma_chars_less_total, lemma_chars_less_transitive,
    opt_chars,
};

/// Names a surface: one client face onto a session.
#[derive(Debug, PartialEq, Eq, Hash, PartialOrd, Ord)]
pub struct SurfaceId(pub String);

impl View for SurfaceId {
    type V = Seq<char>;

    open spec fn view(&self) -> Seq<char> {
        self.0@
    }
}

impl Clone for SurfaceId {
    fn clone(&self) -> (r: Self)
        ensures
            r@ == self@,
    {
        SurfaceId(self.0.clone())
    }
}

impl SurfaceId {
    /// The id with the given text.
    pub fn new(s: &str) -> (r: Self)
        ensures
            r@ == s@,
    {
        SurfaceId(copy_str(s))
    }

    /// The text of the id.
    pub fn as_str(&self) -> (r: &str)
        ensures
            r@ == self@,
    {
        self.0.as_str()
    }

    /// The text of the id, owned.
    pub fn into_inner(self) -> (r: String)
        ensures
            r@ == self@,
    {
        self.0
    }
}

impl From<&str> for SurfaceId {
    fn from(s: &str) -> (r: Self)
        ensures
            r@ == s@,
    {
        SurfaceId::new(s)
    }
}

impl vstd::std_specs::convert::FromSpecImpl<&str> for SurfaceId {
    open spec fn obeys_from_spec() -> bool {
        false
    }

    open spec fn from_spec(s: &str) -> Self {
        arbitrary()
    }
}

impl From<String> for SurfaceId {
    fn from(s: String) -> (r: Self) {
        SurfaceId(s)
    }
}

impl vstd::std_specs::convert::FromSpecImpl<String> for SurfaceId {
    open spec fn obeys_from_spec() -> bool {
        true
    }

    open spec fn from_spec(s: String) -> Self {
        SurfaceId(s)
    }
}

/// Names a canvas within a surface.
#[derive(Debug, PartialEq, Eq, Hash, PartialOrd, Ord)]
pub struct CanvasId(pub String);

impl View for CanvasId {
    type V = Seq<char>;

    open spec fn view(&self) -> Seq<char> {
        self.0@
    }
}

impl Clone for CanvasId {
    fn clone(&self) -> (r: Self)
        ensures
            r@ == self@,
    {
        CanvasId(self.0.clone())
    }
}

impl CanvasId {
    /// The id with the given text.
    pub fn new(s: &str) -> (r: Self)
        ensures
            r@ == s@,
    {
        CanvasId(copy_str(s))
    }

    /// The text of the id.
    pub fn as_str(&self) -> (r: &str)
        ensures
            r@ == self@,
    {
        self.0.as_str()
    }

    /// The text of the id, owned.
    pub fn into_inner(self) -> (r: String)
        ensures
            r@ == self@,
    {
        self.0
    }
}

impl From<&str> for CanvasId {
    fn from(s: &str) -> (r: Self)
        ensures
            r@ == s@,
    {
        CanvasId::new(s)
    }
}

impl vstd::std_specs::convert::FromSpecImpl<&str> for CanvasId {
    open spec fn obeys_from_spec() -> bool {
        false
    }

    open spec fn from_spec(s: &str) -> Self {
        arbitrary()
    }
}

impl From<String> for CanvasId {
    fn from(s: String) -> (r: Self) {
        CanvasId(s)
    }
}

impl vstd::std_specs::convert::FromSpecImpl<String> for CanvasId {
    open spec fn obeys_from_spec() -> bool {
        true
    }

    open spec fn from_spec(s: String) -> Self {
        CanvasId(s)
    }
}

/// Names a component on a canvas.
#[derive(Debug, PartialEq, Eq, Hash, PartialOrd, Ord)]
pub struct ComponentId(pub String);

impl View for ComponentId {
    type V = Seq<char>;

    open spec fn view(&self) -> Seq<char> {
        self.0@
    }
}

impl Clone for ComponentId {
    fn clone(&self) -> (r: Self)
        ensures
            r@ == self@,
    {
        ComponentId(self.0.clone())
    }
}

impl ComponentId {
    /// The id with the given text.
    pub fn new(s: &str) -> (r: Self)
        ensures
            r@ == s@,
    {
        ComponentId(copy_str(s))
    }

    /// The text of the id.
    pub fn as_str(&self) -> (r: &str)
        ensures
            r@ == self@,
    {
        self.0.as_str()
    }

    /// The text of the id, owned.
    pub fn into_inner(self) -> (r: String)
        ensures
            r@ == self@,
    {
        self.0
    }
}

impl From<&str> for ComponentId {
    fn from(s: &str) -> (r: Self)
        ensures
            r@ == s@,
    {
        ComponentId::new(s)
    }
}

impl vstd::std_specs::convert::FromSpecImpl<&str> for ComponentId {
    open spec fn obeys_from_spec() -> bool {
        false
    }

    open spec fn from_spec(s: &str) -> Self {
        arbitrary()
    }
}

impl From<String> for ComponentId {
    fn from(s: String) -> (r: Self) {
        ComponentId(s)
    }
}

impl vstd::std_specs::convert::FromSpecImpl<String> for ComponentId {
    open spec fn obeys_from_spec() -> bool {
        true
    }

    open spec fn from_spec(s: String) -> Self {
        ComponentId(s)
    }
}

/// Names one emitted patch.
#[derive(Debug, PartialEq, Eq, Hash, PartialOrd, Ord)]
pub struct PatchId(pub String);

impl View for PatchId {
    type V = Seq<char>;

    open spec fn view(&self) -> Seq<char> {
        self.0@
    }
}

impl Clone for PatchId {
    fn clone(&self) -> (r: Self)
        ensures
            r@ == self@,
    {
        PatchId(self.0.clone())
    }
}

impl PatchId {
    /// The id with the given text.
    pub fn new(s: &str) -> (r: Self)
        ensures
            r@ == s@,
    {
        PatchId(copy_str(s))
    }

    /// The text of the id.
    pub fn as_str(&self) -> (r: &str)
        ensures
            r@ == self@,
    {
        self.0.as_str()
    }

    /// The text of the id, owned.
    pub fn into_inner(self) -> (r: String)
        ensures
            r@ == self@,
    {
        self.0
    }
}

impl From<&str> for PatchId {
    fn from(s: &str) -> (r: Self)
        ensures
            r@ == s@,
    {
        PatchId::new(s)
    }
}

impl vstd::std_specs::convert::FromSpecImpl<&str> for PatchId {
    open spec fn obeys_from_spec() -> bool {
        false
    }

    open spec fn from_spec(s: &str) -> Self {
        arbitrary()
    }
}

impl From<String> for PatchId {
    fn from(s: String) -> (r: Self) {
        PatchId(s)
    }
}

impl vstd::std_specs::convert::FromSpecImpl<String> for PatchId {
    open spec fn obeys_from_spec() -> bool {
        true
    }

    open spec fn from_spec(s: String) -> Self {
        PatchId(s)
    }
}

/// Names an edge between two endpoints.
#[derive(Debug, PartialEq, Eq, Hash, PartialOrd, Ord)]
pub struct EdgeId(pub String);

impl View for EdgeId {
    type V = Seq<char>;

    open spec fn view(&self) -> Seq<char> {
        self.0@
    }
}

impl Clone for EdgeId {
    fn clone(&self) -> (r: Self)
        ensures
            r@ == self@,
    {
        EdgeId(self.0.clone())
    }
}

impl EdgeId {
    /// The id with the given text.
    pub fn new(s: &str) -> (r: Self)
        ensures
            r@ == s@,
    {
        EdgeId(copy_str(s))
    }

    /// The text of the id.
    pub fn as_str(&self) -> (r: &str)
        ensures
            r@ == self@,
    {
        self.0.as_str()
    }

    /// The text of the id, owned.
    pub fn into_inner(self) -> (r: String)
        ensures
            r@ == self@,
    {
        self.0
    }
}

impl From<&str> for EdgeId {
    fn from(s: &str) -> (r: Self)
        ensures
            r@ == s@,
    {
        EdgeId::new(s)
    }
}

impl vstd::std_specs::convert::FromSpecImpl<&str> for EdgeId {
    open spec fn obeys_from_spec() -> bool {
        false
    }

    open spec fn from_spec(s: &str) -> Self {
        arbitrary()
    }
}

impl From<String> for EdgeId {
    fn from(s: String) -> (r: Self) {
        EdgeId(s)
    }
}

impl vstd::std_specs::convert::FromSpecImpl<String> for EdgeId {
    open spec fn obeys_from_spec() -> bool {
        true
    }

    open spec fn from_spec(s: String) -> Self {
        EdgeId(s)
    }
}

/// A stable, orderable identity of whoever made a write, such as `agent:sage`.
#[derive(Debug, PartialEq, Eq, Hash, PartialOrd, Ord)]
pub struct ActorId(pub String);

impl View for ActorId {
    type V = Seq<char>;

    open spec fn view(&self) -> Seq<char> {
        self.0@
    }
}

impl Clone for ActorId {
    fn clone(&self) -> (r: Self)
        ensures
            r@ == self@,
    {
        ActorId(self.0.clone())
    }
}

impl ActorId {
    /// The id with the given text.
    pub fn new(s: &str) -> (r: Self)
        ensures
            r@ == s@,
    {
        ActorId(copy_str(s))
    }

    /// The text of the id.
    pub fn as_str(&self) -> (r: &str)
        ensures
            r@ == self@,
    {
        self.0.as_str()
    }

    /// The identity of an actor: kind and id with a colon between, or the kind alone.
    pub fn from_actor(actor: &ActorRef) -> (r: Self)
        ensures
            r@ == actor_id_of(actor@),
    {
        match &actor.id {
            Some(id) => {
                let mut s = actor.kind.clone();
                s.push(':');
                s.push_str(id.as_str());
                ActorId(s)
            },
            None => ActorId(actor.kind.clone()),
        }
    }
}

impl From<&ActorRef> for ActorId {
    fn from(actor: &ActorRef) -> (r: Self)
        ensures
            r@ == actor_id_of(actor@),
    {
        ActorId::from_actor(actor)
    }
}

impl vstd::std_specs::convert::FromSpecImpl<&ActorRef> for ActorId {
    open spec fn obeys_from_spec() -> bool {
        false
    }

    open spec fn from_spec(actor: &ActorRef) -> Self {
        arbitrary()
    }
}

/// The texts of a list of component ids.
pub open spec fn id_views(ids: Seq<ComponentId>) -> Seq<Seq<char>> {
    Seq::new(ids.len(), |i: int| ids[i]@)
}

/// A copy of a list of component ids.
pub fn copy_ids(ids: &Vec<ComponentId>) -> (r: Vec<ComponentId>)
    ensures
        id_views(r@) == id_views(ids@),
{
    let mut r: Vec<ComponentId> = Vec::new();
    let mut i: usize = 0;
    while i < ids.len()
        invariant
            i <= ids@.len(),
            r@.len() == i,
            forall|k: int| 0 <= k < i ==> (#[trigger] r@[k])@ == ids@[k]@,
        decreases ids@.len() - i,
    {
        r.push(ids[i].clone());
        i = i + 1;
    }
    assert(id_views(r@) =~= id_views(ids@));
    r
}

/// Whether a list of component ids holds an id.
pub fn ids_contain(ids: &Vec<ComponentId>, id: &ComponentId) -> (r: bool)
    ensures
        r == id_views(ids@).contains(id@),
{
    let mut i: usize = 0;
    while i < ids.len()
        invariant
            i <= ids@.len(),
            forall|k: int| 0 <= k < i ==> (#[trigger] ids@[k])@ != id@,
        decreases ids@.len() - i,
    {
        if str_eq(ids[i].as_str(), id.as_str()) {
            assert(id_views(ids@)[i as int] == id@);
            return true;
        }
        i = i + 1;
    }
    false
}

/// A single-precision number, held by its IEEE 754 bit pattern: `==` compares the patterns,
/// [`Coord::same_as`] the numbers.
#[derive(Clone, Copy, Debug, PartialEq, Eq, Structural)]
pub struct Coord(pub u32);

/// A bit pattern without its sign.
pub open spec fn coord_magnitude(c: Coord) -> int {
    if c.0 >= 0x8000_0000 {
        c.0 - 0x8000_0000
    } else {
        c.0 as int
    }
}

/// Whether two bit patterns stand for the same number: zero has two, and what is no number
/// is not even the same as itself.
pub open spec fn same_coord(a: Coord, b: Coord) -> bool {
    &&& coord_magnitude(a) <= 0x7f80_0000
    &&& coord_magnitude(b) <= 0x7f80_0000
    &&& a == b || (coord_magnitude(a) == 0 && coord_magnitude(b) == 0)
}

impl Coord {
    fn magnitude(self) -> (r: u32)
        ensures
            r == coord_magnitude(self),
    {
        if self.0 >= 0x8000_0000 {
            self.0 - 0x8000_0000
        } else {
            self.0
        }
    }

    /// Whether another bit pattern stands for the same number.
    #[must_use]
    pub fn same_as(self, other: Coord) -> (r: bool)
        ensures
            r == same_coord(self, other),
    {
        let (a, b): (u32, u32) = (self.magnitude(), other.magnitude());
        a <= 0x7f80_0000 && b <= 0x7f80_0000 && (self.0 == other.0 || (a == 0 && b == 0))
    }
}

/// An axis-aligned rectangle in canvas space.
#[derive(Clone, Copy, Debug, PartialEq, Eq, Structural)]
pub struct Rect {
    pub x: Coord,
    pub y: Coord,
    pub w: Coord,
    pub h: Coord,
}

impl Rect {
    /// The rectangle with the given corner and size.
    pub fn new(x: Coord, y: Coord, w: Coord, h: Coord) -> (r: Self)
        ensures
            r == (Rect { x, y, w, h }),
    {
        Rect { x, y, w, h }
    }

    /// Whether another rectangle stands at the same place and is as large.
    #[must_use]
    pub fn same_as(self, other: Rect) -> (r: bool)
        ensures
            r == (same_coord(self.x, other.x) && same_coord(self.y, other.y) && same_coord(
                self.w,
                other.w,
            ) && same_coord(self.h, other.h)),
    {
        self.x.same_as(other.x) && self.y.same_as(other.y) && self.w.same_as(other.w)
            && self.h.same_as(other.h)
    }
}

/// Pan and zoom of a canvas viewport.
#[derive(Clone, Copy, Debug, PartialEq, Eq, Structural)]
pub struct Viewport {
    pub x: Coord,
    pub y: Coord,
    pub zoom: Coord,
}

/// Zero, as a bit pattern.
pub const COORD_ZERO: u32 = 0;

/// One, as a bit pattern.
pub const COORD_ONE: u32 = 0x3f80_0000;

impl Viewport {
    /// Whether another viewport shows the same.
    #[must_use]
    pub fn same_as(self, other: Viewport) -> (r: bool)
        ensures
            r == (same_coord(self.x, other.x) && same_coord(self.y, other.y) && same_coord(
                self.zoom,
                other.zoom,
            )),
    {
        self.x.same_as(other.x) && self.y.same_as(other.y) && self.zoom.same_as(other.zoom)
    }
}

/// The viewport at the origin with a zoom of one.
pub open spec fn origin_viewport() -> Viewport {
    Viewport { x: Coord(COORD_ZERO), y: Coord(COORD_ZERO), zoom: Coord(COORD_ONE) }
}

impl Default for Viewport {
    fn default() -> (r: Self)
        ensures
            r == origin_viewport(),
    {
        Viewport { x: Coord(COORD_ZERO), y: Coord(COORD_ZERO), zoom: Coord(COORD_ONE) }
    }
}

/// Who made a patch.
#[derive(Debug, PartialEq, Eq)]
pub struct ActorRef {
    /// The coarse class: `agent`, `human` or `system`.
    pub kind: String,
    /// A stable id: an agent's name, a user's id.
    pub id: Option<String>,
    /// A label for people.
    pub label: Option<String>,
}

/// Who made a patch.
pub struct ActorView {
    pub kind: Seq<char>,
    pub id: Option<Seq<char>>,
    pub label: Option<Seq<char>>,
}

impl View for ActorRef {
    type V = ActorView;

    open spec fn view(&self) -> ActorView {
        ActorView { kind: self.kind@, id: opt_chars(self.id), label: opt_chars(self.label) }
    }
}

/// Kind and id with a colon between, or the kind alone.
pub open spec fn actor_id_of(actor: ActorView) -> Seq<char> {
    match actor.id {
        Some(id) => actor.kind.push(':') + id,
        None => actor.kind,
    }
}

impl Clone for ActorRef {
    fn clone(&self) -> (r: Self)
        ensures
            r@ == self@,
    {
        ActorRef { kind: self.kind.clone(), id: copy_opt(&self.id), label: copy_opt(&self.label) }
    }
}

impl ActorRef {
    /// An agent, named or not.
    pub fn agent(id: Option<String>) -> (r: Self)
        ensures
            r@ == (ActorView { kind: "agent"@, id: opt_chars(id), label: None }),
    {
        ActorRef { kind: copy_str("agent"), id, label: None }
    }

    /// A person, with an id or without.
    pub fn human(id: Option<String>) -> (r: Self)
        ensures
            r@ == (ActorView { kind: "human"@, id: opt_chars(id), label: None }),
    {
        ActorRef { kind: copy_str("human"), id, label: None }
    }

    /// The app itself.
    pub fn system() -> (r: Self)
        ensures
            r@ == (ActorView { kind: "system"@, id: None, label: None }),
    {
        ActorRef { kind: copy_str("system"), id: None, label: None }
    }
}

impl Default for ActorRef {
    fn default() -> (r: Self)
        ensures
            r@ == (ActorView { kind: "system"@, id: None, label: None }),
    {
        ActorRef::system()
    }
}

/// The wish to create or update a component. What is left out stays as it is, or
/// is for the app to choose.
#[derive(Debug, PartialEq, Eq)]
pub struct CanvasComponentPatch {
    pub id: ComponentId,
    /// A component kind or template name.
    pub kind: String,
    pub rect: Option<Rect>,
    pub z_index: Option<i32>,
    pub content: Json,
    pub metadata: Json,
}

/// The wish to create or update a component.
pub struct ComponentPatchView {
    pub id: Seq<char>,
    pub kind: Seq<char>,
    pub rect: Option<Rect>,
    pub z_index: Option<i32>,
    pub content: JsonView,
    pub metadata: JsonView,
}

impl View for CanvasComponentPatch {
    type V = ComponentPatchView;

    open spec fn view(&self) -> ComponentPatchView {
        ComponentPatchView {
            id: self.id@,
            kind: self.kind@,
            rect: self.rect,
            z_index: self.z_index,
            content: self.content@,
            metadata: self.metadata@,
        }
    }
}

impl Clone for CanvasComponentPatch {
    fn clone(&self) -> (r: Self)
        ensures
            r@ == self@,
    {
        CanvasComponentPatch {
            id: self.id.clone(),
            kind: self.kind.clone(),
            rect: self.rect,
            z_index: self.z_index,
            content: self.content.clone(),
            metadata: self.metadata.clone(),
        }
    }
}

/// One end of an edge: a component, or a port on it.
#[derive(Debug, PartialEq, Eq)]
pub struct Endpoint {
    pub component_id: ComponentId,
    pub port: Option<String>,
}

/// One end of an edge.
pub struct EndpointView {
    pub component_id: Seq<char>,
    pub port: Option<Seq<char>>,
}

impl View for Endpoint {
    type V = EndpointView;

    open spec fn view(&self) -> EndpointView {
        EndpointView { component_id: self.component_id@, port: opt_chars(self.port) }
    }
}

impl Clone for Endpoint {
    fn clone(&self) -> (r: Self)
        ensures
            r@ == self@,
    {
        Endpoint { component_id: self.component_id.clone(), port: copy_opt(&self.port) }
    }
}

/// The wish to create or update an edge.
#[derive(Debug, PartialEq, Eq)]
pub struct CanvasEdgePatch {
    pub id: EdgeId,
    pub from: Endpoint,
    pub to: Endpoint,
    pub kind: Option<String>,
    pub label: Option<String>,
    pub metadata: Json,
}

/// The wish to create or update an edge.
pub struct EdgePatchView {
    pub id: Seq<char>,
    pub from: EndpointView,
    pub to: EndpointView,
    pub kind: Option<Seq<char>>,
    pub label: Option<Seq<char>>,
    pub metadata: JsonView,
}

impl View for CanvasEdgePatch {
    type V = EdgePatchView;

    open spec fn view(&self) -> EdgePatchView {
        EdgePatchView {
            id: self.id@,
            from: self.from@,
            to: self.to@,
            kind: opt_chars(self.kind),
            label: opt_chars(self.label),
            metadata: self.metadata@,
        }
    }
}

impl Clone for CanvasEdgePatch {
    fn clone(&self) -> (r: Self)
        ensures
            r@ == self@,
    {
        CanvasEdgePatch {
            id: self.id.clone(),
            from: self.from.clone(),
            to: self.to.clone(),
            kind: copy_opt(&self.kind),
            label: copy_opt(&self.label),
            metadata: self.metadata.clone(),
        }
    }
}

/// What to focus.
#[derive(Clone, Debug, PartialEq, Eq)]
pub enum FocusTarget {
    Component { component_id: ComponentId },
    Edge { edge_id: EdgeId },
    Canvas,
}

/// What to focus.
pub enum FocusView {
    Component(Seq<char>),
    Edge(Seq<char>),
    Canvas,
}

impl View for FocusTarget {
    type V = FocusView;

    open spec fn view(&self) -> FocusView {
        match *self {
            FocusTarget::Component { component_id } => FocusView::Component(component_id@),
            FocusTarget::Edge { edge_id } => FocusView::Edge(edge_id@),
            FocusTarget::Canvas => FocusView::Canvas,
        }
    }
}

/// What to lay out.
#[derive(Clone, Debug, PartialEq, Eq)]
pub enum LayoutTarget {
    /// Every component.
    Canvas,
    /// The children of one component.
    Component { component_id: ComponentId },
    /// The components named.
    Components { ids: Vec<ComponentId> },
}

/// What to lay out.
pub enum LayoutTargetView {
    Canvas,
    Component(Seq<char>),
    Components(Seq<Seq<char>>),
}

impl View for LayoutTarget {
    type V = LayoutTargetView;

    open spec fn view(&self) -> LayoutTargetView {
        match *self {
            LayoutTarget::Canvas => LayoutTargetView::Canvas,
            LayoutTarget::Component { component_id } => LayoutTargetView::Component(component_id@),
            LayoutTarget::Components { ids } => LayoutTargetView::Components(id_views(ids@)),
        }
    }
}

/// How to lay components out. Names outside the known set are carried as they are.
#[derive(Clone, Debug, PartialEq, Eq)]
pub enum LayoutStrategy {
    Grid,
    Stack,
    Row,
    Column,
    Tree,
    Graph,
    Other(String),
}

/// How to lay components out.
pub enum StrategyView {
    Grid,
    Stack,
    Row,
    Column,
    Tree,
    Graph,
    Other(Seq<char>),
}

impl View for LayoutStrategy {
    type V = StrategyView;

    open spec fn view(&self) -> StrategyView {
        match *self {
            LayoutStrategy::Grid => StrategyView::Grid,
            LayoutStrategy::Stack => StrategyView::Stack,
            LayoutStrategy::Row => StrategyView::Row,
            LayoutStrategy::Column => StrategyView::Column,
            LayoutStrategy::Tree => StrategyView::Tree,
            LayoutStrategy::Graph => StrategyView::Graph,
            LayoutStrategy::Other(name) => StrategyView::Other(name@),
        }
    }
}

/// One change to a canvas.
#[allow(inconsistent_fields)]
#[derive(Clone, Debug, PartialEq, Eq)]
pub enum SurfacePatch {
    /// Create or update a component.
    UpsertComponent { component: CanvasComponentPatch },
    /// Move a component.
    MoveComponent { component_id: ComponentId, x: Coord, y: Coord },
    /// Resize a component.
    ResizeComponent { component_id: ComponentId, width: Coord, height: Coord },
    /// Delete a component.
    DeleteComponent { component_id: ComponentId },
    /// Create or update an edge.
    Connect { edge: CanvasEdgePatch },
    /// Remove an edge.
    Disconnect { edge_id: EdgeId },
    /// Focus a component, an edge or the canvas.
    Focus { target: FocusTarget },
    /// Replace the selection.
    Select { ids: Vec<ComponentId> },
    /// Set pan and zoom.
    SetViewport { viewport: Viewport },
    /// Lay components out.
    Layout { target: LayoutTarget, strategy: LayoutStrategy },
    /// Group components under a frame.
    Group { frame_id: ComponentId, children: Vec<ComponentId> },
}

/// One change to a canvas.
pub enum PatchView {
    Upsert(ComponentPatchView),
    Move(Seq<char>, Coord, Coord),
    Resize(Seq<char>, Coord, Coord),
    Delete(Seq<char>),
    Connect(EdgePatchView),
    Disconnect(Seq<char>),
    Focus(FocusView),
    Select(Seq<Seq<char>>),
    SetViewport(Viewport),
    Layout(LayoutTargetView, StrategyView),
    Group(Seq<char>, Seq<Seq<char>>),
}

impl View for SurfacePatch {
    type V = PatchView;

    open spec fn view(&self) -> PatchView {
        match *self {
            SurfacePatch::UpsertComponent { component } => PatchView::Upsert(component@),
            SurfacePatch::MoveComponent { component_id, x, y } => PatchView::Move(
                component_id@,
                x,
                y,
            ),
            SurfacePatch::ResizeComponent { component_id, width, height } => PatchView::Resize(
                component_id@,
                width,
                height,
            ),
            SurfacePatch::DeleteComponent { component_id } => PatchView::Delete(component_id@),
            SurfacePatch::Connect { edge } => PatchView::Connect(edge@),
            SurfacePatch::Disconnect { edge_id } => PatchView::Disconnect(edge_id@),
            SurfacePatch::Focus { target } => PatchView::Focus(target@),
            SurfacePatch::Select { ids } => PatchView::Select(id_views(ids@)),
            SurfacePatch::SetViewport { viewport } => PatchView::SetViewport(viewport),
            SurfacePatch::Layout { target, strategy } => PatchView::Layout(target@, strategy@),
            SurfacePatch::Group { frame_id, children } => PatchView::Group(
                frame_id@,
                id_views(children@),
            ),
        }
    }
}

impl PatchView {
    /// The one component that a patch contends for. Changes to edges, to the view
    /// and to many components at once contend for none.
    pub open spec fn target(self) -> Option<Seq<char>> {
        match self {
            PatchView::Upsert(c) => Some(c.id),
            PatchView::Move(id, _, _) => Some(id),
            PatchView::Resize(id, _, _) => Some(id),
            PatchView::Delete(id) => Some(id),
            _ => None,
        }
    }
}

impl SurfacePatch {
    /// The one component that this patch contends for; nothing where the change is to
    /// an edge, to the view or to many components at once.
    pub fn target_component(&self) -> (r: Option<&ComponentId>)
        ensures
            match self@.target() {
                Some(id) => r matches Some(c) && c@ == id,
                None => r is None,
            },
    {
        match self {
            SurfacePatch::UpsertComponent { component } => Some(&component.id),
            SurfacePatch::MoveComponent { component_id, .. } => Some(component_id),
            SurfacePatch::ResizeComponent { component_id, .. } => Some(component_id),
            SurfacePatch::DeleteComponent { component_id } => Some(component_id),
            SurfacePatch::Connect { .. } => None,
            SurfacePatch::Disconnect { .. } => None,
            SurfacePatch::Focus { .. } => None,
            SurfacePatch::Select { .. } => None,
            SurfacePatch::SetViewport { .. } => None,
            SurfacePatch::Layout { .. } => None,
            SurfacePatch::Group { .. } => None,
        }
    }
}

/// The version of one component's state: a logical revision and the actor that
/// made it.
#[derive(Debug, PartialEq, Eq, Hash, PartialOrd, Ord)]
pub struct ComponentVersion {
    pub rev: u64,
    pub actor: ActorId,
}

/// The version of one component's state.
pub struct VersionView {
    pub rev: u64,
    pub actor: Seq<char>,
}

impl View for ComponentVersion {
    type V = VersionView;

    open spec fn view(&self) -> VersionView {
        VersionView { rev: self.rev, actor: self.actor@ }
    }
}

impl Clone for ComponentVersion {
    fn clone(&self) -> (r: Self)
        ensures
            r@ == self@,
    {
        ComponentVersion { rev: self.rev, actor: self.actor.clone() }
    }
}

/// The order of versions: by revision, then by actor.
pub open spec fn version_less(a: VersionView, b: VersionView) -> bool {
    a.rev < b.rev || (a.rev == b.rev && chars_less(a.actor, b.actor))
}

impl ComponentVersion {
    /// The version of a revision and an actor.
    pub fn new(rev: u64, actor: ActorId) -> (r: Self)
        ensures
            r@ == (VersionView { rev, actor: actor@ }),
    {
        ComponentVersion { rev, actor }
    }

    /// Whether this version wins over another: a higher revision does, and on equal
    /// revisions the higher actor.
    pub fn supersedes(&self, other: &ComponentVersion) -> (r: bool)
        ensures
            r == version_less(other@, self@),
    {
        other.rev < self.rev || (other.rev == self.rev && str_less(
            other.actor.as_str(),
            self.actor.as_str(),
        ))
    }
}

/// A Lamport clock.
#[derive(Clone, Copy, Debug, PartialEq, Eq, Structural)]
pub struct LamportClock {
    counter: u64,
}

impl View for LamportClock {
    type V = u64;

    closed spec fn view(&self) -> u64 {
        self.counter
    }
}

impl Default for LamportClock {
    fn default() -> (r: Self)
        ensures
            r@ == 0,
    {
        LamportClock { counter: 0 }
    }
}

impl LamportClock {
    /// A clock at zero.
    pub fn new() -> (r: Self)
        ensures
            r@ == 0,
    {
        LamportClock { counter: 0 }
    }

    /// A clock at a given time.
    pub fn at(value: u64) -> (r: Self)
        ensures
            r@ == value,
    {
        LamportClock { counter: value }
    }

    /// The time now.
    pub fn now(&self) -> (r: u64)
        ensures
            r == self@,
    {
        self.counter
    }

    /// Advances for a local write and gives the new time.
    pub fn tick(&mut self) -> (r: u64)
        requires
            old(self)@ < u64::MAX,
        ensures
            r == old(self)@ + 1,
            final(self)@ == r,
    {
        self.counter = self.counter + 1;
        self.counter
    }

    /// Takes note of a revision seen elsewhere: the clock is at least that.
    pub fn observe(&mut self, remote_rev: u64) -> (r: u64)
        ensures
            r == if old(self)@ >= remote_rev {
                old(self)@
            } else {
                remote_rev
            },
            final(self)@ == r,
    {
        if self.counter < remote_rev {
            self.counter = remote_rev;
        }
        self.counter
    }
}

/// What became of a versioned write.
#[derive(Clone, Copy, Debug, PartialEq, Eq, Structural)]
pub enum MergeDecision {
    /// The write won; apply it.
    Applied,
    /// The write lost; skip it.
    Superseded,
}

impl MergeDecision {
    /// Whether the write won.
    pub fn applied(self) -> (r: bool)
        ensures
            r == (self is Applied),
    {
        match self {
            MergeDecision::Applied => true,
            MergeDecision::Superseded => false,
        }
    }
}

/// The winning version of every component, in the order of the component ids.
#[derive(Debug, PartialEq, Eq)]
pub struct CanvasMergeState {
    versions: Vec<(ComponentId, ComponentVersion)>,
}

/// The winning versions by component.
pub type Versions = Map<Seq<char>, VersionView>;

spec fn versions_map(s: Seq<(ComponentId, ComponentVersion)>) -> Versions
    decreases s.len(),
{
    if s.len() == 0 {
        Map::empty()
    } else {
        versions_map(s.drop_last()).insert(s.last().0@, s.last().1@)
    }
}

spec fn ascending(s: Seq<(ComponentId, ComponentVersion)>) -> bool {
    forall|i: int, j: int|
        #![trigger s[i], s[j]]
        0 <= i < j < s.len() ==> chars_less(s[i].0@, s[j].0@)
}

/// The versions after a write is offered for a component: it lands where there is
/// none yet or where it wins over the one that is there.
pub open spec fn merged(m: Versions, id: Seq<char>, incoming: VersionView) -> Versions {
    if m.contains_key(id) && !version_less(m[id], incoming) {
        m
    } else {
        m.insert(id, incoming)
    }
}

/// The versions after a list of writes.
pub open spec fn merged_all(m: Versions, writes: Seq<(Seq<char>, VersionView)>) -> Versions
    decreases writes.len(),
{
    if writes.len() == 0 {
        m
    } else {
        merged(merged_all(m, writes.drop_last()), writes.last().0, writes.last().1)
    }
}

/// Whether `r` is the highest revision among the versions, zero where there is none.
pub open spec fn is_max_rev(m: Versions, r: u64) -> bool {
    &&& forall|id: Seq<char>| #[trigger] m.contains_key(id) ==> m[id].rev <= r
    &&& r == 0 || exists|id: Seq<char>| #[trigger] m.contains_key(id) && m[id].rev == r
}

proof fn lemma_versions_map(s: Seq<(ComponentId, ComponentVersion)>)
    requires
        ascending(s),
    ensures
        versions_map(s).dom().finite(),
        versions_map(s).dom().len() == s.len(),
        forall|i: int|
            0 <= i < s.len() ==> versions_map(s).contains_pair((#[trigger] s[i]).0@, s[i].1@),
        forall|k: Seq<char>| #[trigger]
            versions_map(s).contains_key(k) ==> exists|i: int|
                0 <= i < s.len() && (#[trigger] s[i]).0@ == k,
    decreases s.len(),
{
    if s.len() > 0 {
        let p = s.drop_last();
        assert forall|i: int, j: int|
            #![trigger p[i], p[j]]
            0 <= i < j < p.len() implies chars_less(p[i].0@, p[j].0@) by {
            assert(s[i] == p[i] && s[j] == p[j]);
        }
        lemma_versions_map(p);
        assert(!versions_map(p).contains_key(s.last().0@)) by {
            if versions_map(p).contains_key(s.last().0@) {
                let i = choose|i: int| 0 <= i < p.len() && (#[trigger] p[i]).0@ == s.last().0@;
                assert(s[i].0@ == s[s.len() - 1].0@);
                lemma_chars_less_irreflexive(s[i].0@);
            }
        }
        assert forall|i: int| 0 <= i < s.len() implies versions_map(s).contains_pair(
            (#[trigger] s[i]).0@,
            s[i].1@,
        ) by {
            if i < s.len() - 1 {
                assert(p[i] == s[i]);
                assert(versions_map(p).contains_pair(p[i].0@, p[i].1@));
            }
        }
        assert forall|k: Seq<char>| #[trigger] versions_map(s).contains_key(k) implies exists|i: int|
            0 <= i < s.len() && (#[trigger] s[i]).0@ == k by {
            if k == s.last().0@ {
                assert(s[s.len() - 1].0@ == k);
            } else {
                assert(versions_map(p).contains_key(k));
                let i = choose|i: int| 0 <= i < p.len() && (#[trigger] p[i]).0@ == k;
                assert(s[i].0@ == k);
            }
        }
    }
}

impl View for CanvasMergeState {
    type V = Versions;

    closed spec fn view(&self) -> Versions {
        versions_map(self.versions@)
    }
}

impl Clone for CanvasMergeState {
    fn clone(&self) -> (r: Self)
        ensures
            self.wf() ==> r.wf() && r@ == self@,
    {
        let mut versions: Vec<(ComponentId, ComponentVersion)> = Vec::new();
        let mut i: usize = 0;
        while i < self.versions.len()
            invariant
                i <= self.versions@.len(),
                versions@.len() == i,
                forall|k: int|
                    0 <= k < i ==> (#[trigger] versions@[k]).0@ == self.versions@[k].0@
                        && versions@[k].1@ == self.versions@[k].1@,
            decreases self.versions@.len() - i,
        {
            versions.push((self.versions[i].0.clone(), self.versions[i].1.clone()));
            i = i + 1;
        }
        proof {
            if self.wf() {
                let (a, b) = (versions@, self.versions@);
                assert forall|i: int, j: int|
                    #![trigger a[i], a[j]]
                    0 <= i < j < a.len() implies chars_less(a[i].0@, a[j].0@) by {
                    assert(chars_less(b[i].0@, b[j].0@));
                }
                lemma_versions_map(a);
                lemma_versions_map(b);
                lemma_same_versions(a, b);
            }
        }
        CanvasMergeState { versions }
    }
}

proof fn lemma_same_versions(
    a: Seq<(ComponentId, ComponentVersion)>,
    b: Seq<(ComponentId, ComponentVersion)>,
)
    requires
        a.len() == b.len(),
        forall|k: int| 0 <= k < a.len() ==> (#[trigger] a[k]).0@ == b[k].0@ && a[k].1@ == b[k].1@,
    ensures
        versions_map(a) == versions_map(b),
    decreases a.len(),
{
    if a.len() > 0 {
        assert forall|k: int| 0 <= k < a.drop_last().len() implies (#[trigger] a.drop_last()[k]).0@
            == b.drop_last()[k].0@ && a.drop_last()[k].1@ == b.drop_last()[k].1@ by {
            assert(a[k].0@ == b[k].0@);
        }
        lemma_same_versions(a.drop_last(), b.drop_last());
        assert(a[a.len() - 1].0@ == b[b.len() - 1].0@);
    }
}

impl Default for CanvasMergeState {
    fn default() -> (r: Self)
        ensures
            r.wf(),
            r@ == Map::<Seq<char>, VersionView>::empty(),
    {
        CanvasMergeState::new()
    }
}

impl CanvasMergeState {
    /// Every component once, in the order of the ids.
    pub closed spec fn wf(self) -> bool {
        ascending(self.versions@)
    }

    /// No version at all.
    pub fn new() -> (r: Self)
        ensures
            r.wf(),
            r@ == Map::<Seq<char>, VersionView>::empty(),
    {
        CanvasMergeState { versions: Vec::new() }
    }

    /// The place of a component, or where it belongs.
    fn place(&self, id: &ComponentId) -> (r: (usize, bool))
        requires
            self.wf(),
        ensures
            r.0 <= self.versions@.len(),
            r.1 ==> r.0 < self.versions@.len() && self.versions@[r.0 as int].0@ == id@,
            r.1 == self@.contains_key(id@),
            forall|k: int|
                0 <= k < r.0 ==> chars_less((#[trigger] self.versions@[k]).0@, id@),
            !r.1 ==> forall|k: int|
                r.0 <= k < self.versions@.len() ==> chars_less(
                    id@,
                    (#[trigger] self.versions@[k]).0@,
                ),
    {
        proof {
            lemma_versions_map(self.versions@);
        }
        let mut i: usize = 0;
        while i < self.versions.len() && str_less(self.versions[i].0.as_str(), id.as_str())
            invariant
                i <= self.versions@.len(),
                forall|k: int|
                    0 <= k < i ==> chars_less((#[trigger] self.versions@[k]).0@, id@),
            decreases self.versions@.len() - i,
        {
            i = i + 1;
        }
        let found = i < self.versions.len() && str_eq(
            self.versions[i].0.as_str(),
            id.as_str(),
        );
        proof {
            let s = self.versions@;
            if !found {
                assert forall|k: int| i <= k < s.len() implies chars_less(
                    id@,
                    (#[trigger] s[k]).0@,
                ) by {
                    lemma_chars_less_total(s[i as int].0@, id@);
                    if i < k {
                        assert(chars_less(s[i as int].0@, s[k].0@));
                        lemma_chars_less_transitive(id@, s[i as int].0@, s[k].0@);
                    }
                }
                if self@.contains_key(id@) {
                    let k = choose|k: int| 0 <= k < s.len() && (#[trigger] s[k]).0@ == id@;
                    lemma_chars_less_irreflexive(id@);
                    if k < i {
                        assert(chars_less(s[k].0@, id@));
                    } else {
                        assert(chars_less(id@, s[k].0@));
                    }
                }
            } else {
                assert(versions_map(s).contains_pair(s[i as int].0@, s[i as int].1@));
            }
        }
        (i, found)
    }

    /// The winning version of a component, where a write has landed.
    pub fn version(&self, id: &ComponentId) -> (r: Option<&ComponentVersion>)
        requires
            self.wf(),
        ensures
            self@.contains_key(id@) ==> (r matches Some(v) && v@ == self@[id@]),
            !self@.contains_key(id@) ==> r is None,
    {
        let (i, found) = self.place(id);
        proof {
            lemma_versions_map(self.versions@);
        }
        if found {
            assert(versions_map(self.versions@).contains_pair(
                self.versions@[i as int].0@,
                self.versions@[i as int].1@,
            ));
            Some(&self.versions[i].1)
        } else {
            None
        }
    }

    /// The components that have a version, in the order of the ids.
    pub fn ids(&self) -> (ids: Vec<ComponentId>)
        requires
            self.wf(),
        ensures
            forall|k: Seq<char>| #[trigger]
                self@.contains_key(k) <==> exists|i: int|
                    0 <= i < ids@.len() && (#[trigger] ids@[i])@ == k,
            forall|i: int, j: int|
                #![trigger ids@[i], ids@[j]]
                0 <= i < j < ids@.len() ==> chars_less(ids@[i]@, ids@[j]@),
    {
        let mut ids: Vec<ComponentId> = Vec::new();
        let mut i: usize = 0;
        while i < self.versions.len()
            invariant
                i <= self.versions@.len(),
                ids@.len() == i,
                forall|k: int| 0 <= k < i ==> (#[trigger] ids@[k])@ == self.versions@[k].0@,
            decreases self.versions@.len() - i,
        {
            ids.push(self.versions[i].0.clone());
            i = i + 1;
        }
        proof {
            let s = self.versions@;
            lemma_versions_map(s);
            assert forall|k: Seq<char>| #[trigger] self@.contains_key(k) implies exists|i: int|
                0 <= i < ids@.len() && (#[trigger] ids@[i])@ == k by {
                let i = choose|i: int| 0 <= i < s.len() && (#[trigger] s[i]).0@ == k;
                assert(ids@[i]@ == k);
            }
            assert forall|k: Seq<char>|
                (exists|i: int| 0 <= i < ids@.len() && (#[trigger] ids@[i])@
                    == k) implies #[trigger] self@.contains_key(k) by {
                let i = choose|i: int| 0 <= i < ids@.len() && (#[trigger] ids@[i])@ == k;
                assert(versions_map(s).contains_pair(s[i].0@, s[i].1@));
            }
            assert forall|i: int, j: int|
                #![trigger ids@[i], ids@[j]]
                0 <= i < j < ids@.len() implies chars_less(ids@[i]@, ids@[j]@) by {
                assert(chars_less(s[i].0@, s[j].0@));
            }
        }
        ids
    }

    /// How many components have a version.
    pub fn len(&self) -> (n: usize)
        requires
            self.wf(),
        ensures
            n == self@.dom().len(),
            self@.dom().finite(),
    {
        proof {
            lemma_versions_map(self.versions@);
        }
        self.versions.len()
    }

    /// Whether no component has a version.
    pub fn is_empty(&self) -> (r: bool)
        requires
            self.wf(),
        ensures
            r == (self@ == Map::<Seq<char>, VersionView>::empty()),
    {
        proof {
            lemma_versions_map(self.versions@);
            if self.versions@.len() > 0 {
                assert(versions_map(self.versions@).contains_pair(
                    self.versions@[0].0@,
                    self.versions@[0].1@,
                ));
            }
        }
        self.versions.len() == 0
    }

    /// Offers a write for a component. It lands, and its version is the winning one
    /// from now on, where there is none yet or where it wins over the one that is
    /// there.
    pub fn merge(&mut self, id: &ComponentId, incoming: ComponentVersion) -> (r: MergeDecision)
        requires
            old(self).wf(),
        ensures
            final(self).wf(),
            final(self)@ == merged(old(self)@, id@, incoming@),
            r is Superseded <==> old(self)@.contains_key(id@) && !version_less(
                old(self)@[id@],
                incoming@,
            ),
    {
        let (i, found) = self.place(id);
        let ghost before = self.versions@;
        proof {
            lemma_versions_map(before);
        }
        if found {
            assert(versions_map(before).contains_pair(
                before[i as int].0@,
                before[i as int].1@,
            ));
            if !incoming.supersedes(&self.versions[i].1) {
                return MergeDecision::Superseded;
            }
            let ghost v = incoming@;
            self.versions[i] = (id.clone(), incoming);
            proof {
                let after = self.versions@;
                assert forall|a: int, b: int|
                    #![trigger after[a], after[b]]
                    0 <= a < b < after.len() implies chars_less(after[a].0@, after[b].0@) by {
                    assert(chars_less(before[a].0@, before[b].0@));
                }
                lemma_versions_map(after);
                assert forall|k: Seq<char>| versions_map(after).contains_key(k) == versions_map(
                    before,
                ).insert(id@, v).contains_key(k) by {
                    if versions_map(after).contains_key(k) {
                        let a = choose|a: int| 0 <= a < after.len() && (#[trigger] after[a]).0@ == k;
                        assert(versions_map(before).contains_pair(before[a].0@, before[a].1@));
                    }
                    if versions_map(before).contains_key(k) {
                        let a = choose|a: int|
                            0 <= a < before.len() && (#[trigger] before[a]).0@ == k;
                        assert(versions_map(after).contains_pair(after[a].0@, after[a].1@));
                    }
                    assert(versions_map(after).contains_pair(
                        after[i as int].0@,
                        after[i as int].1@,
                    ));
                }
                assert forall|k: Seq<char>|
                    versions_map(after).contains_key(k) implies #[trigger] versions_map(after)[k]
                    == versions_map(before).insert(id@, v)[k] by {
                    let a = choose|a: int| 0 <= a < after.len() && (#[trigger] after[a]).0@ == k;
                    assert(versions_map(after).contains_pair(after[a].0@, after[a].1@));
                    assert(versions_map(before).contains_pair(before[a].0@, before[a].1@));
                    if a != i {
                        if a < i {
                            assert(chars_less(before[a].0@, before[i as int].0@));
                        } else {
                            assert(chars_less(before[i as int].0@, before[a].0@));
                        }
                        lemma_chars_less_irreflexive(k);
                    }
                }
                assert(versions_map(after) =~= versions_map(before).insert(id@, v));
            }
        } else {
            let ghost v = incoming@;
            self.versions.insert(i, (id.clone(), incoming));
            proof {
                let after = self.versions@;
                assert forall|a: int, b: int|
                    #![trigger after[a], after[b]]
                    0 <= a < b < after.len() implies chars_less(after[a].0@, after[b].0@) by {
                    let x = if a < i {
                        a
                    } else {
                        a - 1
                    };
                    let y = if b < i {
                        b
                    } else {
                        b - 1
                    };
                    if a != i && b != i {
                        assert(before[x] == after[a] && before[y] == after[b]);
                        assert(chars_less(before[x].0@, before[y].0@));
                    } else if a == i {
                        assert(before[y] == after[b]);
                    } else {
                        assert(before[x] == after[a]);
                    }
                }
                lemma_versions_map(after);
                assert forall|k: Seq<char>| versions_map(after).contains_key(k) == versions_map(
                    before,
                ).insert(id@, v).contains_key(k) by {
                    if versions_map(after).contains_key(k) {
                        let a = choose|a: int| 0 <= a < after.len() && (#[trigger] after[a]).0@ == k;
                        if a != i {
                            let x = if a < i {
                                a
                            } else {
                                a - 1
                            };
                            assert(before[x] == after[a]);
                            assert(versions_map(before).contains_pair(before[x].0@, before[x].1@));
                        }
                    }
                    if versions_map(before).contains_key(k) {
                        let a = choose|a: int|
                            0 <= a < before.len() && (#[trigger] before[a]).0@ == k;
                        let x = if a < i {
                            a
                        } else {
                            a + 1
                        };
                        assert(before[a] == after[x]);
                        assert(versions_map(after).contains_pair(after[x].0@, after[x].1@));
                    }
                    assert(versions_map(after).contains_pair(
                        after[i as int].0@,
                        after[i as int].1@,
                    ));
                }
                assert forall|k: Seq<char>|
                    versions_map(after).contains_key(k) implies #[trigger] versions_map(after)[k]
                    == versions_map(before).insert(id@, v)[k] by {
                    let a = choose|a: int| 0 <= a < after.len() && (#[trigger] after[a]).0@ == k;
                    assert(versions_map(after).contains_pair(after[a].0@, after[a].1@));
                    if a != i {
                        let x = if a < i {
                            a
                        } else {
                            a - 1
                        };
                        assert(before[x] == after[a]);
                        assert(versions_map(before).contains_pair(before[x].0@, before[x].1@));
                    }
                }
                assert(versions_map(after) =~= versions_map(before).insert(id@, v));
            }
        }
        MergeDecision::Applied
    }

    /// The highest revision of all components, zero where there is none.
    pub fn max_rev(&self) -> (r: u64)
        requires
            self.wf(),
        ensures
            is_max_rev(self@, r),
    {
        let mut max: u64 = 0;
        let mut i: usize = 0;
        while i < self.versions.len()
            invariant
                i <= self.versions@.len(),
                forall|k: int| 0 <= k < i ==> (#[trigger] self.versions@[k]).1.rev <= max,
                max == 0 || exists|k: int|
                    0 <= k < i && (#[trigger] self.versions@[k]).1.rev == max,
            decreases self.versions@.len() - i,
        {
            if self.versions[i].1.rev > max {
                max = self.versions[i].1.rev;
                assert(self.versions@[i as int].1.rev == max);
            }
            i = i + 1;
        }
        proof {
            let s = self.versions@;
            lemma_versions_map(s);
            assert forall|id: Seq<char>| #[trigger] self@.contains_key(id) implies self@[id].rev
                <= max by {
                let k = choose|k: int| 0 <= k < s.len() && (#[trigger] s[k]).0@ == id;
                assert(versions_map(s).contains_pair(s[k].0@, s[k].1@));
            }
            if max != 0 {
                let k = choose|k: int| 0 <= k < s.len() && (#[trigger] s[k]).1.rev == max;
                assert(versions_map(s).contains_pair(s[k].0@, s[k].1@));
                assert(self@.contains_key(s[k].0@));
            }
        }
        max
    }
}

/// A patch with its context, as it is logged and sent around.
#[derive(Clone, Debug, PartialEq, Eq)]
pub struct SurfacePatchEnvelope {
    pub patch_id: PatchId,
    pub session_id: String,
    pub surface_id: SurfaceId,
    pub canvas_id: CanvasId,
    pub actor: ActorRef,
    pub created_at_ms: i64,
    pub patch: SurfacePatch,
    pub version: Option<ComponentVersion>,
}

/// A patch with its context.
pub struct EnvelopeView {
    pub patch_id: Seq<char>,
    pub session_id: Seq<char>,
    pub surface_id: Seq<char>,
    pub canvas_id: Seq<char>,
    pub actor: ActorView,
    pub created_at_ms: i64,
    pub patch: PatchView,
    pub version: Option<VersionView>,
}

impl View for SurfacePatchEnvelope {
    type V = EnvelopeView;

    open spec fn view(&self) -> EnvelopeView {
        EnvelopeView {
            patch_id: self.patch_id@,
            session_id: self.session_id@,
            surface_id: self.surface_id@,
            canvas_id: self.canvas_id@,
            actor: self.actor@,
            created_at_ms: self.created_at_ms,
            patch: self.patch@,
            version: match self.version {
                Some(v) => Some(v@),
                None => None,
            },
        }
    }
}

/// No version wins over itself.
pub proof fn law_version_irreflexive(a: VersionView)
    ensures
        !version_less(a, a),
{
    lemma_chars_less_irreflexive(a.actor);
}

/// What wins over the winner wins over the loser.
pub proof fn law_version_transitive(a: VersionView, b: VersionView, c: VersionView)
    requires
        version_less(a, b),
        version_less(b, c),
    ensures
        version_less(a, c),
{
    if a.rev == b.rev && b.rev == c.rev {
        lemma_chars_less_transitive(a.actor, b.actor, c.actor);
    }
}

/// Of two different versions exactly one wins.
pub proof fn law_version_total(a: VersionView, b: VersionView)
    ensures
        a == b || version_less(a, b) || version_less(b, a),
        !(version_less(a, b) && version_less(b, a)),
{
    lemma_chars_less_total(a.actor, b.actor);
    if version_less(a, b) && version_less(b, a) {
        law_version_transitive(a, b, a);
        law_version_irreflexive(a);
    }
}

/// Whether a version was there before or among the writes of a component.
pub open spec fn offered(
    m: Versions,
    writes: Seq<(Seq<char>, VersionView)>,
    id: Seq<char>,
    v: VersionView,
) -> bool {
    m.contains_pair(id, v) || writes.contains((id, v))
}

/// After any list of writes a component has a version exactly where one was
/// offered, and that version is one of those and wins over all the others.
pub proof fn law_highest_version_wins(
    m: Versions,
    writes: Seq<(Seq<char>, VersionView)>,
    id: Seq<char>,
)
    ensures
        merged_all(m, writes).contains_key(id) <==> exists|v: VersionView|
            #[trigger] offered(m, writes, id, v),
        merged_all(m, writes).contains_key(id) ==> offered(
            m,
            writes,
            id,
            merged_all(m, writes)[id],
        ),
        forall|v: VersionView| #[trigger]
            offered(m, writes, id, v) ==> !version_less(merged_all(m, writes)[id], v),
    decreases writes.len(),
{
    let result = merged_all(m, writes);
    if writes.len() == 0 {
        assert forall|v: VersionView| #[trigger] offered(m, writes, id, v) implies !version_less(
            result[id],
            v,
        ) by {
            law_version_irreflexive(v);
        }
        if m.contains_key(id) {
            assert(offered(m, writes, id, m[id]));
        }
    } else {
        let init = writes.drop_last();
        let (last_id, last) = writes.last();
        let before = merged_all(m, init);
        law_highest_version_wins(m, init, id);
        assert forall|v: VersionView| offered(m, init, id, v) implies #[trigger] offered(
            m,
            writes,
            id,
            v,
        ) by {
            if init.contains((id, v)) {
                let k = choose|k: int| 0 <= k < init.len() && init[k] == (id, v);
                assert(writes[k] == (id, v));
            }
        }
        assert forall|v: VersionView| #[trigger] offered(m, writes, id, v) implies offered(
            m,
            init,
            id,
            v,
        ) || (last_id == id && last == v) by {
            if writes.contains((id, v)) {
                let k = choose|k: int| 0 <= k < writes.len() && writes[k] == (id, v);
                if k < init.len() {
                    assert(init[k] == (id, v));
                }
            }
        }
        if last_id == id {
            assert(writes[writes.len() - 1] == (id, last));
            assert(offered(m, writes, id, last));
            assert forall|v: VersionView| #[trigger] offered(m, writes, id, v) implies !version_less(
                result[id],
                v,
            ) by {
                law_version_irreflexive(v);
                if before.contains_key(id) && !version_less(before[id], last) {
                    if offered(m, init, id, v) {
                        assert(!version_less(before[id], v));
                    }
                } else if before.contains_key(id) && offered(m, init, id, v) {
                    assert(!version_less(before[id], v));
                    law_version_total(before[id], v);
                    if version_less(last, v) {
                        law_version_transitive(before[id], last, v);
                    }
                } else if offered(m, init, id, v) {
                    assert(before.contains_key(id));
                }
            }
        } else {
            assert(result.contains_key(id) == before.contains_key(id));
            assert(before.contains_key(id) ==> result[id] == before[id]);
            if exists|v: VersionView| #[trigger] offered(m, writes, id, v) {
                let v = choose|v: VersionView| #[trigger] offered(m, writes, id, v);
                assert(offered(m, init, id, v));
            }
        }
        if result.contains_key(id) {
            assert(offered(m, writes, id, result[id]));
        }
    }
}

/// Two replicas that saw the same writes agree, in whatever order and however often
/// each write arrived.
pub proof fn law_merge_converges(
    m: Versions,
    a: Seq<(Seq<char>, VersionView)>,
    b: Seq<(Seq<char>, VersionView)>,
)
    requires
        forall|w: (Seq<char>, VersionView)| a.contains(w) <==> b.contains(w),
    ensures
        merged_all(m, a) == merged_all(m, b),
{
    assert forall|id: Seq<char>| #[trigger]
        merged_all(m, a).contains_key(id) == merged_all(m, b).contains_key(id) && (merged_all(
            m,
            a,
        ).contains_key(id) ==> merged_all(m, a)[id] == merged_all(m, b)[id]) by {
        law_highest_version_wins(m, a, id);
        law_highest_version_wins(m, b, id);
        assert forall|v: VersionView| offered(m, a, id, v) == offered(m, b, id, v) by {
            assert(a.contains((id, v)) <==> b.contains((id, v)));
        }
        if merged_all(m, a).contains_key(id) {
            let x = merged_all(m, a)[id];
            assert(offered(m, b, id, x));
            let y = merged_all(m, b)[id];
            assert(offered(m, a, id, y));
            law_version_total(x, y);
        }
        if merged_all(m, b).contains_key(id) {
            assert(offered(m, a, id, merged_all(m, b)[id]));
        }
    }
    assert(merged_all(m, a) =~= merged_all(m, b));
}

/// Offering two writes in either order leads to the same versions.
pub proof fn law_merge_commutes(
    m: Versions,
    id1: Seq<char>,
    v1: VersionView,
    id2: Seq<char>,
    v2: VersionView,
)
    ensures
        merged(merged(m, id1, v1), id2, v2) == merged(merged(m, id2, v2), id1, v1),
{
    law_version_total(v1, v2);
    if id1 == id2 {
        if m.contains_key(id1) {
            law_version_total(m[id1], v1);
            law_version_total(m[id1], v2);
            if version_less(m[id1], v1) && version_less(v1, v2) {
                law_version_transitive(m[id1], v1, v2);
            }
            if version_less(m[id1], v2) && version_less(v2, v1) {
                law_version_transitive(m[id1], v2, v1);
            }
        }
        law_version_irreflexive(v1);
    }
    assert(merged(merged(m, id1, v1), id2, v2) =~= merged(merged(m, id2, v2), id1, v1));
}

/// Offering a write a second time changes nothing.
pub proof fn law_merge_idempotent(m: Versions, id: Seq<char>, v: VersionView)
    ensures
        merged(merged(m, id, v), id, v) == merged(m, id, v),
{
    law_version_irreflexive(v);
}

/// A write to one component leaves the others alone.
pub proof fn law_merge_touches_one_component(
    m: Versions,
    id: Seq<char>,
    v: VersionView,
    other: Seq<char>,
)
    requires
        other != id,
    ensures
        merged(m, id, v).contains_key(other) == m.contains_key(other),
        m.contains_key(other) ==> merged(m, id, v)[other] == m[other],
{
}

/// A version stamped one past a clock that has seen every revision wins everywhere.
pub proof fn law_local_write_wins(m: Versions, seen: u64, id: Seq<char>, stamp: VersionView)
    requires
        forall|k: Seq<char>| #[trigger] m.contains_key(k) ==> m[k].rev <= seen,
        stamp.rev > seen,
    ensures
        merged(m, id, stamp) == m.insert(id, stamp),
{
}

/// Coordinates compare as the numbers that they stand for: zero has two signs, and what is no
/// number is the same as nothing.
pub proof fn law_coordinates_compare_as_numbers(a: Coord, b: Coord)
    ensures
        same_coord(a, b) <==> same_coord(b, a),
        a.0 <= 0x7f80_0000 ==> same_coord(a, a),
        same_coord(Coord(0), Coord(0x8000_0000)),
        0x7f80_0000 < a.0 < 0x8000_0000 ==> !same_coord(a, b),
        a.0 > 0xff80_0000 ==> !same_coord(a, b),
        0 < a.0 < b.0 <= 0x7f80_0000 ==> !same_coord(a, b),
{
}

/// An actor goes by its kind, with its id behind a colon where it has one.
pub proof fn law_actor_goes_by_kind_and_id(actor: ActorView)
    ensures
        actor.kind.is_prefix_of(actor_id_of(actor)),
        actor.id is None ==> actor_id_of(actor) == actor.kind,
        actor.id matches Some(id) ==> actor_id_of(actor)[actor.kind.len() as int] == ':'
            && actor_id_of(actor).skip(actor.kind.len() as int + 1) == id,
{
    if let Some(id) = actor.id {
        assert(actor_id_of(actor).skip(actor.kind.len() as int + 1) =~= id);
    }
}

} // verus!
