//! The surface: its panes, and the canvases that they show.

use vstd::prelude::*;

use crate::json::{Json, JsonNumber};
use crate::shell::canvas::patch::Coord;
use crate::shell::daemon::{percent_encode_path_segment, push_encoded_byte};
use crate::sorted_map::SortedMap;
use crate::text::{
    chars_of, concat2, copy_opt, copy_str, copy_texts, decimal_text, is_blank, str_eq,
};

verus! {

broadcast use vstd::string::group_string_axioms;

use crate::json::{json_view, JsonView};
use crate::ordered_map::lemma_filter_step;
use crate::shell::daemon::{encoded_byte, path_segment};
use crate::sorted_map::{
    has_key, keys_ascend, lemma_key_at, lemma_slot_of, lemma_slot_same_keys,
    lemma_with_value_ascends, slot_of, value_under, with_value, without_value,
};
use crate::text::{blank, chars_less, decimal, lemma_decimal_round_trip, opt_chars, texts};

pub const DEFAULT_SURFACE_SESSION_ID: &'static str = "surface:main";

pub const DEFAULT_CANVAS_ID: &'static str = "canvas:main";

pub const DEFAULT_TLDRAW_ROOM_ID: &'static str = "ocean-surface-main";

pub const DEFAULT_LIVEKIT_ROOM_ID: &'static str = "project:surface-main";

/// The bit pattern of the width that a new component has, 240.
pub const DEFAULT_COMPONENT_WIDTH: u32 = 0x4370_0000;

/// The bit pattern of the height that a new component has, 160.
pub const DEFAULT_COMPONENT_HEIGHT: u32 = 0x4320_0000;

/// How many columns a search for a free place walks before it goes to the next row.
pub const SLOT_SCAN_COLUMNS: usize = 6;

/// How many rows a search for a free place walks before it gives up.
pub const SLOT_SCAN_ROWS: usize = 128;

/// What a pane shows.
#[derive(Clone, Copy, Debug, PartialEq, Eq, Structural)]
pub enum SurfacePaneKind {
    TldrawCanvas,
    AgentTranscript,
    Notes,
}

/// What a canvas is for.
#[derive(Clone, Copy, Debug, PartialEq, Eq, Structural)]
pub enum SurfaceMode {
    General,
    WorkflowBuilder,
    Storyboard,
    CampaignBoard,
}

/// Where a pane stands.
#[derive(Clone, Copy, Debug, PartialEq, Eq, Structural)]
pub enum PaneDock {
    Full,
    Left,
    Right,
    Detached,
}

/// A pane.
#[derive(Clone, Debug, PartialEq, Eq)]
pub struct SurfacePane {
    pub pane_id: String,
    pub title: String,
    pub kind: SurfacePaneKind,
    pub canvas_id: Option<String>,
    pub tldraw_room_id: Option<String>,
    pub attached: bool,
    pub dock: PaneDock,
}

/// A pane.
#[verifier::ext_equal]
pub struct PaneView {
    pub pane_id: Seq<char>,
    pub title: Seq<char>,
    pub kind: SurfacePaneKind,
    pub canvas_id: Option<Seq<char>>,
    pub tldraw_room_id: Option<Seq<char>>,
    pub attached: bool,
    pub dock: PaneDock,
}

impl View for SurfacePane {
    type V = PaneView;

    open spec fn view(&self) -> PaneView {
        PaneView {
            pane_id: self.pane_id@,
            title: self.title@,
            kind: self.kind,
            canvas_id: opt_chars(self.canvas_id),
            tldraw_room_id: opt_chars(self.tldraw_room_id),
            attached: self.attached,
            dock: self.dock,
        }
    }
}

/// A pane that shows a canvas.
pub open spec fn canvas_pane(
    pane_id: Seq<char>,
    title: Seq<char>,
    canvas_id: Seq<char>,
    tldraw_room_id: Seq<char>,
    dock: PaneDock,
) -> PaneView {
    PaneView {
        pane_id,
        title,
        kind: SurfacePaneKind::TldrawCanvas,
        canvas_id: Some(canvas_id),
        tldraw_room_id: Some(tldraw_room_id),
        attached: true,
        dock,
    }
}

impl SurfacePane {
    /// A pane that shows a canvas.
    #[must_use]
    pub fn tldraw_canvas(
        pane_id: String,
        title: String,
        canvas_id: String,
        tldraw_room_id: String,
        dock: PaneDock,
    ) -> (r: Self)
        ensures
            r@ == canvas_pane(pane_id@, title@, canvas_id@, tldraw_room_id@, dock),
    {
        SurfacePane {
            pane_id,
            title,
            kind: SurfacePaneKind::TldrawCanvas,
            canvas_id: Some(canvas_id),
            tldraw_room_id: Some(tldraw_room_id),
            attached: true,
            dock,
        }
    }
}

/// A rectangle on a canvas.
#[derive(Clone, Copy, Debug, PartialEq, Eq, Structural)]
pub struct ComponentRect {
    pub x: Coord,
    pub y: Coord,
    pub width: Coord,
    pub height: Coord,
}

/// A component on a canvas.
#[derive(Debug, PartialEq, Eq)]
pub struct LedgerComponent {
    pub id: String,
    pub component_type: String,
    pub x: Coord,
    pub y: Coord,
    pub width: Coord,
    pub height: Coord,
    pub content: Json,
    pub metadata: Json,
    pub connections: Vec<String>,
}

/// A component on a canvas.
#[verifier::ext_equal]
pub struct SurfaceComponentView {
    pub id: Seq<char>,
    pub component_type: Seq<char>,
    pub rect: ComponentRect,
    pub content: JsonView,
    pub metadata: JsonView,
    pub connections: Seq<Seq<char>>,
}

impl View for LedgerComponent {
    type V = SurfaceComponentView;

    open spec fn view(&self) -> SurfaceComponentView {
        SurfaceComponentView {
            id: self.id@,
            component_type: self.component_type@,
            rect: ComponentRect { x: self.x, y: self.y, width: self.width, height: self.height },
            content: self.content@,
            metadata: self.metadata@,
            connections: texts(self.connections@),
        }
    }
}

impl Clone for LedgerComponent {
    fn clone(&self) -> (r: Self)
        ensures
            r@ == self@,
    {
        LedgerComponent {
            id: self.id.clone(),
            component_type: self.component_type.clone(),
            x: self.x,
            y: self.y,
            width: self.width,
            height: self.height,
            content: self.content.clone(),
            metadata: self.metadata.clone(),
            connections: copy_texts(&self.connections),
        }
    }
}

impl LedgerComponent {
    /// A card with a text.
    #[must_use]
    pub fn markdown_card(id: String, x: Coord, y: Coord, text: String) -> (r: Self)
        ensures
            r@ == (SurfaceComponentView {
                id: id@,
                component_type: "markdown_card"@,
                rect: ComponentRect {
                    x,
                    y,
                    width: Coord(DEFAULT_COMPONENT_WIDTH),
                    height: Coord(DEFAULT_COMPONENT_HEIGHT),
                },
                content: JsonView::Object(seq![("text"@, JsonView::Text(text@))]),
                metadata: JsonView::Object(Seq::empty()),
                connections: Seq::empty(),
            }),
    {
        let ghost t = text@;
        let mut members: Vec<(String, Json)> = Vec::new();
        members.push((copy_str("text"), Json::Text(text)));
        let content = Json::Object(members);
        let metadata = Json::Object(Vec::new());
        let connections: Vec<String> = Vec::new();
        proof {
            reveal_with_fuel(json_view, 2);
            assert(content@->Object_0 =~= seq![("text"@, JsonView::Text(t))]);
            assert(metadata@->Object_0 =~= Seq::empty());
            assert(texts(connections@) =~= Seq::empty());
        }
        LedgerComponent {
            id,
            component_type: copy_str("markdown_card"),
            x,
            y,
            width: Coord(DEFAULT_COMPONENT_WIDTH),
            height: Coord(DEFAULT_COMPONENT_HEIGHT),
            content,
            metadata,
            connections,
        }
    }

    /// Where the component stands.
    #[must_use]
    pub fn rect(&self) -> (r: ComponentRect)
        ensures
            r == self@.rect,
    {
        ComponentRect { x: self.x, y: self.y, width: self.width, height: self.height }
    }
}

/// A canvas: its components by id, and what is selected.
#[derive(Debug)]
pub struct SurfaceLedger {
    pub canvas_id: String,
    pub tldraw_room_id: String,
    pub mode: SurfaceMode,
    pub revision: u64,
    pub components: SortedMap<LedgerComponent>,
    pub selection: Vec<String>,
    pub metadata: Json,
}

/// A canvas.
#[verifier::ext_equal]
pub struct SurfaceLedgerView {
    pub canvas_id: Seq<char>,
    pub tldraw_room_id: Seq<char>,
    pub mode: SurfaceMode,
    pub revision: u64,
    pub components: Seq<(Seq<char>, SurfaceComponentView)>,
    pub selection: Seq<Seq<char>>,
    pub metadata: JsonView,
}

/// The views of components by id.
pub open spec fn component_views(entries: Seq<(Seq<char>, LedgerComponent)>) -> Seq<
    (Seq<char>, SurfaceComponentView),
> {
    Seq::new(entries.len(), |i: int| (entries[i].0, entries[i].1@))
}

impl View for SurfaceLedger {
    type V = SurfaceLedgerView;

    open spec fn view(&self) -> SurfaceLedgerView {
        SurfaceLedgerView {
            canvas_id: self.canvas_id@,
            tldraw_room_id: self.tldraw_room_id@,
            mode: self.mode,
            revision: self.revision,
            components: component_views(self.components.entries()),
            selection: texts(self.selection@),
            metadata: self.metadata@,
        }
    }
}

/// What a canvas says of its grid: 24 wide, and things snap to it.
pub open spec fn grid_metadata() -> JsonView {
    JsonView::Object(
        seq![
            ("grid_size"@, JsonView::Number("24"@, Some(24))),
            ("snap_to"@, JsonView::Text("grid"@)),
        ],
    )
}

/// A canvas without components.
pub open spec fn empty_canvas(
    canvas_id: Seq<char>,
    tldraw_room_id: Seq<char>,
    mode: SurfaceMode,
) -> SurfaceLedgerView {
    SurfaceLedgerView {
        canvas_id,
        tldraw_room_id,
        mode,
        revision: 0,
        components: Seq::empty(),
        selection: Seq::empty(),
        metadata: grid_metadata(),
    }
}

/// A canvas with a component put on it, in the place of one with the same id.
pub open spec fn with_component(
    canvas: SurfaceLedgerView,
    component: SurfaceComponentView,
) -> SurfaceLedgerView {
    SurfaceLedgerView {
        components: with_value(canvas.components, component.id, component),
        revision: (canvas.revision + 1) as u64,
        ..canvas
    }
}

proof fn lemma_component_views(
    entries: Seq<(Seq<char>, LedgerComponent)>,
    key: Seq<char>,
    value: LedgerComponent,
)
    ensures
        slot_of(component_views(entries), key) == slot_of(entries, key),
        has_key(component_views(entries), key) == has_key(entries, key),
        component_views(with_value(entries, key, value)) == with_value(
            component_views(entries),
            key,
            value@,
        ),
        component_views(without_value(entries, key)) == without_value(
            component_views(entries),
            key,
        ),
{
    lemma_slot_same_keys(component_views(entries), entries, key);
    lemma_slot_of(entries, key);
    assert(component_views(with_value(entries, key, value)) =~= with_value(
        component_views(entries),
        key,
        value@,
    ));
    assert(component_views(without_value(entries, key)) =~= without_value(
        component_views(entries),
        key,
    ));
}

impl SurfaceLedger {
    /// Whether the components are kept in order.
    pub open spec fn wf(self) -> bool {
        self.components.wf()
    }

    /// A canvas without components.
    #[must_use]
    pub fn new(canvas_id: &str, tldraw_room_id: &str, mode: SurfaceMode) -> (r: Self)
        ensures
            r.wf(),
            r@ == empty_canvas(canvas_id@, tldraw_room_id@, mode),
    {
        let mut members: Vec<(String, Json)> = Vec::new();
        members.push(
            (
                copy_str("grid_size"),
                Json::Number(JsonNumber { text: copy_str("24"), unsigned: Some(24) }),
            ),
        );
        members.push((copy_str("snap_to"), Json::Text(copy_str("grid"))));
        let metadata = Json::Object(members);
        let r = SurfaceLedger {
            canvas_id: copy_str(canvas_id),
            tldraw_room_id: copy_str(tldraw_room_id),
            mode,
            revision: 0,
            components: SortedMap::new(),
            selection: Vec::new(),
            metadata,
        };
        proof {
            reveal_with_fuel(json_view, 2);
            assert(r.metadata@->Object_0 =~= grid_metadata()->Object_0);
            assert(r@.components =~= Seq::empty());
            assert(r@.selection =~= Seq::empty());
        }
        r
    }

    /// Puts a component on the canvas, in the place of one with the same id.
    pub fn upsert_component(&mut self, component: LedgerComponent)
        requires
            old(self).wf(),
            old(self).revision < u64::MAX,
        ensures
            final(self).wf(),
            final(self)@ == with_component(old(self)@, component@),
    {
        let ghost before = self.components.entries();
        proof {
            lemma_component_views(before, component.id@, component);
        }
        self.components.insert(component.id.clone(), component);
        self.revision = self.revision + 1;
    }
}

/// The cell after one in the search for a free place: row by row, left to right;
/// nothing after the last.
#[must_use]
pub fn next_cell(row: usize, column: usize) -> (r: Option<(usize, usize)>)
    requires
        row < SLOT_SCAN_ROWS,
        column < SLOT_SCAN_COLUMNS,
    ensures
        match r {
            Some((next_row, next_column)) => next_row < SLOT_SCAN_ROWS && next_column
                < SLOT_SCAN_COLUMNS && next_row * SLOT_SCAN_COLUMNS + next_column == row
                * SLOT_SCAN_COLUMNS + column + 1,
            None => row * SLOT_SCAN_COLUMNS + column + 1 == SLOT_SCAN_ROWS * SLOT_SCAN_COLUMNS,
        },
{
    if column + 1 < SLOT_SCAN_COLUMNS {
        Some((row, column + 1))
    } else if row + 1 < SLOT_SCAN_ROWS {
        Some((row + 1, 0))
    } else {
        None
    }
}

/// A pane, as an agent is told of it.
#[derive(Debug, PartialEq, Eq)]
pub struct SurfacePaneContext {
    pub pane_id: String,
    pub title: String,
    pub kind: SurfacePaneKind,
    pub canvas_id: Option<String>,
    pub dock: PaneDock,
}

/// A pane, as an agent is told of it.
pub struct PaneContextView {
    pub pane_id: Seq<char>,
    pub title: Seq<char>,
    pub kind: SurfacePaneKind,
    pub canvas_id: Option<Seq<char>>,
    pub dock: PaneDock,
}

impl View for SurfacePaneContext {
    type V = PaneContextView;

    open spec fn view(&self) -> PaneContextView {
        PaneContextView {
            pane_id: self.pane_id@,
            title: self.title@,
            kind: self.kind,
            canvas_id: opt_chars(self.canvas_id),
            dock: self.dock,
        }
    }
}

/// What an agent is told of a pane.
pub open spec fn pane_context(pane: PaneView) -> PaneContextView {
    PaneContextView {
        pane_id: pane.pane_id,
        title: pane.title,
        kind: pane.kind,
        canvas_id: pane.canvas_id,
        dock: pane.dock,
    }
}

impl SurfacePaneContext {
    /// What an agent is told of a pane.
    #[must_use]
    pub fn from_pane(pane: &SurfacePane) -> (r: Self)
        ensures
            r@ == pane_context(pane@),
    {
        SurfacePaneContext {
            pane_id: pane.pane_id.clone(),
            title: pane.title.clone(),
            kind: pane.kind,
            canvas_id: copy_opt(&pane.canvas_id),
            dock: pane.dock,
        }
    }
}

/// A canvas, as an agent is told of it.
#[derive(Debug, PartialEq, Eq)]
pub struct SurfaceCanvasContext {
    pub canvas_id: String,
    pub tldraw_room_id: String,
    pub mode: SurfaceMode,
    pub revision: u64,
    pub components: Vec<LedgerComponent>,
    pub selection: Vec<String>,
    pub metadata: Json,
}

/// A canvas, as an agent is told of it.
#[verifier::ext_equal]
pub struct CanvasContextView {
    pub canvas_id: Seq<char>,
    pub tldraw_room_id: Seq<char>,
    pub mode: SurfaceMode,
    pub revision: u64,
    pub components: Seq<SurfaceComponentView>,
    pub selection: Seq<Seq<char>>,
    pub metadata: JsonView,
}

impl View for SurfaceCanvasContext {
    type V = CanvasContextView;

    open spec fn view(&self) -> CanvasContextView {
        CanvasContextView {
            canvas_id: self.canvas_id@,
            tldraw_room_id: self.tldraw_room_id@,
            mode: self.mode,
            revision: self.revision,
            components: Seq::new(self.components@.len(), |i: int| self.components@[i]@),
            selection: texts(self.selection@),
            metadata: self.metadata@,
        }
    }
}

/// What an agent is told of a canvas: all of it, its components in the order of their
/// ids.
pub open spec fn canvas_context(canvas: SurfaceLedgerView) -> CanvasContextView {
    CanvasContextView {
        canvas_id: canvas.canvas_id,
        tldraw_room_id: canvas.tldraw_room_id,
        mode: canvas.mode,
        revision: canvas.revision,
        components: Seq::new(canvas.components.len(), |i: int| canvas.components[i].1),
        selection: canvas.selection,
        metadata: canvas.metadata,
    }
}

impl SurfaceCanvasContext {
    /// What an agent is told of a canvas.
    #[must_use]
    pub fn from_ledger(canvas: &SurfaceLedger) -> (r: Self)
        requires
            canvas.wf(),
        ensures
            r@ == canvas_context(canvas@),
    {
        let mut components: Vec<LedgerComponent> = Vec::new();
        let n: usize = canvas.components.len();
        let mut i: usize = 0;
        while i < n
            invariant
                canvas.wf(),
                n == canvas.components.entries().len(),
                i <= n,
                components.len() == i,
                forall|k: int|
                    0 <= k < i ==> (#[trigger] components@[k])@
                        == canvas.components.entries()[k].1@,
            decreases n - i,
        {
            components.push(canvas.components.value_at(i).clone());
            i += 1;
        }
        let r = SurfaceCanvasContext {
            canvas_id: canvas.canvas_id.clone(),
            tldraw_room_id: canvas.tldraw_room_id.clone(),
            mode: canvas.mode,
            revision: canvas.revision,
            components,
            selection: copy_texts(&canvas.selection),
            metadata: canvas.metadata.clone(),
        };
        assert(r@.components =~= canvas_context(canvas@).components);
        r
    }
}

/// The surface, as an agent is told of it.
#[derive(Debug, PartialEq, Eq)]
pub struct SurfaceTurnContext {
    pub session_id: String,
    pub active_pane_id: String,
    pub panes: Vec<SurfacePaneContext>,
    pub canvases: Vec<SurfaceCanvasContext>,
}

/// The surface, as an agent is told of it.
#[verifier::ext_equal]
pub struct TurnContextView {
    pub session_id: Seq<char>,
    pub active_pane_id: Seq<char>,
    pub panes: Seq<PaneContextView>,
    pub canvases: Seq<CanvasContextView>,
}

impl View for SurfaceTurnContext {
    type V = TurnContextView;

    open spec fn view(&self) -> TurnContextView {
        TurnContextView {
            session_id: self.session_id@,
            active_pane_id: self.active_pane_id@,
            panes: Seq::new(self.panes@.len(), |i: int| self.panes@[i]@),
            canvases: Seq::new(self.canvases@.len(), |i: int| self.canvases@[i]@),
        }
    }
}

/// What a canvas in a pane tells the shell.
#[allow(inconsistent_fields)]
#[derive(Clone, Debug, PartialEq, Eq)]
pub enum SurfaceIpcEvent {
    CanvasReady { pane_id: String, canvas_id: String, tldraw_room_id: String },
    LedgerSnapshot { canvas_id: String, revision: u64, components: Vec<LedgerComponent> },
    SelectionChanged { canvas_id: String, selected_ids: Vec<String> },
    CanvasError { pane_id: Option<String>, canvas_id: Option<String>, message: String },
}

/// What the shell tells a canvas in a pane.
#[derive(Clone, Debug, PartialEq, Eq)]
pub enum SurfaceIpcCommand {
    LoadCanvas { pane_id: String, canvas_id: String, tldraw_room_id: String },
    UpsertComponent { canvas_id: String, component: LedgerComponent },
    FocusComponent { canvas_id: String, component_id: String },
}

/// The panes, and the canvases by id.
#[derive(Debug)]
pub struct SurfaceState {
    session_id: String,
    active_pane_id: String,
    panes: Vec<SurfacePane>,
    canvases: SortedMap<SurfaceLedger>,
    next_pane_ordinal: u32,
    next_canvas_ordinal: u32,
}

/// The panes, and the canvases in the order of their ids.
#[verifier::ext_equal]
pub struct SurfaceView {
    pub session_id: Seq<char>,
    pub active_pane_id: Seq<char>,
    pub panes: Seq<PaneView>,
    pub canvases: Seq<(Seq<char>, SurfaceLedgerView)>,
    pub next_pane_ordinal: u32,
    pub next_canvas_ordinal: u32,
}

spec fn pane_views(panes: Seq<SurfacePane>) -> Seq<PaneView> {
    Seq::new(panes.len(), |i: int| panes[i]@)
}

spec fn ledger_views(entries: Seq<(Seq<char>, SurfaceLedger)>) -> Seq<
    (Seq<char>, SurfaceLedgerView),
> {
    Seq::new(entries.len(), |i: int| (entries[i].0, entries[i].1@))
}

proof fn lemma_ledger_views(
    entries: Seq<(Seq<char>, SurfaceLedger)>,
    key: Seq<char>,
    value: SurfaceLedger,
)
    ensures
        slot_of(ledger_views(entries), key) == slot_of(entries, key),
        has_key(ledger_views(entries), key) == has_key(entries, key),
        ledger_views(with_value(entries, key, value)) == with_value(
            ledger_views(entries),
            key,
            value@,
        ),
{
    lemma_slot_same_keys(ledger_views(entries), entries, key);
    lemma_slot_of(entries, key);
    assert(ledger_views(with_value(entries, key, value)) =~= with_value(
        ledger_views(entries),
        key,
        value@,
    ));
}

impl View for SurfaceState {
    type V = SurfaceView;

    closed spec fn view(&self) -> SurfaceView {
        SurfaceView {
            session_id: self.session_id@,
            active_pane_id: self.active_pane_id@,
            panes: pane_views(self.panes@),
            canvases: ledger_views(self.canvases.entries()),
            next_pane_ordinal: self.next_pane_ordinal,
            next_canvas_ordinal: self.next_canvas_ordinal,
        }
    }
}

/// The first pane from `from` on that has an id.
pub open spec fn pane_at(panes: Seq<PaneView>, id: Seq<char>, from: int) -> Option<int>
    decreases panes.len() - from,
{
    if from >= panes.len() {
        None
    } else if panes[from].pane_id == id {
        Some(from)
    } else {
        pane_at(panes, id, from + 1)
    }
}

/// The first pane from `from` on that has an id and is attached.
pub open spec fn attached_at(panes: Seq<PaneView>, id: Seq<char>, from: int) -> Option<int>
    decreases panes.len() - from,
{
    if from >= panes.len() {
        None
    } else if panes[from].pane_id == id && panes[from].attached {
        Some(from)
    } else {
        attached_at(panes, id, from + 1)
    }
}

/// The canvas that the active pane shows.
pub open spec fn active_canvas(v: SurfaceView) -> Option<Seq<char>> {
    match attached_at(v.panes, v.active_pane_id, 0) {
        Some(i) => v.panes[i].canvas_id,
        None => None,
    }
}

/// The id of the pane that is opened next.
pub open spec fn next_pane_id(v: SurfaceView) -> Seq<char> {
    "pane:"@ + decimal(v.next_pane_ordinal as nat)
}

/// The id of the canvas that is made next.
pub open spec fn next_canvas_id(v: SurfaceView) -> Seq<char> {
    "canvas:"@ + decimal(v.next_canvas_ordinal as nat)
}

/// The surface after a pane with a new canvas is opened: it is the active one.
pub open spec fn with_pane_opened(
    v: SurfaceView,
    title: Seq<char>,
    mode: SurfaceMode,
) -> SurfaceView {
    let room_id = "ocean-surface-"@ + decimal(v.next_canvas_ordinal as nat);
    SurfaceView {
        active_pane_id: next_pane_id(v),
        panes: v.panes.push(
            canvas_pane(
                next_pane_id(v),
                if blank(title) {
                    "Canvas"@
                } else {
                    title
                },
                next_canvas_id(v),
                room_id,
                PaneDock::Right,
            ),
        ),
        canvases: with_value(
            v.canvases,
            next_canvas_id(v),
            empty_canvas(next_canvas_id(v), room_id, mode),
        ),
        next_pane_ordinal: (v.next_pane_ordinal + 1) as u32,
        next_canvas_ordinal: (v.next_canvas_ordinal + 1) as u32,
        ..v
    }
}

/// The panes with one attached or detached.
pub open spec fn with_pane_docked(
    panes: Seq<PaneView>,
    id: Seq<char>,
    attached: bool,
    dock: PaneDock,
) -> Seq<PaneView> {
    match pane_at(panes, id, 0) {
        Some(i) => panes.update(i, PaneView { attached, dock, ..panes[i] }),
        None => panes,
    }
}

/// The canvases with one that has an id, made empty where there is none.
pub open spec fn with_canvas(
    canvases: Seq<(Seq<char>, SurfaceLedgerView)>,
    id: Seq<char>,
    tldraw_room_id: Seq<char>,
) -> Seq<(Seq<char>, SurfaceLedgerView)> {
    if has_key(canvases, id) {
        canvases
    } else {
        with_value(canvases, id, empty_canvas(id, tldraw_room_id, SurfaceMode::General))
    }
}

/// The components of a list by id; of those with the same id the last counts.
pub open spec fn components_by_id(list: Seq<LedgerComponent>) -> Seq<
    (Seq<char>, SurfaceComponentView),
>
    decreases list.len(),
{
    if list.len() == 0 {
        Seq::empty()
    } else {
        with_value(components_by_id(list.drop_last()), list.last().id@, list.last()@)
    }
}

/// The surface after something came in from a canvas, and whether it counted.
pub open spec fn after_ipc(v: SurfaceView, event: SurfaceIpcEvent) -> (SurfaceView, bool) {
    match event {
        SurfaceIpcEvent::CanvasReady { pane_id, canvas_id, tldraw_room_id } => {
            match pane_at(v.panes, pane_id@, 0) {
                Some(i) => {
                    let canvases = with_canvas(v.canvases, canvas_id@, tldraw_room_id@);
                    (
                        SurfaceView {
                            panes: v.panes.update(
                                i,
                                PaneView {
                                    canvas_id: Some(canvas_id@),
                                    tldraw_room_id: Some(tldraw_room_id@),
                                    ..v.panes[i]
                                },
                            ),
                            canvases: with_value(
                                canvases,
                                canvas_id@,
                                SurfaceLedgerView {
                                    tldraw_room_id: tldraw_room_id@,
                                    ..canvases[slot_of(canvases, canvas_id@)].1
                                },
                            ),
                            ..v
                        },
                        true,
                    )
                },
                None => (v, false),
            }
        },
        SurfaceIpcEvent::LedgerSnapshot { canvas_id, revision, components } => {
            let canvases = with_canvas(v.canvases, canvas_id@, canvas_id@);
            (
                SurfaceView {
                    canvases: with_value(
                        canvases,
                        canvas_id@,
                        SurfaceLedgerView {
                            revision,
                            components: components_by_id(components@),
                            ..canvases[slot_of(canvases, canvas_id@)].1
                        },
                    ),
                    ..v
                },
                true,
            )
        },
        SurfaceIpcEvent::SelectionChanged { canvas_id, selected_ids } => {
            let canvases = with_canvas(v.canvases, canvas_id@, canvas_id@);
            let canvas = canvases[slot_of(canvases, canvas_id@)].1;
            (
                SurfaceView {
                    canvases: with_value(
                        canvases,
                        canvas_id@,
                        SurfaceLedgerView {
                            selection: texts(selected_ids@),
                            revision: (canvas.revision + 1) as u64,
                            ..canvas
                        },
                    ),
                    ..v
                },
                true,
            )
        },
        SurfaceIpcEvent::CanvasError { .. } => (v, false),
    }
}

/// Whether the revision of a canvas can still be raised.
pub open spec fn canvas_can_change(v: SurfaceView, canvas_id: Seq<char>) -> bool {
    value_under(v.canvases, canvas_id) matches Some(canvas) ==> canvas.revision < u64::MAX
}

/// Whether a pane is attached.
pub open spec fn is_attached() -> spec_fn(PaneView) -> bool {
    |pane: PaneView| pane.attached
}

/// What an agent is told of the surface: its attached panes, and all its canvases.
pub open spec fn surface_context(v: SurfaceView) -> TurnContextView {
    let shown = v.panes.filter(is_attached());
    TurnContextView {
        session_id: v.session_id,
        active_pane_id: v.active_pane_id,
        panes: Seq::new(shown.len(), |i: int| pane_context(shown[i])),
        canvases: Seq::new(v.canvases.len(), |i: int| canvas_context(v.canvases[i].1)),
    }
}

impl Default for SurfaceState {
    fn default() -> (r: Self)
        ensures
            r.wf(),
            r@ == (SurfaceView {
                session_id: "surface:main"@,
                active_pane_id: "pane:1"@,
                panes: seq![
                    canvas_pane(
                        "pane:1"@,
                        "Main Canvas"@,
                        "canvas:main"@,
                        "ocean-surface-main"@,
                        PaneDock::Full,
                    ),
                ],
                canvases: seq![
                    (
                        "canvas:main"@,
                        empty_canvas(
                            "canvas:main"@,
                            "ocean-surface-main"@,
                            SurfaceMode::General,
                        ),
                    ),
                ],
                next_pane_ordinal: 2,
                next_canvas_ordinal: 2,
            }),
    {
        let mut canvases: SortedMap<SurfaceLedger> = SortedMap::new();
        let ledger = SurfaceLedger::new(
            DEFAULT_CANVAS_ID,
            DEFAULT_TLDRAW_ROOM_ID,
            SurfaceMode::General,
        );
        canvases.insert(copy_str(DEFAULT_CANVAS_ID), ledger);
        assert(canvases.entries() =~= seq![("canvas:main"@, ledger)]);
        let mut panes: Vec<SurfacePane> = Vec::new();
        panes.push(
            SurfacePane::tldraw_canvas(
                copy_str("pane:1"),
                copy_str("Main Canvas"),
                copy_str(DEFAULT_CANVAS_ID),
                copy_str(DEFAULT_TLDRAW_ROOM_ID),
                PaneDock::Full,
            ),
        );
        let r = SurfaceState {
            session_id: copy_str(DEFAULT_SURFACE_SESSION_ID),
            active_pane_id: copy_str("pane:1"),
            panes,
            canvases,
            next_pane_ordinal: 2,
            next_canvas_ordinal: 2,
        };
        assert(r@.panes =~= seq![
            canvas_pane(
                "pane:1"@,
                "Main Canvas"@,
                "canvas:main"@,
                "ocean-surface-main"@,
                PaneDock::Full,
            ),
        ]);
        assert(r@.canvases =~= seq![
            (
                "canvas:main"@,
                empty_canvas("canvas:main"@, "ocean-surface-main"@, SurfaceMode::General),
            ),
        ]);
        proof {
            reveal_strlit("pane:");
            reveal_strlit("pane:1");
            reveal_with_fuel(decimal, 2);
            assert("pane:1"@ =~= "pane:"@ + decimal(1));
            assert forall|i: int, k: nat|
                0 <= i < r@.panes.len() && k >= r@.next_pane_ordinal implies (
            #[trigger] r@.panes[i]).pane_id != "pane:"@ + #[trigger] decimal(k) by {
                if "pane:1"@ == "pane:"@ + decimal(k) {
                    lemma_pane_names_differ(1, k);
                }
            }
        }
        r
    }
}

impl SurfaceState {
    /// Whether the canvases, and the components of each, are kept in order, and no pane
    /// has an id that is still to be given out.
    pub closed spec fn wf(self) -> bool {
        &&& pane_ids_fresh(self@)
        &&& self.canvases.wf()
        &&& forall|i: int|
            0 <= i < self.canvases.entries().len() ==> (
            #[trigger] self.canvases.entries()[i]).1.wf()
    }

    /// No pane has an id that is still to be given out, and the canvases are in order.
    pub proof fn lemma_wf(self)
        requires
            self.wf(),
        ensures
            pane_ids_fresh(self@),
            keys_ascend(self@.canvases),
    {
        self.canvases.lemma_wf();
        let entries = self.canvases.entries();
        assert forall|i: int, j: int|
            #![trigger self@.canvases[i], self@.canvases[j]]
            0 <= i < j < self@.canvases.len() implies chars_less(
            self@.canvases[i].0,
            self@.canvases[j].0,
        ) by {
            assert(chars_less(entries[i].0, entries[j].0));
        }
    }

    /// The session that the surface belongs to.
    #[must_use]
    pub fn session_id(&self) -> (r: &str)
        ensures
            r@ == self@.session_id,
    {
        self.session_id.as_str()
    }

    /// The pane that is active.
    #[must_use]
    pub fn active_pane_id(&self) -> (r: &str)
        ensures
            r@ == self@.active_pane_id,
    {
        self.active_pane_id.as_str()
    }

    /// The panes.
    #[must_use]
    pub fn panes(&self) -> (r: &[SurfacePane])
        ensures
            r@.len() == self@.panes.len(),
            forall|i: int| 0 <= i < r@.len() ==> (#[trigger] r@[i])@ == self@.panes[i],
    {
        self.panes.as_slice()
    }

    /// The canvas with an id.
    #[must_use]
    pub fn canvas(&self, canvas_id: &str) -> (r: Option<&SurfaceLedger>)
        requires
            self.wf(),
        ensures
            match value_under(self@.canvases, canvas_id@) {
                Some(canvas) => r matches Some(ledger) && ledger@ == canvas && ledger.wf(),
                None => r is None,
            },
    {
        proof {
            lemma_slot_same_keys(self@.canvases, self.canvases.entries(), canvas_id@);
        }
        match self.canvases.position(canvas_id) {
            Some(i) => Some(self.canvases.value_at(i)),
            None => None,
        }
    }

    /// Opens a pane with a new canvas, and gives the canvas's id.
    pub fn open_canvas_pane(&mut self, title: &str, mode: SurfaceMode) -> (r: String)
        requires
            old(self).wf(),
            old(self)@.next_pane_ordinal < u32::MAX,
            old(self)@.next_canvas_ordinal < u32::MAX,
        ensures
            final(self).wf(),
            r@ == next_canvas_id(old(self)@),
            final(self)@ == with_pane_opened(old(self)@, title@, mode),
    {
        let ghost v = self@;
        let pane_number = decimal_text(self.next_pane_ordinal as u64);
        let pane_id = concat2("pane:", pane_number.as_str());
        self.next_pane_ordinal = self.next_pane_ordinal + 1;
        let canvas_number = decimal_text(self.next_canvas_ordinal as u64);
        let canvas_id = concat2("canvas:", canvas_number.as_str());
        let tldraw_room_id = concat2("ocean-surface-", canvas_number.as_str());
        self.next_canvas_ordinal = self.next_canvas_ordinal + 1;
        let ledger = SurfaceLedger::new(canvas_id.as_str(), tldraw_room_id.as_str(), mode);
        self.put_canvas(canvas_id.clone(), ledger);
        let shown_title = if is_blank(title) {
            copy_str("Canvas")
        } else {
            copy_str(title)
        };
        let ghost panes = self.panes@;
        let pane = SurfacePane::tldraw_canvas(
            pane_id.clone(),
            shown_title,
            canvas_id.clone(),
            tldraw_room_id,
            PaneDock::Right,
        );
        let ghost p = pane@;
        self.panes.push(pane);
        assert(pane_views(self.panes@) =~= pane_views(panes).push(p));
        self.active_pane_id = pane_id;
        proof {
            assert(self@ =~= with_pane_opened(v, title@, mode));
            law_pane_ids_stay_fresh(v, title@, mode);
        }
        canvas_id
    }

    /// Puts a canvas under an id.
    fn put_canvas(&mut self, canvas_id: String, ledger: SurfaceLedger)
        requires
            old(self).wf(),
            ledger.wf(),
        ensures
            final(self).wf(),
            final(self)@ == (SurfaceView {
                canvases: with_value(old(self)@.canvases, canvas_id@, ledger@),
                ..old(self)@
            }),
    {
        let ghost before = self.canvases.entries();
        let ghost id = canvas_id@;
        proof {
            lemma_ledger_views(before, id, ledger);
            lemma_slot_of(before, id);
        }
        self.canvases.insert(canvas_id, ledger);
        proof {
            let after = self.canvases.entries();
            let s = slot_of(before, id);
            assert forall|i: int| 0 <= i < after.len() implies (#[trigger] after[i]).1.wf() by {
                if has_key(before, id) {
                    if i != s {
                        assert(before[i].1.wf());
                    }
                } else if i < s {
                    assert(before[i].1.wf());
                } else if i > s {
                    assert(before[i - 1].1.wf());
                }
            }
        }
    }

    /// Makes a pane the active one where it is attached; tells whether it was.
    pub fn set_active_pane(&mut self, pane_id: &str) -> (r: bool)
        requires
            old(self).wf(),
        ensures
            final(self).wf(),
            r == (attached_at(old(self)@.panes, pane_id@, 0) is Some),
            final(self)@ == (if r {
                SurfaceView { active_pane_id: pane_id@, ..old(self)@ }
            } else {
                old(self)@
            }),
    {
        if self.attached_index(pane_id).is_none() {
            return false;
        }
        self.active_pane_id = copy_str(pane_id);
        true
    }

    fn attached_index(&self, pane_id: &str) -> (r: Option<usize>)
        ensures
            match r {
                Some(i) => attached_at(self@.panes, pane_id@, 0) == Some(i as int) && i
                    < self.panes@.len(),
                None => attached_at(self@.panes, pane_id@, 0) is None,
            },
    {
        let mut i: usize = 0;
        while i < self.panes.len()
            invariant
                i <= self.panes.len(),
                attached_at(self@.panes, pane_id@, i as int) == attached_at(
                    self@.panes,
                    pane_id@,
                    0,
                ),
            decreases self.panes.len() - i,
        {
            if str_eq(self.panes[i].pane_id.as_str(), pane_id) && self.panes[i].attached {
                return Some(i);
            }
            i += 1;
        }
        None
    }

    fn pane_index(&self, pane_id: &str) -> (r: Option<usize>)
        ensures
            match r {
                Some(i) => pane_at(self@.panes, pane_id@, 0) == Some(i as int) && i
                    < self.panes@.len(),
                None => pane_at(self@.panes, pane_id@, 0) is None,
            },
    {
        let mut i: usize = 0;
        while i < self.panes.len()
            invariant
                i <= self.panes.len(),
                pane_at(self@.panes, pane_id@, i as int) == pane_at(self@.panes, pane_id@, 0),
            decreases self.panes.len() - i,
        {
            if str_eq(self.panes[i].pane_id.as_str(), pane_id) {
                return Some(i);
            }
            i += 1;
        }
        None
    }

    /// The canvas that the active pane shows.
    #[must_use]
    pub fn active_canvas_id(&self) -> (r: Option<&str>)
        ensures
            match r {
                Some(id) => active_canvas(self@) == Some(id@),
                None => active_canvas(self@) is None,
            },
    {
        match self.attached_index(self.active_pane_id.as_str()) {
            Some(i) => match &self.panes[i].canvas_id {
                Some(id) => Some(id.as_str()),
                None => None,
            },
            None => None,
        }
    }

    /// Detaches a pane; tells whether there is one with the id.
    pub fn detach_pane(&mut self, pane_id: &str) -> (r: bool)
        requires
            old(self).wf(),
        ensures
            final(self).wf(),
            r == (pane_at(old(self)@.panes, pane_id@, 0) is Some),
            final(self)@ == (SurfaceView {
                panes: with_pane_docked(
                    old(self)@.panes,
                    pane_id@,
                    false,
                    PaneDock::Detached,
                ),
                ..old(self)@
            }),
    {
        self.dock_pane(pane_id, false, PaneDock::Detached)
    }

    /// Attaches a pane; tells whether there is one with the id.
    pub fn attach_pane(&mut self, pane_id: &str, dock: PaneDock) -> (r: bool)
        requires
            old(self).wf(),
        ensures
            final(self).wf(),
            r == (pane_at(old(self)@.panes, pane_id@, 0) is Some),
            final(self)@ == (SurfaceView {
                panes: with_pane_docked(old(self)@.panes, pane_id@, true, dock),
                ..old(self)@
            }),
    {
        self.dock_pane(pane_id, true, dock)
    }

    fn dock_pane(&mut self, pane_id: &str, attached: bool, dock: PaneDock) -> (r: bool)
        requires
            old(self).wf(),
        ensures
            final(self).wf(),
            r == (pane_at(old(self)@.panes, pane_id@, 0) is Some),
            final(self)@ == (SurfaceView {
                panes: with_pane_docked(old(self)@.panes, pane_id@, attached, dock),
                ..old(self)@
            }),
    {
        let ghost v = self@;
        match self.pane_index(pane_id) {
            Some(i) => {
                let pane = &mut self.panes[i];
                pane.attached = attached;
                pane.dock = dock;
                assert(self@.panes =~= with_pane_docked(v.panes, pane_id@, attached, dock));
                true
            },
            None => false,
        }
    }

    /// Puts a component on a canvas; tells whether there is one with the id.
    pub fn upsert_component(&mut self, canvas_id: &str, component: LedgerComponent) -> (r: bool)
        requires
            old(self).wf(),
            canvas_can_change(old(self)@, canvas_id@),
        ensures
            final(self).wf(),
            match value_under(old(self)@.canvases, canvas_id@) {
                Some(canvas) => r && final(self)@ == (SurfaceView {
                    canvases: with_value(
                        old(self)@.canvases,
                        canvas_id@,
                        with_component(canvas, component@),
                    ),
                    ..old(self)@
                }),
                None => !r && final(self)@ == old(self)@,
            },
    {
        let ghost v = self@;
        let ghost before = self.canvases.entries();
        proof {
            lemma_slot_same_keys(v.canvases, before, canvas_id@);
            self.canvases.lemma_wf();
        }
        match self.canvases.position(canvas_id) {
            None => false,
            Some(i) => {
                assert(v.canvases[i as int].1 == before[i as int].1@);
                let canvas = self.canvases.value_at_mut(i);
                canvas.upsert_component(component);
                proof {
                    let after = self.canvases.entries();
                    assert(ledger_views(after) =~= with_value(
                        v.canvases,
                        canvas_id@,
                        with_component(v.canvases[i as int].1, component@),
                    ));
                    assert forall|k: int| 0 <= k < after.len() implies (
                    #[trigger] after[k]).1.wf() by {
                        if k != i {
                            assert(before[k].1.wf());
                        }
                    }
                }
                true
            },
        }
    }

    /// Takes a component off a canvas; tells whether it was there.
    pub fn remove_component(&mut self, canvas_id: &str, component_id: &str) -> (r: bool)
        requires
            old(self).wf(),
            canvas_can_change(old(self)@, canvas_id@),
        ensures
            final(self).wf(),
            r == (value_under(old(self)@.canvases, canvas_id@) matches Some(canvas) && has_key(
                canvas.components,
                component_id@,
            )),
            !r ==> final(self)@ == old(self)@,
            r ==> final(self)@ == ({
                let canvas = value_under(old(self)@.canvases, canvas_id@)->0;
                SurfaceView {
                    canvases: with_value(
                        old(self)@.canvases,
                        canvas_id@,
                        SurfaceLedgerView {
                            components: without_value(canvas.components, component_id@),
                            revision: (canvas.revision + 1) as u64,
                            ..canvas
                        },
                    ),
                    ..old(self)@
                }
            }),
    {
        let ghost v = self@;
        let ghost before = self.canvases.entries();
        proof {
            lemma_slot_same_keys(v.canvases, before, canvas_id@);
            self.canvases.lemma_wf();
        }
        match self.canvases.position(canvas_id) {
            None => false,
            Some(i) => {
                assert(v.canvases[i as int].1 == before[i as int].1@);
                let ghost ledger = before[i as int].1;
                assert(ledger.wf());
                proof {
                    lemma_slot_same_keys(
                        component_views(ledger.components.entries()),
                        ledger.components.entries(),
                        component_id@,
                    );
                    lemma_slot_of(ledger.components.entries(), component_id@);
                    assert(component_views(
                        without_value(ledger.components.entries(), component_id@),
                    ) =~= without_value(
                        component_views(ledger.components.entries()),
                        component_id@,
                    ));
                }
                let canvas = self.canvases.value_at_mut(i);
                let removed: bool = canvas.components.remove(component_id).is_some();
                if removed {
                    canvas.revision = canvas.revision + 1;
                }
                proof {
                    let after = self.canvases.entries();
                    if removed {
                        assert(ledger_views(after) =~= with_value(
                            v.canvases,
                            canvas_id@,
                            SurfaceLedgerView {
                                components: without_value(
                                    v.canvases[i as int].1.components,
                                    component_id@,
                                ),
                                revision: (v.canvases[i as int].1.revision + 1) as u64,
                                ..v.canvases[i as int].1
                            },
                        ));
                    } else {
                        assert(ledger_views(after) =~= v.canvases);
                    }
                    assert forall|k: int| 0 <= k < after.len() implies (
                    #[trigger] after[k]).1.wf() by {
                        if k != i {
                            assert(before[k].1.wf());
                        }
                    }
                }
                removed
            },
        }
    }

    /// What an agent is told of the surface.
    #[must_use]
    pub fn turn_context(&self) -> (r: SurfaceTurnContext)
        requires
            self.wf(),
        ensures
            r@ == surface_context(self@),
    {
        let mut panes: Vec<SurfacePaneContext> = Vec::new();
        let mut i: usize = 0;
        let ghost all = self@.panes;
        assert(all.take(0).filter(is_attached()) =~= Seq::empty()) by {
            reveal(Seq::filter);
        }
        while i < self.panes.len()
            invariant
                i <= self.panes.len(),
                all == self@.panes,
                panes.len() == all.take(i as int).filter(is_attached()).len(),
                forall|k: int|
                    0 <= k < panes.len() ==> (#[trigger] panes@[k])@ == pane_context(
                        all.take(i as int).filter(is_attached())[k],
                    ),
            decreases self.panes.len() - i,
        {
            proof {
                lemma_filter_step(all, i as int, is_attached());
            }
            if self.panes[i].attached {
                panes.push(SurfacePaneContext::from_pane(&self.panes[i]));
            }
            i += 1;
        }
        assert(all.take(i as int) =~= all);
        let mut canvases: Vec<SurfaceCanvasContext> = Vec::new();
        let n: usize = self.canvases.len();
        let mut j: usize = 0;
        while j < n
            invariant
                self.wf(),
                n == self.canvases.entries().len(),
                j <= n,
                canvases.len() == j,
                forall|k: int|
                    0 <= k < j ==> (#[trigger] canvases@[k])@ == canvas_context(
                        self@.canvases[k].1,
                    ),
            decreases n - j,
        {
            let ledger = self.canvases.value_at(j);
            assert(self.canvases.entries()[j as int].1.wf());
            canvases.push(SurfaceCanvasContext::from_ledger(ledger));
            j += 1;
        }
        let r = SurfaceTurnContext {
            session_id: self.session_id.clone(),
            active_pane_id: self.active_pane_id.clone(),
            panes,
            canvases,
        };
        assert(r@.panes =~= surface_context(self@).panes);
        assert(r@.canvases =~= surface_context(self@).canvases);
        r
    }

    /// Makes sure that there is a canvas with an id, and gives its place.
    fn ensure_canvas(&mut self, canvas_id: &str, tldraw_room_id: &str) -> (r: usize)
        requires
            old(self).wf(),
        ensures
            final(self).wf(),
            final(self)@ == (SurfaceView {
                canvases: with_canvas(old(self)@.canvases, canvas_id@, tldraw_room_id@),
                ..old(self)@
            }),
            r == slot_of(final(self)@.canvases, canvas_id@),
            has_key(final(self)@.canvases, canvas_id@),
            r < final(self).canvases.entries().len(),
            final(self).canvases.entries()[r as int].0 == canvas_id@,
    {
        let ghost v = self@;
        proof {
            lemma_slot_same_keys(v.canvases, self.canvases.entries(), canvas_id@);
        }
        if let Some(i) = self.canvases.position(canvas_id) {
            return i;
        }
        let ledger = SurfaceLedger::new(canvas_id, tldraw_room_id, SurfaceMode::General);
        let ghost fresh = ledger@;
        self.put_canvas(copy_str(canvas_id), ledger);
        proof {
            lemma_slot_of(v.canvases, canvas_id@);
            self.canvases.lemma_wf();
            let s = slot_of(v.canvases, canvas_id@);
            let entries = self.canvases.entries();
            assert(self@.canvases[s].0 == canvas_id@);
            assert(entries[s].0 == canvas_id@);
            lemma_key_at(entries, canvas_id@, s);
            lemma_slot_same_keys(self@.canvases, entries, canvas_id@);
        }
        self.canvases.position(canvas_id).unwrap()
    }

    /// Something came in from a canvas; tells whether it counted.
    pub fn apply_ipc_event(&mut self, event: SurfaceIpcEvent) -> (r: bool)
        requires
            old(self).wf(),
            event matches SurfaceIpcEvent::SelectionChanged { canvas_id, .. } ==> canvas_can_change(
                old(self)@,
                canvas_id@,
            ),
        ensures
            final(self).wf(),
            (final(self)@, r) == after_ipc(old(self)@, event),
    {
        let ghost v = self@;
        match event {
            SurfaceIpcEvent::CanvasReady { pane_id, canvas_id, tldraw_room_id } => {
                match self.pane_index(pane_id.as_str()) {
                    None => false,
                    Some(p) => {
                        let pane = &mut self.panes[p];
                        pane.canvas_id = Some(canvas_id.clone());
                        pane.tldraw_room_id = Some(tldraw_room_id.clone());
                        let ghost panes = v.panes.update(
                            p as int,
                            PaneView {
                                canvas_id: Some(canvas_id@),
                                tldraw_room_id: Some(tldraw_room_id@),
                                ..v.panes[p as int]
                            },
                        );
                        assert(self@.panes =~= panes);
                        let at = self.ensure_canvas(canvas_id.as_str(), tldraw_room_id.as_str());
                        let ghost mid = self@.canvases;
                        let ghost before = self.canvases.entries();
                        assert(mid[at as int].1 == before[at as int].1@);
                        assert(before[at as int].1.wf());
                        let canvas = self.canvases.value_at_mut(at);
                        canvas.tldraw_room_id = tldraw_room_id;
                        proof {
                            let after = self.canvases.entries();
                            assert(ledger_views(after) =~= with_value(
                                mid,
                                canvas_id@,
                                SurfaceLedgerView {
                                    tldraw_room_id: tldraw_room_id@,
                                    ..mid[at as int].1
                                },
                            ));
                            assert forall|k: int| 0 <= k < after.len() implies (
                            #[trigger] after[k]).1.wf() by {
                                if k != at {
                                    assert(before[k].1.wf());
                                }
                            }
                        }
                        true
                    },
                }
            },
            SurfaceIpcEvent::LedgerSnapshot { canvas_id, revision, components } => {
                let at = self.ensure_canvas(canvas_id.as_str(), canvas_id.as_str());
                let ghost mid = self@.canvases;
                let ghost before = self.canvases.entries();
                assert(mid[at as int].1 == before[at as int].1@);
                let by_id = collect_components(components);
                let canvas = self.canvases.value_at_mut(at);
                canvas.revision = revision;
                canvas.components = by_id;
                proof {
                    let after = self.canvases.entries();
                    assert(ledger_views(after) =~= with_value(
                        mid,
                        canvas_id@,
                        SurfaceLedgerView {
                            revision,
                            components: components_by_id(components@),
                            ..mid[at as int].1
                        },
                    ));
                    assert forall|k: int| 0 <= k < after.len() implies (
                    #[trigger] after[k]).1.wf() by {
                        if k != at {
                            assert(before[k].1.wf());
                        }
                    }
                }
                true
            },
            SurfaceIpcEvent::SelectionChanged { canvas_id, selected_ids } => {
                let at = self.ensure_canvas(canvas_id.as_str(), canvas_id.as_str());
                let ghost mid = self@.canvases;
                let ghost before = self.canvases.entries();
                assert(mid[at as int].1 == before[at as int].1@);
                assert(before[at as int].1.wf());
                proof {
                    lemma_slot_of(v.canvases, canvas_id@);
                    if !has_key(v.canvases, canvas_id@) {
                        let s = slot_of(v.canvases, canvas_id@);
                        assert(mid[s].0 == canvas_id@);
                        self.canvases.lemma_wf();
                        assert(before[s].0 == canvas_id@);
                        lemma_key_at(before, canvas_id@, s);
                        lemma_slot_same_keys(mid, before, canvas_id@);
                    }
                }
                let canvas = self.canvases.value_at_mut(at);
                canvas.selection = selected_ids;
                canvas.revision = canvas.revision + 1;
                proof {
                    let after = self.canvases.entries();
                    assert(ledger_views(after) =~= with_value(
                        mid,
                        canvas_id@,
                        SurfaceLedgerView {
                            selection: texts(selected_ids@),
                            revision: (mid[at as int].1.revision + 1) as u64,
                            ..mid[at as int].1
                        },
                    ));
                    assert forall|k: int| 0 <= k < after.len() implies (
                    #[trigger] after[k]).1.wf() by {
                        if k != at {
                            assert(before[k].1.wf());
                        }
                    }
                }
                true
            },
            SurfaceIpcEvent::CanvasError { pane_id: _, canvas_id: _, message: _ } => false,
        }
    }
}

/// The components of a list by id.
fn collect_components(components: Vec<LedgerComponent>) -> (r: SortedMap<LedgerComponent>)
    ensures
        r.wf(),
        component_views(r.entries()) == components_by_id(components@),
{
    let ghost all = components@;
    let mut by_id: SortedMap<LedgerComponent> = SortedMap::new();
    assert(component_views(by_id.entries()) =~= Seq::empty());
    assert(all.take(0) =~= Seq::empty());
    for component in it: components
        invariant
            it.seq() == all,
            by_id.wf(),
            component_views(by_id.entries()) == components_by_id(all.take(it.index() as int)),
    {
        let ghost i = it.index() as int;
        proof {
            assert(all.take(i + 1).drop_last() =~= all.take(i));
            assert(all.take(i + 1).last() == component);
            lemma_component_views(by_id.entries(), component.id@, component);
        }
        by_id.insert(component.id.clone(), component);
    }
    assert(all.take(all.len() as int) =~= all);
    by_id
}

/// A byte in a file's address: slashes stay too.
pub open spec fn file_byte(b: u8) -> Seq<char> {
    if b == 47 {
        seq!['/']
    } else {
        encoded_byte(b)
    }
}

/// Bytes in a file's address.
pub open spec fn file_bytes(bytes: Seq<u8>) -> Seq<char>
    decreases bytes.len(),
{
    if bytes.len() == 0 {
        Seq::empty()
    } else {
        file_bytes(bytes.drop_last()) + file_byte(bytes.last())
    }
}

/// The address of a file.
pub open spec fn file_address(path: Seq<char>) -> Seq<char> {
    (if path.len() > 0 && path[0] == '/' {
        "file://"@
    } else {
        "file:///"@
    }) + file_bytes(vstd::utf8::encode_utf8(path))
}

/// The part of an address that names a value.
pub open spec fn query(name: Seq<char>, value: Seq<char>) -> Seq<char> {
    name + path_segment(value)
}

/// The address at which a pane's canvas is loaded.
pub open spec fn canvas_address(
    index_path: Seq<char>,
    session_id: Seq<char>,
    pane_id: Seq<char>,
    canvas_id: Seq<char>,
    tldraw_room_id: Seq<char>,
    sync_uri: Option<Seq<char>>,
) -> Seq<char> {
    let base = file_address(index_path) + query("?session_id="@, session_id) + query(
        "&pane_id="@,
        pane_id,
    ) + query("&canvas_id="@, canvas_id) + query("&tldraw_room_id="@, tldraw_room_id);
    match sync_uri {
        Some(uri) => if blank(uri) {
            base
        } else {
            base + query("&sync_uri="@, uri)
        },
        None => base,
    }
}

/// The address of a file.
fn file_url(path: &str) -> (r: String)
    ensures
        r@ == file_address(path@),
{
    let chars = chars_of(path);
    let rooted: bool = chars.len() > 0 && chars[0] == '/';
    let mut url = if rooted {
        copy_str("file://")
    } else {
        copy_str("file:///")
    };
    let ghost start = url@;
    let bytes = path.as_bytes();
    let mut i: usize = 0;
    assert(bytes@.take(0) =~= Seq::empty());
    assert(start + file_bytes(Seq::empty()) =~= start);
    while i < bytes.len()
        invariant
            i <= bytes@.len(),
            url@ == start + file_bytes(bytes@.take(i as int)),
        decreases bytes@.len() - i,
    {
        let byte: u8 = bytes[i];
        let ghost before = url@;
        assert(bytes@.take(i + 1).drop_last() =~= bytes@.take(i as int));
        assert(bytes@.take(i + 1).last() == byte);
        if byte == 47 {
            url.push('/');
        } else {
            push_encoded_byte(&mut url, byte);
        }
        assert(url@ =~= before + file_byte(byte));
        assert(url@ =~= start + (file_bytes(bytes@.take(i as int)) + file_byte(byte)));
        i += 1;
    }
    assert(bytes@.take(i as int) =~= bytes@);
    url
}

/// Adds a name and a value to an address.
fn push_query(url: &mut String, name: &str, value: &str)
    ensures
        final(url)@ == old(url)@ + query(name@, value@),
{
    let ghost before = url@;
    let encoded = percent_encode_path_segment(value);
    url.push_str(name);
    url.push_str(encoded.as_str());
    assert(url@ =~= before + (name@ + path_segment(value@)));
}

/// The address at which a pane's canvas is loaded, nothing where the pane shows none.
#[must_use]
pub fn canvas_web_url(
    index_path: &str,
    session_id: &str,
    pane: &SurfacePane,
    sync_uri: Option<&str>,
) -> (r: Option<String>)
    ensures
        match (pane@.canvas_id, pane@.tldraw_room_id) {
            (Some(canvas_id), Some(tldraw_room_id)) => r matches Some(url) && url@
                == canvas_address(
                index_path@,
                session_id@,
                pane@.pane_id,
                canvas_id,
                tldraw_room_id,
                match sync_uri {
                    Some(uri) => Some(uri@),
                    None => None,
                },
            ),
            _ => r is None,
        },
{
    match (&pane.canvas_id, &pane.tldraw_room_id) {
        (Some(canvas_id), Some(tldraw_room_id)) => {
            let mut url = file_url(index_path);
            push_query(&mut url, "?session_id=", session_id);
            push_query(&mut url, "&pane_id=", pane.pane_id.as_str());
            push_query(&mut url, "&canvas_id=", canvas_id.as_str());
            push_query(&mut url, "&tldraw_room_id=", tldraw_room_id.as_str());
            if let Some(uri) = sync_uri {
                if !is_blank(uri) {
                    push_query(&mut url, "&sync_uri=", uri);
                }
            }
            Some(url)
        },
        _ => None,
    }
}

/// Whether no pane has an id that is still to be given out.
pub open spec fn pane_ids_fresh(v: SurfaceView) -> bool {
    forall|i: int, k: nat|
        0 <= i < v.panes.len() && k >= v.next_pane_ordinal ==> (#[trigger] v.panes[i]).pane_id
            != "pane:"@ + #[trigger] decimal(k)
}

proof fn lemma_pane_names_differ(a: nat, b: nat)
    requires
        "pane:"@ + decimal(a) == "pane:"@ + decimal(b),
    ensures
        a == b,
{
    let n = "pane:"@.len() as int;
    assert(("pane:"@ + decimal(a)).skip(n) =~= decimal(a));
    assert(("pane:"@ + decimal(b)).skip(n) =~= decimal(b));
    lemma_decimal_round_trip(a);
    lemma_decimal_round_trip(b);
}

/// Opening panes never gives an id out twice.
pub proof fn law_pane_ids_stay_fresh(v: SurfaceView, title: Seq<char>, mode: SurfaceMode)
    requires
        pane_ids_fresh(v),
        v.next_pane_ordinal < u32::MAX,
    ensures
        pane_ids_fresh(with_pane_opened(v, title, mode)),
        pane_at(v.panes, next_pane_id(v), 0) is None,
{
    let after = with_pane_opened(v, title, mode);
    assert forall|i: int, k: nat|
        0 <= i < after.panes.len() && k >= after.next_pane_ordinal implies (
    #[trigger] after.panes[i]).pane_id != "pane:"@ + #[trigger] decimal(k) by {
        if i < v.panes.len() {
            assert(after.panes[i] == v.panes[i]);
        } else if after.panes[i].pane_id == "pane:"@ + decimal(k) {
            lemma_pane_names_differ(v.next_pane_ordinal as nat, k);
        }
    }
    lemma_no_pane_at(v.panes, next_pane_id(v), 0);
}

proof fn lemma_no_pane_at(panes: Seq<PaneView>, id: Seq<char>, from: int)
    requires
        0 <= from,
        forall|i: int| from <= i < panes.len() ==> (#[trigger] panes[i]).pane_id != id,
    ensures
        pane_at(panes, id, from) is None,
    decreases panes.len() - from,
{
    if from < panes.len() {
        lemma_no_pane_at(panes, id, from + 1);
    }
}

proof fn lemma_attached_last(panes: Seq<PaneView>, from: int)
    requires
        0 <= from < panes.len(),
        panes.last().attached,
        forall|i: int|
            0 <= i < panes.len() - 1 ==> (#[trigger] panes[i]).pane_id != panes.last().pane_id,
    ensures
        attached_at(panes, panes.last().pane_id, from) == Some(panes.len() - 1),
    decreases panes.len() - from,
{
    if from < panes.len() - 1 {
        lemma_attached_last(panes, from + 1);
    }
}

/// A pane that is opened shows its new canvas at once.
pub proof fn law_opened_pane_is_active(v: SurfaceView, title: Seq<char>, mode: SurfaceMode)
    requires
        pane_ids_fresh(v),
    ensures
        active_canvas(with_pane_opened(v, title, mode)) == Some(next_canvas_id(v)),
{
    let after = with_pane_opened(v, title, mode);
    assert forall|i: int| 0 <= i < after.panes.len() - 1 implies (
    #[trigger] after.panes[i]).pane_id != after.panes.last().pane_id by {
        assert(after.panes[i] == v.panes[i]);
        assert(v.panes[i].pane_id != "pane:"@ + decimal(v.next_pane_ordinal as nat));
    }
    lemma_attached_last(after.panes, 0);
}

/// A component that is put on a canvas and taken off again leaves no trace but in the
/// canvas's revision.
pub proof fn law_removed_component_is_gone(
    canvas: SurfaceLedgerView,
    component: SurfaceComponentView,
)
    requires
        keys_ascend(canvas.components),
        !has_key(canvas.components, component.id),
    ensures
        without_value(with_component(canvas, component).components, component.id)
            == canvas.components,
{
    let with = with_component(canvas, component).components;
    let s = slot_of(canvas.components, component.id);
    lemma_slot_of(canvas.components, component.id);
    lemma_with_value_ascends(canvas.components, component.id, component);
    lemma_key_at(with, component.id, s);
    assert(without_value(with, component.id) =~= canvas.components);
}

/// Bytes in a file's address stand one behind the other; a slash stays a slash.
pub proof fn law_file_address_keeps_slashes(a: Seq<u8>, b: Seq<u8>)
    ensures
        file_bytes(a + b) == file_bytes(a) + file_bytes(b),
        file_byte(47) == seq!['/'],
        file_bytes(Seq::empty()).len() == 0,
    decreases b.len(),
{
    if b.len() == 0 {
        assert(a + b =~= a);
        assert(file_bytes(a) + file_bytes(b) =~= file_bytes(a));
    } else {
        law_file_address_keeps_slashes(a, b.drop_last());
        assert((a + b).drop_last() =~= a + b.drop_last());
        assert((a + b).last() == b.last());
        assert(file_bytes(a) + file_bytes(b.drop_last()) + file_byte(b.last()) =~= file_bytes(a) + (
        file_bytes(b.drop_last()) + file_byte(b.last())));
    }
}

/// A canvas's address starts with that of the page, and names the place to sync with only
/// where there is one that is not blank.
pub proof fn law_sync_address_comes_last(
    index_path: Seq<char>,
    session_id: Seq<char>,
    pane_id: Seq<char>,
    canvas_id: Seq<char>,
    room_id: Seq<char>,
    uri: Seq<char>,
)
    ensures
        ({
            let plain = canvas_address(index_path, session_id, pane_id, canvas_id, room_id, None);
            let synced = canvas_address(
                index_path,
                session_id,
                pane_id,
                canvas_id,
                room_id,
                Some(uri),
            );
            &&& file_address(index_path).is_prefix_of(plain)
            &&& blank(uri) ==> synced == plain
            &&& !blank(uri) ==> synced == plain + "&sync_uri="@ + path_segment(uri)
            &&& plain == file_address(index_path) + "?session_id="@ + path_segment(session_id)
                + "&pane_id="@ + path_segment(pane_id) + "&canvas_id="@ + path_segment(canvas_id)
                + "&tldraw_room_id="@ + path_segment(room_id)
        }),
{
    let plain = canvas_address(index_path, session_id, pane_id, canvas_id, room_id, None);
    let synced = canvas_address(index_path, session_id, pane_id, canvas_id, room_id, Some(uri));
    assert(plain =~= file_address(index_path) + "?session_id="@ + path_segment(session_id)
        + "&pane_id="@ + path_segment(pane_id) + "&canvas_id="@ + path_segment(canvas_id)
        + "&tldraw_room_id="@ + path_segment(room_id));
    if !blank(uri) {
        assert(synced =~= plain + "&sync_uri="@ + path_segment(uri));
    }
}

} // verus!
