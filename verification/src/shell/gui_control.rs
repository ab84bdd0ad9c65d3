//! What an agent may do to the window: commands in, events out, and the state between.

use std::collections::VecDeque;

use vstd::prelude::*;

use crate::json::Json;
use crate::text::{copy_str, str_eq};

verus! {

broadcast use vstd::string::group_string_axioms;

use crate::json::JsonView;
use crate::text::opt_chars;

pub const REGION_CHAT_INLINE: &'static str = "chat.inline";

pub const REGION_MAIN_CANVAS: &'static str = "main.canvas";

pub const REGION_SIDEBAR_LEFT: &'static str = "sidebar.left";

pub const REGION_SIDEBAR_RIGHT: &'static str = "sidebar.right";

pub const REGION_STATUS_BAR: &'static str = "status.bar";

pub const REGION_MODAL: &'static str = "modal";

pub const REGION_DRAWER_BOTTOM: &'static str = "drawer.bottom";

/// How many events are remembered.
pub const RECENT_EVENT_LIMIT: usize = 64;

/// Names a region of the window.
#[derive(Debug, PartialEq, Eq, Hash)]
pub struct RegionId(String);

impl View for RegionId {
    type V = Seq<char>;

    closed spec fn view(&self) -> Seq<char> {
        self.0@
    }
}

impl Clone for RegionId {
    fn clone(&self) -> (r: Self)
        ensures
            r@ == self@,
    {
        RegionId(self.0.clone())
    }
}

impl RegionId {
    /// The id with the given text.
    #[must_use]
    pub fn new(value: &str) -> (r: Self)
        ensures
            r@ == value@,
    {
        RegionId(copy_str(value))
    }

    /// The text of the id.
    #[must_use]
    pub fn as_str(&self) -> (r: &str)
        ensures
            r@ == self@,
    {
        self.0.as_str()
    }
}

impl From<&str> for RegionId {
    fn from(value: &str) -> (r: Self)
        ensures
            r@ == value@,
    {
        RegionId::new(value)
    }
}

impl vstd::std_specs::convert::FromSpecImpl<&str> for RegionId {
    open spec fn obeys_from_spec() -> bool {
        false
    }

    open spec fn from_spec(value: &str) -> Self {
        arbitrary()
    }
}

impl From<String> for RegionId {
    fn from(value: String) -> (r: Self)
        ensures
            r@ == value@,
    {
        RegionId(value)
    }
}

impl vstd::std_specs::convert::FromSpecImpl<String> for RegionId {
    open spec fn obeys_from_spec() -> bool {
        true
    }

    closed spec fn from_spec(value: String) -> Self {
        RegionId(value)
    }
}

/// Names a pane.
#[derive(Debug, PartialEq, Eq, Hash)]
pub struct PaneId(String);

impl View for PaneId {
    type V = Seq<char>;

    closed spec fn view(&self) -> Seq<char> {
        self.0@
    }
}

impl Clone for PaneId {
    fn clone(&self) -> (r: Self)
        ensures
            r@ == self@,
    {
        PaneId(self.0.clone())
    }
}

impl PaneId {
    /// The id with the given text.
    #[must_use]
    pub fn new(value: &str) -> (r: Self)
        ensures
            r@ == value@,
    {
        PaneId(copy_str(value))
    }

    /// The text of the id.
    #[must_use]
    pub fn as_str(&self) -> (r: &str)
        ensures
            r@ == self@,
    {
        self.0.as_str()
    }
}

impl From<&str> for PaneId {
    fn from(value: &str) -> (r: Self)
        ensures
            r@ == value@,
    {
        PaneId::new(value)
    }
}

impl vstd::std_specs::convert::FromSpecImpl<&str> for PaneId {
    open spec fn obeys_from_spec() -> bool {
        false
    }

    open spec fn from_spec(value: &str) -> Self {
        arbitrary()
    }
}

impl From<String> for PaneId {
    fn from(value: String) -> (r: Self)
        ensures
            r@ == value@,
    {
        PaneId(value)
    }
}

impl vstd::std_specs::convert::FromSpecImpl<String> for PaneId {
    open spec fn obeys_from_spec() -> bool {
        true
    }

    closed spec fn from_spec(value: String) -> Self {
        PaneId(value)
    }
}

/// Names a mounted component.
#[derive(Debug, PartialEq, Eq, Hash)]
pub struct ComponentId(String);

impl View for ComponentId {
    type V = Seq<char>;

    closed spec fn view(&self) -> Seq<char> {
        self.0@
    }
}

impl Clone for ComponentId {
    fn clone(&self) -> (r: Self)
        ensures
            r@ == self@,
    {
        ComponentId(self.0.clone())
    }
}

impl ComponentId {
    /// The id with the given text.
    #[must_use]
    pub fn new(value: &str) -> (r: Self)
        ensures
            r@ == value@,
    {
        ComponentId(copy_str(value))
    }

    /// The text of the id.
    #[must_use]
    pub fn as_str(&self) -> (r: &str)
        ensures
            r@ == self@,
    {
        self.0.as_str()
    }
}

impl From<&str> for ComponentId {
    fn from(value: &str) -> (r: Self)
        ensures
            r@ == value@,
    {
        ComponentId::new(value)
    }
}

impl vstd::std_specs::convert::FromSpecImpl<&str> for ComponentId {
    open spec fn obeys_from_spec() -> bool {
        false
    }

    open spec fn from_spec(value: &str) -> Self {
        arbitrary()
    }
}

impl From<String> for ComponentId {
    fn from(value: String) -> (r: Self)
        ensures
            r@ == value@,
    {
        ComponentId(value)
    }
}

impl vstd::std_specs::convert::FromSpecImpl<String> for ComponentId {
    open spec fn obeys_from_spec() -> bool {
        true
    }

    closed spec fn from_spec(value: String) -> Self {
        ComponentId(value)
    }
}

/// Names a room.
#[derive(Debug, PartialEq, Eq, Hash)]
pub struct RoomId(String);

impl View for RoomId {
    type V = Seq<char>;

    closed spec fn view(&self) -> Seq<char> {
        self.0@
    }
}

impl Clone for RoomId {
    fn clone(&self) -> (r: Self)
        ensures
            r@ == self@,
    {
        RoomId(self.0.clone())
    }
}

impl RoomId {
    /// The id with the given text.
    #[must_use]
    pub fn new(value: &str) -> (r: Self)
        ensures
            r@ == value@,
    {
        RoomId(copy_str(value))
    }

    /// The text of the id.
    #[must_use]
    pub fn as_str(&self) -> (r: &str)
        ensures
            r@ == self@,
    {
        self.0.as_str()
    }
}

impl From<&str> for RoomId {
    fn from(value: &str) -> (r: Self)
        ensures
            r@ == value@,
    {
        RoomId::new(value)
    }
}

impl vstd::std_specs::convert::FromSpecImpl<&str> for RoomId {
    open spec fn obeys_from_spec() -> bool {
        false
    }

    open spec fn from_spec(value: &str) -> Self {
        arbitrary()
    }
}

impl From<String> for RoomId {
    fn from(value: String) -> (r: Self)
        ensures
            r@ == value@,
    {
        RoomId(value)
    }
}

impl vstd::std_specs::convert::FromSpecImpl<String> for RoomId {
    open spec fn obeys_from_spec() -> bool {
        true
    }

    closed spec fn from_spec(value: String) -> Self {
        RoomId(value)
    }
}

/// Names a canvas.
#[derive(Debug, PartialEq, Eq, Hash)]
pub struct CanvasId(String);

impl View for CanvasId {
    type V = Seq<char>;

    closed spec fn view(&self) -> Seq<char> {
        self.0@
    }
}

impl Clone for CanvasId {
    fn clone(&self) -> (r: Self)
        ensures
            r@ == self@,
    {
        CanvasId(self.0.clone())
    }
}

impl CanvasId {
    /// The id with the given text.
    #[must_use]
    pub fn new(value: &str) -> (r: Self)
        ensures
            r@ == value@,
    {
        CanvasId(copy_str(value))
    }

    /// The text of the id.
    #[must_use]
    pub fn as_str(&self) -> (r: &str)
        ensures
            r@ == self@,
    {
        self.0.as_str()
    }
}

impl From<&str> for CanvasId {
    fn from(value: &str) -> (r: Self)
        ensures
            r@ == value@,
    {
        CanvasId::new(value)
    }
}

impl vstd::std_specs::convert::FromSpecImpl<&str> for CanvasId {
    open spec fn obeys_from_spec() -> bool {
        false
    }

    open spec fn from_spec(value: &str) -> Self {
        arbitrary()
    }
}

impl From<String> for CanvasId {
    fn from(value: String) -> (r: Self)
        ensures
            r@ == value@,
    {
        CanvasId(value)
    }
}

impl vstd::std_specs::convert::FromSpecImpl<String> for CanvasId {
    open spec fn obeys_from_spec() -> bool {
        true
    }

    closed spec fn from_spec(value: String) -> Self {
        CanvasId(value)
    }
}

/// The text of an id that may be missing.
pub open spec fn opt_room(r: Option<RoomId>) -> Option<Seq<char>> {
    match r {
        Some(id) => Some(id@),
        None => None,
    }
}

/// The text of an id that may be missing.
pub open spec fn opt_pane(p: Option<PaneId>) -> Option<Seq<char>> {
    match p {
        Some(id) => Some(id@),
        None => None,
    }
}

/// What can be asked of the window.
#[allow(inconsistent_fields)]
#[derive(Clone, Debug, PartialEq, Eq)]
pub enum GuiCommand {
    FocusRegion { region: RegionId },
    OpenSession { session_id: String },
    SwitchSession { session_id: String },
    SwitchRoom { room_id: RoomId },
    MountComponent {
        region: RegionId,
        component_id: ComponentId,
        kind: String,
        props: Json,
        replace: bool,
    },
    UpdateComponent { component_id: ComponentId, props: Json },
    UnmountComponent { component_id: ComponentId },
    PatchCanvas { canvas_id: CanvasId, patch: Json },
    SetStatus { text: String },
}

/// What came of a command.
#[derive(Debug, PartialEq, Eq)]
pub enum GuiControlEvent {
    Focused { region: RegionId },
    SessionOpened { session_id: String },
    SessionSwitched { session_id: String },
    RoomSwitched { room_id: RoomId },
    ComponentMounted { component_id: ComponentId, region: RegionId, revision: u64 },
    ComponentUpdated { component_id: ComponentId, revision: u64 },
    ComponentUnmounted { component_id: ComponentId },
    CanvasPatched { canvas_id: CanvasId, revision: u64 },
    StatusChanged { text: String },
    Rejected { reason: String },
}

/// What came of a command.
pub enum EventView {
    Focused(Seq<char>),
    SessionOpened(Seq<char>),
    SessionSwitched(Seq<char>),
    RoomSwitched(Seq<char>),
    ComponentMounted(Seq<char>, Seq<char>, u64),
    ComponentUpdated(Seq<char>, u64),
    ComponentUnmounted(Seq<char>),
    CanvasPatched(Seq<char>, u64),
    StatusChanged(Seq<char>),
    Rejected(Seq<char>),
}

impl View for GuiControlEvent {
    type V = EventView;

    open spec fn view(&self) -> EventView {
        match *self {
            GuiControlEvent::Focused { region } => EventView::Focused(region@),
            GuiControlEvent::SessionOpened { session_id } => EventView::SessionOpened(session_id@),
            GuiControlEvent::SessionSwitched { session_id } => EventView::SessionSwitched(
                session_id@,
            ),
            GuiControlEvent::RoomSwitched { room_id } => EventView::RoomSwitched(room_id@),
            GuiControlEvent::ComponentMounted { component_id, region, revision } => {
                EventView::ComponentMounted(component_id@, region@, revision)
            },
            GuiControlEvent::ComponentUpdated { component_id, revision } => {
                EventView::ComponentUpdated(component_id@, revision)
            },
            GuiControlEvent::ComponentUnmounted { component_id } => {
                EventView::ComponentUnmounted(component_id@)
            },
            GuiControlEvent::CanvasPatched { canvas_id, revision } => EventView::CanvasPatched(
                canvas_id@,
                revision,
            ),
            GuiControlEvent::StatusChanged { text } => EventView::StatusChanged(text@),
            GuiControlEvent::Rejected { reason } => EventView::Rejected(reason@),
        }
    }
}

impl Clone for GuiControlEvent {
    fn clone(&self) -> (r: Self)
        ensures
            r@ == self@,
    {
        match self {
            GuiControlEvent::Focused { region } => GuiControlEvent::Focused {
                region: region.clone(),
            },
            GuiControlEvent::SessionOpened { session_id } => GuiControlEvent::SessionOpened {
                session_id: session_id.clone(),
            },
            GuiControlEvent::SessionSwitched { session_id } => GuiControlEvent::SessionSwitched {
                session_id: session_id.clone(),
            },
            GuiControlEvent::RoomSwitched { room_id } => GuiControlEvent::RoomSwitched {
                room_id: room_id.clone(),
            },
            GuiControlEvent::ComponentMounted { component_id, region, revision } => {
                GuiControlEvent::ComponentMounted {
                    component_id: component_id.clone(),
                    region: region.clone(),
                    revision: *revision,
                }
            },
            GuiControlEvent::ComponentUpdated { component_id, revision } => {
                GuiControlEvent::ComponentUpdated {
                    component_id: component_id.clone(),
                    revision: *revision,
                }
            },
            GuiControlEvent::ComponentUnmounted { component_id } => {
                GuiControlEvent::ComponentUnmounted { component_id: component_id.clone() }
            },
            GuiControlEvent::CanvasPatched { canvas_id, revision } => {
                GuiControlEvent::CanvasPatched {
                    canvas_id: canvas_id.clone(),
                    revision: *revision,
                }
            },
            GuiControlEvent::StatusChanged { text } => GuiControlEvent::StatusChanged {
                text: text.clone(),
            },
            GuiControlEvent::Rejected { reason } => GuiControlEvent::Rejected {
                reason: reason.clone(),
            },
        }
    }
}

/// A component that is mounted.
#[derive(Clone, Debug, PartialEq, Eq)]
pub struct MountedComponent {
    pub component_id: ComponentId,
    pub region: RegionId,
    pub kind: String,
    pub props: Json,
    pub revision: u64,
}

/// A component that is mounted.
pub struct MountedView {
    pub component_id: Seq<char>,
    pub region: Seq<char>,
    pub kind: Seq<char>,
    pub props: JsonView,
    pub revision: u64,
}

impl View for MountedComponent {
    type V = MountedView;

    open spec fn view(&self) -> MountedView {
        MountedView {
            component_id: self.component_id@,
            region: self.region@,
            kind: self.kind@,
            props: self.props@,
            revision: self.revision,
        }
    }
}

/// The patches that a canvas got.
#[derive(Clone, Debug, PartialEq, Eq)]
pub struct CanvasState {
    pub canvas_id: CanvasId,
    pub patches: Vec<Json>,
    pub revision: u64,
}

/// The patches that a canvas got.
#[verifier::ext_equal]
pub struct CanvasStateView {
    pub canvas_id: Seq<char>,
    pub patches: Seq<JsonView>,
    pub revision: u64,
}

impl View for CanvasState {
    type V = CanvasStateView;

    open spec fn view(&self) -> CanvasStateView {
        CanvasStateView {
            canvas_id: self.canvas_id@,
            patches: Seq::new(self.patches@.len(), |i: int| self.patches@[i]@),
            revision: self.revision,
        }
    }
}

/// What the window shows, as far as commands can change it.
#[derive(Clone, Debug)]
pub struct GuiControlState {
    active_region: RegionId,
    active_pane: Option<PaneId>,
    active_room: Option<RoomId>,
    active_session_id: Option<String>,
    components: Vec<MountedComponent>,
    canvases: Vec<CanvasState>,
    status: String,
    recent_events: VecDeque<GuiControlEvent>,
}

/// What the window shows: the components and canvases in the order in which they came,
/// and the events, oldest first.
#[verifier::ext_equal]
pub struct GuiControlView {
    pub active_region: Seq<char>,
    pub active_pane: Option<Seq<char>>,
    pub active_room: Option<Seq<char>>,
    pub active_session_id: Option<Seq<char>>,
    pub components: Seq<MountedView>,
    pub canvases: Seq<CanvasStateView>,
    pub status: Seq<char>,
    pub recent_events: Seq<EventView>,
}

spec fn component_views(s: Seq<MountedComponent>) -> Seq<MountedView> {
    Seq::new(s.len(), |i: int| s[i]@)
}

spec fn canvas_views(s: Seq<CanvasState>) -> Seq<CanvasStateView> {
    Seq::new(s.len(), |i: int| s[i]@)
}

spec fn event_views(s: Seq<GuiControlEvent>) -> Seq<EventView> {
    Seq::new(s.len(), |i: int| s[i]@)
}

impl View for GuiControlState {
    type V = GuiControlView;

    closed spec fn view(&self) -> GuiControlView {
        GuiControlView {
            active_region: self.active_region@,
            active_pane: opt_pane(self.active_pane),
            active_room: opt_room(self.active_room),
            active_session_id: opt_chars(self.active_session_id),
            components: component_views(self.components@),
            canvases: canvas_views(self.canvases@),
            status: self.status@,
            recent_events: event_views(self.recent_events@),
        }
    }
}

/// Whether a region is one of the window's.
pub open spec fn known_region(region: Seq<char>) -> bool {
    ||| region == "chat.inline"@
    ||| region == "main.canvas"@
    ||| region == "sidebar.left"@
    ||| region == "sidebar.right"@
    ||| region == "status.bar"@
    ||| region == "modal"@
    ||| region == "drawer.bottom"@
}

/// The place of the component with an id, from `from` on.
pub open spec fn mounted_at(components: Seq<MountedView>, id: Seq<char>, from: int) -> Option<int>
    decreases components.len() - from,
{
    if from >= components.len() {
        None
    } else if components[from].component_id == id {
        Some(from)
    } else {
        mounted_at(components, id, from + 1)
    }
}

/// The place of the canvas with an id, from `from` on.
pub open spec fn canvas_at(canvases: Seq<CanvasStateView>, id: Seq<char>, from: int) -> Option<int>
    decreases canvases.len() - from,
{
    if from >= canvases.len() {
        None
    } else if canvases[from].canvas_id == id {
        Some(from)
    } else {
        canvas_at(canvases, id, from + 1)
    }
}

/// A rejection.
pub open spec fn rejected(reason: Seq<char>) -> EventView {
    EventView::Rejected(reason)
}

/// What comes of a command, and the state after it before the event is recorded.
pub open spec fn carried_out(v: GuiControlView, command: GuiCommand) -> (
    GuiControlView,
    EventView,
) {
    match command {
        GuiCommand::FocusRegion { region } => {
            if known_region(region@) {
                (GuiControlView { active_region: region@, ..v }, EventView::Focused(region@))
            } else {
                (v, rejected("unknown region"@))
            }
        },
        GuiCommand::OpenSession { session_id } => (
            GuiControlView { active_session_id: Some(session_id@), ..v },
            EventView::SessionOpened(session_id@),
        ),
        GuiCommand::SwitchSession { session_id } => (
            GuiControlView { active_session_id: Some(session_id@), ..v },
            EventView::SessionSwitched(session_id@),
        ),
        GuiCommand::SwitchRoom { room_id } => (
            GuiControlView { active_room: Some(room_id@), ..v },
            EventView::RoomSwitched(room_id@),
        ),
        GuiCommand::MountComponent { region, component_id, kind, props, replace } => {
            if !known_region(region@) {
                (v, rejected("unknown region"@))
            } else {
                match mounted_at(v.components, component_id@, 0) {
                    Some(i) => {
                        if !replace {
                            (v, rejected("component already mounted"@))
                        } else {
                            let revision = (v.components[i].revision + 1) as u64;
                            (
                                GuiControlView {
                                    components: v.components.update(
                                        i,
                                        MountedView {
                                            region: region@,
                                            kind: kind@,
                                            props: props@,
                                            revision,
                                            ..v.components[i]
                                        },
                                    ),
                                    ..v
                                },
                                EventView::ComponentMounted(component_id@, region@, revision),
                            )
                        }
                    },
                    None => (
                        GuiControlView {
                            components: v.components.push(
                                MountedView {
                                    component_id: component_id@,
                                    region: region@,
                                    kind: kind@,
                                    props: props@,
                                    revision: 1,
                                },
                            ),
                            ..v
                        },
                        EventView::ComponentMounted(component_id@, region@, 1),
                    ),
                }
            }
        },
        GuiCommand::UpdateComponent { component_id, props } => {
            match mounted_at(v.components, component_id@, 0) {
                Some(i) => {
                    let revision = (v.components[i].revision + 1) as u64;
                    (
                        GuiControlView {
                            components: v.components.update(
                                i,
                                MountedView { props: props@, revision, ..v.components[i] },
                            ),
                            ..v
                        },
                        EventView::ComponentUpdated(component_id@, revision),
                    )
                },
                None => (v, rejected("component not mounted"@)),
            }
        },
        GuiCommand::UnmountComponent { component_id } => {
            match mounted_at(v.components, component_id@, 0) {
                Some(i) => (
                    GuiControlView { components: v.components.remove(i), ..v },
                    EventView::ComponentUnmounted(component_id@),
                ),
                None => (v, rejected("component not mounted"@)),
            }
        },
        GuiCommand::PatchCanvas { canvas_id, patch } => {
            match canvas_at(v.canvases, canvas_id@, 0) {
                Some(i) => {
                    let revision = (v.canvases[i].revision + 1) as u64;
                    (
                        GuiControlView {
                            canvases: v.canvases.update(
                                i,
                                CanvasStateView {
                                    patches: v.canvases[i].patches.push(patch@),
                                    revision,
                                    ..v.canvases[i]
                                },
                            ),
                            ..v
                        },
                        EventView::CanvasPatched(canvas_id@, revision),
                    )
                },
                None => (
                    GuiControlView {
                        canvases: v.canvases.push(
                            CanvasStateView {
                                canvas_id: canvas_id@,
                                patches: seq![patch@],
                                revision: 1,
                            },
                        ),
                        ..v
                    },
                    EventView::CanvasPatched(canvas_id@, 1),
                ),
            }
        },
        GuiCommand::SetStatus { text } => (
            GuiControlView { status: text@, ..v },
            EventView::StatusChanged(text@),
        ),
    }
}

/// The events with one more; the oldest goes where there are as many as are remembered.
pub open spec fn remembered(events: Seq<EventView>, event: EventView) -> Seq<EventView> {
    if events.len() == RECENT_EVENT_LIMIT {
        events.drop_first().push(event)
    } else {
        events.push(event)
    }
}

/// The state after a command.
pub open spec fn after_command(v: GuiControlView, command: GuiCommand) -> GuiControlView {
    let (next, event) = carried_out(v, command);
    GuiControlView { recent_events: remembered(next.recent_events, event), ..next }
}

/// Whether the revision that a command raises can still be raised.
pub open spec fn revision_fits(v: GuiControlView, command: GuiCommand) -> bool {
    match command {
        GuiCommand::MountComponent { component_id, .. } => mounted_at(
            v.components,
            component_id@,
            0,
        ) matches Some(i) ==> v.components[i].revision < u64::MAX,
        GuiCommand::UpdateComponent { component_id, .. } => mounted_at(
            v.components,
            component_id@,
            0,
        ) matches Some(i) ==> v.components[i].revision < u64::MAX,
        GuiCommand::PatchCanvas { canvas_id, .. } => canvas_at(
            v.canvases,
            canvas_id@,
            0,
        ) matches Some(i) ==> v.canvases[i].revision < u64::MAX,
        _ => true,
    }
}

/// No component and no canvas is there twice, and no more events are remembered than
/// should be.
pub open spec fn control_wf(v: GuiControlView) -> bool {
    &&& forall|i: int, j: int|
        0 <= i < j < v.components.len() ==> v.components[i].component_id
            != v.components[j].component_id
    &&& forall|i: int, j: int|
        0 <= i < j < v.canvases.len() ==> v.canvases[i].canvas_id != v.canvases[j].canvas_id
    &&& v.recent_events.len() <= RECENT_EVENT_LIMIT
}

/// How many components from `from` on stand in a region.
pub open spec fn count_in(components: Seq<MountedView>, region: Seq<char>, upto: int) -> nat
    decreases upto,
{
    if upto <= 0 {
        0
    } else {
        count_in(components, region, upto - 1) + (if components[upto - 1].region == region {
            1nat
        } else {
            0nat
        })
    }
}

proof fn lemma_mounted_at(components: Seq<MountedView>, id: Seq<char>, from: int)
    requires
        0 <= from,
    ensures
        match mounted_at(components, id, from) {
            Some(i) => from <= i < components.len() && components[i].component_id == id,
            None => forall|j: int|
                from <= j < components.len() ==> (#[trigger] components[j]).component_id != id,
        },
    decreases components.len() - from,
{
    if from < components.len() && components[from].component_id != id {
        lemma_mounted_at(components, id, from + 1);
    }
}

proof fn lemma_canvas_at(canvases: Seq<CanvasStateView>, id: Seq<char>, from: int)
    requires
        0 <= from,
    ensures
        match canvas_at(canvases, id, from) {
            Some(i) => from <= i < canvases.len() && canvases[i].canvas_id == id,
            None => forall|j: int|
                from <= j < canvases.len() ==> (#[trigger] canvases[j]).canvas_id != id,
        },
    decreases canvases.len() - from,
{
    if from < canvases.len() && canvases[from].canvas_id != id {
        lemma_canvas_at(canvases, id, from + 1);
    }
}

impl Default for GuiControlState {
    fn default() -> (r: Self)
        ensures
            control_wf(r@),
            r@ == (GuiControlView {
                active_region: "chat.inline"@,
                active_pane: None,
                active_room: None,
                active_session_id: None,
                components: Seq::empty(),
                canvases: Seq::empty(),
                status: "idle"@,
                recent_events: Seq::empty(),
            }),
    {
        let r = GuiControlState {
            active_region: RegionId::new(REGION_CHAT_INLINE),
            active_pane: None,
            active_room: None,
            active_session_id: None,
            components: Vec::new(),
            canvases: Vec::new(),
            status: copy_str("idle"),
            recent_events: VecDeque::new(),
        };
        assert(r@.components =~= Seq::empty());
        assert(r@.canvases =~= Seq::empty());
        assert(r@.recent_events =~= Seq::empty());
        r
    }
}

impl GuiControlState {
    /// The region that has the focus.
    #[must_use]
    pub fn active_region(&self) -> (r: &RegionId)
        ensures
            r@ == self@.active_region,
    {
        &self.active_region
    }

    /// The name of the region that has the focus.
    #[must_use]
    pub fn active_region_label(&self) -> (r: &str)
        ensures
            r@ == self@.active_region,
    {
        self.active_region.as_str()
    }

    /// The pane that is active.
    #[must_use]
    pub fn active_pane(&self) -> (r: Option<&PaneId>)
        ensures
            match r {
                Some(pane) => self@.active_pane == Some(pane@),
                None => self@.active_pane is None,
            },
    {
        self.active_pane.as_ref()
    }

    /// The room that is active.
    #[must_use]
    pub fn active_room(&self) -> (r: Option<&RoomId>)
        ensures
            match r {
                Some(room) => self@.active_room == Some(room@),
                None => self@.active_room is None,
            },
    {
        self.active_room.as_ref()
    }

    /// The session that is active.
    #[must_use]
    pub fn active_session_id(&self) -> (r: Option<&str>)
        ensures
            match r {
                Some(session) => self@.active_session_id == Some(session@),
                None => self@.active_session_id is None,
            },
    {
        match &self.active_session_id {
            Some(session) => Some(session.as_str()),
            None => None,
        }
    }

    /// The status line.
    #[must_use]
    pub fn status(&self) -> (r: &str)
        ensures
            r@ == self@.status,
    {
        self.status.as_str()
    }

    /// The component with an id.
    #[must_use]
    pub fn component(&self, component_id: &ComponentId) -> (r: Option<&MountedComponent>)
        ensures
            match mounted_at(self@.components, component_id@, 0) {
                Some(i) => r matches Some(c) && c@ == self@.components[i],
                None => r is None,
            },
            match r {
                Some(c) => c@.component_id == component_id@ && self@.components.contains(c@),
                None => forall|i: int|
                    0 <= i < self@.components.len() ==> (
                    #[trigger] self@.components[i]).component_id != component_id@,
            },
    {
        proof {
            lemma_mounted_at(self@.components, component_id@, 0);
        }
        match self.component_index(component_id) {
            Some(i) => Some(&self.components[i]),
            None => None,
        }
    }

    /// How many components are mounted.
    #[must_use]
    pub fn component_count(&self) -> (r: usize)
        ensures
            r == self@.components.len(),
    {
        self.components.len()
    }

    /// How many components are mounted in a region.
    #[must_use]
    pub fn component_count_in_region(&self, region: &RegionId) -> (r: usize)
        ensures
            r == count_in(self@.components, region@, self@.components.len() as int),
    {
        let total: usize = self.components.len();
        let mut count: usize = 0;
        let mut i: usize = 0;
        while i < total
            invariant
                i <= total,
                total == self.components.len(),
                count <= i,
                count == count_in(self@.components, region@, i as int),
            decreases total - i,
        {
            if str_eq(self.components[i].region.as_str(), region.as_str()) {
                count += 1;
            }
            i += 1;
        }
        count
    }

    /// The event that came last.
    #[must_use]
    pub fn last_event(&self) -> (r: Option<&GuiControlEvent>)
        ensures
            match r {
                Some(event) => self@.recent_events.len() > 0 && event@
                    == self@.recent_events.last(),
                None => self@.recent_events.len() == 0,
            },
    {
        let n: usize = self.recent_events.len();
        if n == 0 {
            None
        } else {
            Some(&self.recent_events[n - 1])
        }
    }

    /// Carries a command out and remembers what came of it.
    pub fn apply(&mut self, command: GuiCommand) -> (r: GuiControlEvent)
        requires
            control_wf(old(self)@),
            revision_fits(old(self)@, command),
        ensures
            control_wf(final(self)@),
            final(self)@ == after_command(old(self)@, command),
            r@ == carried_out(old(self)@, command).1,
    {
        let ghost v = self@;
        let event = match command {
            GuiCommand::FocusRegion { region } => self.focus_region(region),
            GuiCommand::OpenSession { session_id } => {
                self.active_session_id = Some(session_id.clone());
                GuiControlEvent::SessionOpened { session_id }
            },
            GuiCommand::SwitchSession { session_id } => {
                self.active_session_id = Some(session_id.clone());
                GuiControlEvent::SessionSwitched { session_id }
            },
            GuiCommand::SwitchRoom { room_id } => {
                self.active_room = Some(room_id.clone());
                GuiControlEvent::RoomSwitched { room_id }
            },
            GuiCommand::MountComponent { region, component_id, kind, props, replace } => {
                self.mount_component(region, component_id, kind, props, replace)
            },
            GuiCommand::UpdateComponent { component_id, props } => {
                self.update_component(component_id, props)
            },
            GuiCommand::UnmountComponent { component_id } => self.unmount_component(component_id),
            GuiCommand::PatchCanvas { canvas_id, patch } => self.patch_canvas(canvas_id, patch),
            GuiCommand::SetStatus { text } => {
                self.status = text.clone();
                GuiControlEvent::StatusChanged { text }
            },
        };
        proof {
            assert(self@ =~= carried_out(v, command).0);
            assert(event@ == carried_out(v, command).1);
            law_commands_keep_ids_apart(v, command);
        }
        self.record(event)
    }

    fn component_index(&self, id: &ComponentId) -> (r: Option<usize>)
        ensures
            match r {
                Some(i) => mounted_at(self@.components, id@, 0) == Some(i as int) && i
                    < self.components@.len(),
                None => mounted_at(self@.components, id@, 0) is None,
            },
    {
        let mut i: usize = 0;
        while i < self.components.len()
            invariant
                i <= self.components.len(),
                mounted_at(self@.components, id@, i as int) == mounted_at(
                    self@.components,
                    id@,
                    0,
                ),
            decreases self.components.len() - i,
        {
            if str_eq(self.components[i].component_id.as_str(), id.as_str()) {
                return Some(i);
            }
            i += 1;
        }
        None
    }

    fn canvas_index(&self, id: &CanvasId) -> (r: Option<usize>)
        ensures
            match r {
                Some(i) => canvas_at(self@.canvases, id@, 0) == Some(i as int) && i
                    < self.canvases@.len(),
                None => canvas_at(self@.canvases, id@, 0) is None,
            },
    {
        let mut i: usize = 0;
        while i < self.canvases.len()
            invariant
                i <= self.canvases.len(),
                canvas_at(self@.canvases, id@, i as int) == canvas_at(self@.canvases, id@, 0),
            decreases self.canvases.len() - i,
        {
            if str_eq(self.canvases[i].canvas_id.as_str(), id.as_str()) {
                return Some(i);
            }
            i += 1;
        }
        None
    }

    fn focus_region(&mut self, region: RegionId) -> (r: GuiControlEvent)
        ensures
            (final(self)@, r@) == carried_out(old(self)@, GuiCommand::FocusRegion { region }),
    {
        if !is_known_region(&region) {
            return GuiControlEvent::Rejected { reason: copy_str("unknown region") };
        }
        self.active_region = region.clone();
        GuiControlEvent::Focused { region }
    }

    fn mount_component(
        &mut self,
        region: RegionId,
        component_id: ComponentId,
        kind: String,
        props: Json,
        replace: bool,
    ) -> (r: GuiControlEvent)
        requires
            revision_fits(
                old(self)@,
                (GuiCommand::MountComponent { region, component_id, kind, props, replace }),
            ),
        ensures
            (final(self)@, r@) == carried_out(
                old(self)@,
                (GuiCommand::MountComponent { region, component_id, kind, props, replace }),
            ),
    {
        let ghost v = self@;
        let ghost command = GuiCommand::MountComponent {
            region,
            component_id,
            kind,
            props,
            replace,
        };
        if !is_known_region(&region) {
            return GuiControlEvent::Rejected { reason: copy_str("unknown region") };
        }
        if let Some(i) = self.component_index(&component_id) {
            if !replace {
                return GuiControlEvent::Rejected {
                    reason: copy_str("component already mounted"),
                };
            }
            let component = &mut self.components[i];
            component.region = region.clone();
            component.kind = kind;
            component.props = props;
            component.revision = component.revision + 1;
            let revision: u64 = component.revision;
            assert(self@.components =~= carried_out(v, command).0.components);
            return GuiControlEvent::ComponentMounted { component_id, region, revision };
        }
        self.components.push(
            MountedComponent {
                component_id: component_id.clone(),
                region: region.clone(),
                kind,
                props,
                revision: 1,
            },
        );
        assert(self@.components =~= carried_out(v, command).0.components);
        GuiControlEvent::ComponentMounted { component_id, region, revision: 1 }
    }

    fn update_component(&mut self, component_id: ComponentId, props: Json) -> (r: GuiControlEvent)
        requires
            revision_fits(
                old(self)@,
                (GuiCommand::UpdateComponent { component_id, props }),
            ),
        ensures
            (final(self)@, r@) == carried_out(
                old(self)@,
                (GuiCommand::UpdateComponent { component_id, props }),
            ),
    {
        let ghost v = self@;
        let ghost command = GuiCommand::UpdateComponent { component_id, props };
        match self.component_index(&component_id) {
            None => GuiControlEvent::Rejected { reason: copy_str("component not mounted") },
            Some(i) => {
                let component = &mut self.components[i];
                component.props = props;
                component.revision = component.revision + 1;
                let revision: u64 = component.revision;
                assert(self@.components =~= carried_out(v, command).0.components);
                GuiControlEvent::ComponentUpdated { component_id, revision }
            },
        }
    }

    fn unmount_component(&mut self, component_id: ComponentId) -> (r: GuiControlEvent)
        ensures
            (final(self)@, r@) == carried_out(
                old(self)@,
                (GuiCommand::UnmountComponent { component_id }),
            ),
    {
        let ghost v = self@;
        match self.component_index(&component_id) {
            None => GuiControlEvent::Rejected { reason: copy_str("component not mounted") },
            Some(i) => {
                self.components.remove(i);
                assert(self@.components =~= v.components.remove(i as int));
                GuiControlEvent::ComponentUnmounted { component_id }
            },
        }
    }

    fn patch_canvas(&mut self, canvas_id: CanvasId, patch: Json) -> (r: GuiControlEvent)
        requires
            revision_fits(old(self)@, (GuiCommand::PatchCanvas { canvas_id, patch })),
        ensures
            (final(self)@, r@) == carried_out(
                old(self)@,
                (GuiCommand::PatchCanvas { canvas_id, patch }),
            ),
    {
        let ghost v = self@;
        let ghost command = GuiCommand::PatchCanvas { canvas_id, patch };
        let revision: u64 = match self.canvas_index(&canvas_id) {
            Some(i) => {
                let canvas = &mut self.canvases[i];
                canvas.revision = canvas.revision + 1;
                canvas.patches.push(patch);
                let revision: u64 = canvas.revision;
                assert(self.canvases@[i as int]@ =~= carried_out(v, command).0.canvases[i as int]);
                revision
            },
            None => {
                let mut patches: Vec<Json> = Vec::new();
                patches.push(patch);
                let canvas = CanvasState { canvas_id: canvas_id.clone(), patches, revision: 1 };
                assert(canvas@ =~= carried_out(v, command).0.canvases.last());
                self.canvases.push(canvas);
                1
            },
        };
        assert(self@.canvases =~= carried_out(v, command).0.canvases);
        GuiControlEvent::CanvasPatched { canvas_id, revision }
    }

    fn record(&mut self, event: GuiControlEvent) -> (r: GuiControlEvent)
        ensures
            r@ == event@,
            final(self)@ == (GuiControlView {
                recent_events: remembered(old(self)@.recent_events, event@),
                ..old(self)@
            }),
    {
        let ghost v = self@;
        if self.recent_events.len() == RECENT_EVENT_LIMIT {
            self.recent_events.pop_front();
            assert(event_views(self.recent_events@) =~= v.recent_events.drop_first());
        }
        let ghost kept = self.recent_events@;
        self.recent_events.push_back(event.clone());
        assert(event_views(self.recent_events@) =~= event_views(kept).push(event@));
        event
    }
}

fn is_known_region(region: &RegionId) -> (r: bool)
    ensures
        r == known_region(region@),
{
    let name = region.as_str();
    str_eq(name, REGION_CHAT_INLINE) || str_eq(name, REGION_MAIN_CANVAS) || str_eq(
        name,
        REGION_SIDEBAR_LEFT,
    ) || str_eq(name, REGION_SIDEBAR_RIGHT) || str_eq(name, REGION_STATUS_BAR) || str_eq(
        name,
        REGION_MODAL,
    ) || str_eq(name, REGION_DRAWER_BOTTOM)
}

/// No command mounts a component twice or splits a canvas in two, and the memory for
/// events stays bounded.
pub proof fn law_commands_keep_ids_apart(v: GuiControlView, command: GuiCommand)
    requires
        control_wf(v),
    ensures
        control_wf(carried_out(v, command).0),
        control_wf(after_command(v, command)),
{
    let next = carried_out(v, command).0;
    match command {
        GuiCommand::MountComponent { component_id, .. } => {
            lemma_mounted_at(v.components, component_id@, 0);
        },
        GuiCommand::UpdateComponent { component_id, .. } => {
            lemma_mounted_at(v.components, component_id@, 0);
        },
        GuiCommand::UnmountComponent { component_id } => {
            lemma_mounted_at(v.components, component_id@, 0);
        },
        GuiCommand::PatchCanvas { canvas_id, .. } => {
            lemma_canvas_at(v.canvases, canvas_id@, 0);
        },
        _ => {},
    }
}

/// A rejected command changes nothing: it is only remembered that it was rejected.
pub proof fn law_rejected_changes_nothing(v: GuiControlView, command: GuiCommand)
    requires
        carried_out(v, command).1 is Rejected,
    ensures
        carried_out(v, command).0 == v,
{
}

/// Mounting a new component and unmounting it again leaves the components as they were.
pub proof fn law_unmount_reverts_mount(
    v: GuiControlView,
    region: RegionId,
    component_id: ComponentId,
    kind: String,
    props: Json,
    replace: bool,
)
    requires
        known_region(region@),
        mounted_at(v.components, component_id@, 0) is None,
    ensures
        after_command(
            after_command(
                v,
                (GuiCommand::MountComponent { region, component_id, kind, props, replace }),
            ),
            (GuiCommand::UnmountComponent { component_id }),
        ).components == v.components,
{
    let mounted = after_command(
        v,
        GuiCommand::MountComponent { region, component_id, kind, props, replace },
    );
    lemma_mounted_at(v.components, component_id@, 0);
    lemma_mounted_at(mounted.components, component_id@, 0);
    let i = mounted_at(mounted.components, component_id@, 0);
    assert(mounted.components.last().component_id == component_id@);
    assert(i == Some(v.components.len() as int)) by {
        if i is None {
            assert(mounted.components[v.components.len() as int].component_id == component_id@);
        } else if i->0 < v.components.len() {
            assert(v.components[i->0].component_id == mounted.components[i->0].component_id);
        }
    }
    assert(mounted.components.remove(v.components.len() as int) =~= v.components);
}

/// The last event remembered is what came of the last command.
pub proof fn law_last_event_is_remembered(v: GuiControlView, command: GuiCommand)
    ensures
        after_command(v, command).recent_events.len() > 0,
        after_command(v, command).recent_events.last() == carried_out(v, command).1,
{
}

/// Whether a component with an id is mounted.
pub open spec fn is_mounted(v: GuiControlView, id: Seq<char>) -> bool {
    exists|i: int| 0 <= i < v.components.len() && (#[trigger] v.components[i]).component_id == id
}

/// Whether all components but the one with an id are those of another state, each as it was
/// there.
pub open spec fn others_stay(before: GuiControlView, after: GuiControlView, id: Seq<char>) -> bool {
    forall|c: MountedView|
        c.component_id != id ==> (#[trigger] after.components.contains(c)
            <==> before.components.contains(c))
}

/// Whether everything but the components, the canvases and the events is as in another state.
pub open spec fn same_focus(before: GuiControlView, after: GuiControlView) -> bool {
    &&& after.active_region == before.active_region
    &&& after.active_pane == before.active_pane
    &&& after.active_room == before.active_room
    &&& after.active_session_id == before.active_session_id
    &&& after.status == before.status
}

/// A mount command that is answered with a mounted component leaves that component in the
/// region of the command, of its kind and with its properties, whether it is new or was there
/// before: at revision one where it is new, one further where it was there. The answer names
/// it, its region and its revision. Nothing else changes.
pub proof fn law_mounted_component_is_as_asked(
    v: GuiControlView,
    region: RegionId,
    component_id: ComponentId,
    kind: String,
    props: Json,
    replace: bool,
)
    requires
        control_wf(v),
        revision_fits(v, (GuiCommand::MountComponent { region, component_id, kind, props, replace })),
    ensures
        ({
            let command = GuiCommand::MountComponent { region, component_id, kind, props, replace };
            let event = carried_out(v, command).1;
            let after = after_command(v, command);
            event is ComponentMounted ==> {
                &&& exists|i: int|
                    0 <= i < after.components.len() && {
                        let c = #[trigger] after.components[i];
                        &&& c.component_id == component_id@
                        &&& c.region == region@
                        &&& c.kind == kind@
                        &&& c.props == props@
                        &&& event == EventView::ComponentMounted(
                            component_id@,
                            region@,
                            c.revision,
                        )
                        &&& !is_mounted(v, component_id@) ==> c.revision == 1
                            && after.components.len() == v.components.len() + 1
                        &&& is_mounted(v, component_id@) ==> after.components.len()
                            == v.components.len() && v.components[i].component_id == component_id@
                            && c.revision == v.components[i].revision + 1
                    }
                &&& others_stay(v, after, component_id@)
                &&& after.canvases == v.canvases
                &&& same_focus(v, after)
            }
        }),
{
    let command = GuiCommand::MountComponent { region, component_id, kind, props, replace };
    let after = after_command(v, command);
    lemma_mounted_at(v.components, component_id@, 0);
    if carried_out(v, command).1 is ComponentMounted {
        match mounted_at(v.components, component_id@, 0) {
            Some(i) => {
                assert(v.components[i].component_id == component_id@);
                assert(is_mounted(v, component_id@));
                assert(after.components[i].component_id == component_id@);
                lemma_updated(v, after, i, component_id@);
            },
            None => {
                let n = v.components.len() as int;
                assert(!is_mounted(v, component_id@));
                assert(after.components[n].component_id == component_id@);
                assert forall|c: MountedView|
                    c.component_id != component_id@ implies (#[trigger] after.components.contains(
                    c,
                ) <==> v.components.contains(c)) by {
                    if v.components.contains(c) {
                        let k = choose|k: int| 0 <= k < n && v.components[k] == c;
                        assert(after.components[k] == c);
                    }
                    if after.components.contains(c) {
                        let k = choose|k: int| 0 <= k <= n && after.components[k] == c;
                        assert(v.components[k] == c);
                    }
                }
            },
        }
    }
}

proof fn lemma_updated(before: GuiControlView, after: GuiControlView, i: int, id: Seq<char>)
    requires
        0 <= i < before.components.len(),
        after.components.len() == before.components.len(),
        after.components == before.components.update(i, after.components[i]),
        before.components[i].component_id == id,
        after.components[i].component_id == id,
    ensures
        others_stay(before, after, id),
{
    assert forall|c: MountedView|
        c.component_id != id implies (#[trigger] after.components.contains(c)
        <==> before.components.contains(c)) by {
        if before.components.contains(c) {
            let k = choose|k: int| 0 <= k < before.components.len() && before.components[k] == c;
            assert(after.components[k] == c);
        }
        if after.components.contains(c) {
            let k = choose|k: int| 0 <= k < after.components.len() && after.components[k] == c;
            assert(before.components[k] == c);
        }
    }
}

/// Mounting is refused where the region is none of the window's, and where the component is
/// there already and is not to be replaced; nowhere else.
pub proof fn law_mounting_is_refused_where_it_must(
    v: GuiControlView,
    region: RegionId,
    component_id: ComponentId,
    kind: String,
    props: Json,
    replace: bool,
)
    ensures
        ({
            let event = carried_out(
                v,
                (GuiCommand::MountComponent { region, component_id, kind, props, replace }),
            ).1;
            let names_a_region = region@ == "chat.inline"@ || region@ == "main.canvas"@ || region@
                == "sidebar.left"@ || region@ == "sidebar.right"@ || region@ == "status.bar"@
                || region@ == "modal"@ || region@ == "drawer.bottom"@;
            &&& event is ComponentMounted <==> names_a_region && (replace || !is_mounted(
                v,
                component_id@,
            ))
            &&& !names_a_region ==> event == EventView::Rejected("unknown region"@)
            &&& names_a_region && !replace && is_mounted(v, component_id@) ==> event
                == EventView::Rejected("component already mounted"@)
        }),
{
    lemma_mounted_at(v.components, component_id@, 0);
    if let Some(i) = mounted_at(v.components, component_id@, 0) {
        assert(v.components[i].component_id == component_id@);
    }
}

/// A component that is updated has the new properties one revision further, and its region
/// and kind as before. One that is not mounted is not updated.
pub proof fn law_updated_component_has_the_properties(
    v: GuiControlView,
    component_id: ComponentId,
    props: Json,
    i: int,
)
    requires
        control_wf(v),
        revision_fits(v, (GuiCommand::UpdateComponent { component_id, props })),
    ensures
        ({
            let command = GuiCommand::UpdateComponent { component_id, props };
            let event = carried_out(v, command).1;
            let after = after_command(v, command);
            &&& 0 <= i < v.components.len() && v.components[i].component_id == component_id@ ==> {
                &&& after.components.len() == v.components.len()
                &&& after.components[i].component_id == component_id@
                &&& after.components[i].region == v.components[i].region
                &&& after.components[i].kind == v.components[i].kind
                &&& after.components[i].props == props@
                &&& after.components[i].revision == v.components[i].revision + 1
                &&& event == EventView::ComponentUpdated(
                    component_id@,
                    after.components[i].revision,
                )
                &&& others_stay(v, after, component_id@)
            }
            &&& !is_mounted(v, component_id@) ==> event == EventView::Rejected(
                "component not mounted"@,
            ) && after.components == v.components
            &&& after.canvases == v.canvases
            &&& same_focus(v, after)
        }),
{
    lemma_mounted_at(v.components, component_id@, 0);
    let after = after_command(v, GuiCommand::UpdateComponent { component_id, props });
    if let Some(j) = mounted_at(v.components, component_id@, 0) {
        assert(v.components[j].component_id == component_id@);
        lemma_updated(v, after, j, component_id@);
    }
}

/// A component that is unmounted is there no more, and all others are. One that is not
/// mounted is not unmounted.
pub proof fn law_unmounted_component_is_gone(v: GuiControlView, component_id: ComponentId)
    requires
        control_wf(v),
    ensures
        ({
            let command = GuiCommand::UnmountComponent { component_id };
            let event = carried_out(v, command).1;
            let after = after_command(v, command);
            &&& !is_mounted(after, component_id@)
            &&& others_stay(v, after, component_id@)
            &&& is_mounted(v, component_id@) ==> event == EventView::ComponentUnmounted(
                component_id@,
            ) && after.components.len() == v.components.len() - 1
            &&& !is_mounted(v, component_id@) ==> event == EventView::Rejected(
                "component not mounted"@,
            ) && after.components == v.components
            &&& after.canvases == v.canvases
            &&& same_focus(v, after)
        }),
{
    lemma_mounted_at(v.components, component_id@, 0);
    let after = after_command(v, GuiCommand::UnmountComponent { component_id });
    if let Some(j) = mounted_at(v.components, component_id@, 0) {
        assert(v.components[j].component_id == component_id@);
        assert forall|c: MountedView|
            c.component_id != component_id@ implies (#[trigger] after.components.contains(c)
            <==> v.components.contains(c)) by {
            if v.components.contains(c) {
                let k = choose|k: int| 0 <= k < v.components.len() && v.components[k] == c;
                if k < j {
                    assert(after.components[k] == c);
                } else {
                    assert(after.components[k - 1] == c);
                }
            }
            if after.components.contains(c) {
                let k = choose|k: int| 0 <= k < after.components.len() && after.components[k] == c;
                if k < j {
                    assert(v.components[k] == c);
                } else {
                    assert(v.components[k + 1] == c);
                }
            }
        }
        assert forall|k: int| 0 <= k < after.components.len() implies (
        #[trigger] after.components[k]).component_id != component_id@ by {
            if k < j {
                assert(after.components[k] == v.components[k]);
            } else {
                assert(after.components[k] == v.components[k + 1]);
            }
        }
    }
}

/// A patch is the last that its canvas holds, after those it held before, and raises its
/// revision by one; a canvas that was not there holds that patch alone. No other canvas and
/// no component changes.
pub proof fn law_patch_is_the_last_of_its_canvas(
    v: GuiControlView,
    canvas_id: CanvasId,
    patch: Json,
    i: int,
)
    requires
        control_wf(v),
        revision_fits(v, (GuiCommand::PatchCanvas { canvas_id, patch })),
    ensures
        ({
            let command = GuiCommand::PatchCanvas { canvas_id, patch };
            let event = carried_out(v, command).1;
            let after = after_command(v, command);
            let known = exists|j: int|
                0 <= j < v.canvases.len() && (#[trigger] v.canvases[j]).canvas_id == canvas_id@;
            &&& 0 <= i < v.canvases.len() && v.canvases[i].canvas_id == canvas_id@ ==> {
                &&& after.canvases.len() == v.canvases.len()
                &&& after.canvases[i].canvas_id == canvas_id@
                &&& after.canvases[i].patches == v.canvases[i].patches.push(patch@)
                &&& after.canvases[i].revision == v.canvases[i].revision + 1
                &&& event == EventView::CanvasPatched(canvas_id@, after.canvases[i].revision)
            }
            &&& !known ==> {
                &&& after.canvases.len() == v.canvases.len() + 1
                &&& after.canvases.last().canvas_id == canvas_id@
                &&& after.canvases.last().patches == seq![patch@]
                &&& after.canvases.last().revision == 1
                &&& event == EventView::CanvasPatched(canvas_id@, 1)
            }
            &&& forall|j: int|
                0 <= j < v.canvases.len() && v.canvases[j].canvas_id != canvas_id@
                    ==> #[trigger] after.canvases[j] == v.canvases[j]
            &&& after.components == v.components
            &&& same_focus(v, after)
        }),
{
    lemma_canvas_at(v.canvases, canvas_id@, 0);
    if let Some(j) = canvas_at(v.canvases, canvas_id@, 0) {
        assert(v.canvases[j].canvas_id == canvas_id@);
    }
}

/// Sessions, rooms and the status line are what the last command that speaks of them said;
/// a session, a room and a status are always taken, and each command changes its own part
/// alone.
pub proof fn law_last_word_counts(
    v: GuiControlView,
    session_id: String,
    room_id: RoomId,
    text: String,
)
    ensures
        ({
            let opened = after_command(v, (GuiCommand::OpenSession { session_id }));
            let switched = after_command(v, (GuiCommand::SwitchSession { session_id }));
            let moved = after_command(v, (GuiCommand::SwitchRoom { room_id }));
            let told = after_command(v, (GuiCommand::SetStatus { text }));
            &&& opened == (GuiControlView {
                active_session_id: Some(session_id@),
                recent_events: opened.recent_events,
                ..v
            })
            &&& switched == (GuiControlView {
                active_session_id: Some(session_id@),
                recent_events: switched.recent_events,
                ..v
            })
            &&& moved == (GuiControlView {
                active_room: Some(room_id@),
                recent_events: moved.recent_events,
                ..v
            })
            &&& told == (GuiControlView {
                status: text@,
                recent_events: told.recent_events,
                ..v
            })
            &&& opened.recent_events.last() == EventView::SessionOpened(session_id@)
            &&& switched.recent_events.last() == EventView::SessionSwitched(session_id@)
            &&& moved.recent_events.last() == EventView::RoomSwitched(room_id@)
            &&& told.recent_events.last() == EventView::StatusChanged(text@)
        }),
{
}

/// The focus goes to the region that a command names, where the window has it, and stays
/// otherwise.
pub proof fn law_focus_goes_where_asked(v: GuiControlView, region: RegionId)
    ensures
        ({
            let after = after_command(v, (GuiCommand::FocusRegion { region }));
            let names_a_region = region@ == "chat.inline"@ || region@ == "main.canvas"@ || region@
                == "sidebar.left"@ || region@ == "sidebar.right"@ || region@ == "status.bar"@
                || region@ == "modal"@ || region@ == "drawer.bottom"@;
            &&& names_a_region ==> after.active_region == region@ && after.recent_events.last()
                == EventView::Focused(region@)
            &&& !names_a_region ==> after.active_region == v.active_region
                && after.recent_events.last() == EventView::Rejected("unknown region"@)
            &&& after == (GuiControlView {
                active_region: after.active_region,
                recent_events: after.recent_events,
                ..v
            })
        }),
{
}

/// The events before the last are those that were remembered; only the oldest is forgotten,
/// and only where sixty-four are remembered already.
pub proof fn law_newest_events_are_remembered(v: GuiControlView, command: GuiCommand)
    requires
        control_wf(v),
    ensures
        ({
            let after = after_command(v, command).recent_events;
            &&& v.recent_events.len() < 64 ==> after.drop_last() == v.recent_events
            &&& v.recent_events.len() == 64 ==> after.drop_last() == v.recent_events.drop_first()
            &&& after.len() <= 64
        }),
{
    let after = after_command(v, command).recent_events;
    if v.recent_events.len() < 64 {
        assert(after.drop_last() =~= v.recent_events);
    } else {
        assert(after.drop_last() =~= v.recent_events.drop_first());
    }
}

proof fn lemma_count_in(a: Seq<MountedView>, b: Seq<MountedView>, region: Seq<char>, upto: int)
    requires
        0 <= upto <= a.len(),
        upto <= b.len(),
        forall|i: int| 0 <= i < upto ==> (#[trigger] a[i]).region == b[i].region,
    ensures
        count_in(a, region, upto) == count_in(b, region, upto),
    decreases upto,
{
    if upto > 0 {
        lemma_count_in(a, b, region, upto - 1);
        assert(a[upto - 1].region == b[upto - 1].region);
    }
}

/// A region holds one component more for each that joins at the end and stands in it, none
/// without components, and no fewer for one that stands elsewhere.
pub proof fn law_regions_are_counted(
    components: Seq<MountedView>,
    one_more: MountedView,
    region: Seq<char>,
)
    ensures
        count_in(Seq::empty(), region, 0) == 0,
        one_more.region == region ==> count_in(
            components.push(one_more),
            region,
            components.len() as int + 1,
        ) == count_in(components, region, components.len() as int) + 1,
        one_more.region != region ==> count_in(
            components.push(one_more),
            region,
            components.len() as int + 1,
        ) == count_in(components, region, components.len() as int),
{
    let n = components.len() as int;
    let more = components.push(one_more);
    lemma_count_in(more, components, region, n);
    assert(more[n] == one_more);
}

} // verus!
