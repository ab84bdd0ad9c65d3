//! What is drawn of a canvas, short of pixels: texts, outlines, the edges that have
//! both ends, and what the pointer does.

use vstd::prelude::*;

use crate::shell::canvas::ledger::{CanvasComponent, CanvasLedger, ComponentKind};
use crate::shell::canvas::patch::{ids_contain, ComponentId, Rect, SurfacePatch, Viewport};
use crate::shell::canvas::templates::{str_slot, NodeStatus, TallyRow, TemplateContent};
use crate::text::{chars_of, copy_opt, copy_str, decimal_text, decimal_usize, str_eq, string_of_range};

verus! {

broadcast use vstd::string::group_string_axioms;

use crate::json::JsonView;
use crate::ordered_map::{holds_key, keys_distinct, lemma_place_unique, value_of};
use crate::shell::canvas::ledger::{ComponentView, Components, Edges};
use crate::shell::canvas::patch::{id_views, PatchView};
use crate::shell::canvas::templates::{
    content_of, template_of, text_slot, ContentView,
};
use crate::text::{decimal, opt_chars};

/// A color of the theme.
#[derive(Clone, Copy, Debug, PartialEq, Eq, Structural)]
pub enum ThemeColor {
    Panel,
    PanelRaised,
    Rule,
    Muted,
    Accent,
    AccentDark,
    User,
    Green,
    Danger,
    Thinking,
}

/// The look of a component: its fill, its border, the color of its title and the width of
/// its border in halves of a canvas unit.
#[derive(Clone, Copy, Debug, PartialEq, Eq, Structural)]
pub struct ComponentStyle {
    pub fill: ThemeColor,
    pub border: ThemeColor,
    pub accent: ThemeColor,
    pub border_halves: u8,
}

/// The look of a kind: frames and lanes stay in the background, nodes and ports carry the
/// accent, everything else is a raised panel.
pub open spec fn look_of(kind: ComponentKind) -> ComponentStyle {
    if kind is Frame || kind is Lane {
        ComponentStyle {
            fill: ThemeColor::Panel,
            border: ThemeColor::Rule,
            accent: ThemeColor::Muted,
            border_halves: 2,
        }
    } else if kind is Node || kind is Port {
        ComponentStyle {
            fill: ThemeColor::PanelRaised,
            border: ThemeColor::Accent,
            accent: ThemeColor::AccentDark,
            border_halves: 3,
        }
    } else {
        ComponentStyle {
            fill: ThemeColor::PanelRaised,
            border: ThemeColor::Rule,
            accent: ThemeColor::AccentDark,
            border_halves: 2,
        }
    }
}

/// The look of a kind.
pub fn style_for_kind(kind: ComponentKind) -> (r: ComponentStyle)
    ensures
        r == look_of(kind),
{
    match kind {
        ComponentKind::Frame | ComponentKind::Lane => ComponentStyle {
            fill: ThemeColor::Panel,
            border: ThemeColor::Rule,
            accent: ThemeColor::Muted,
            border_halves: 2,
        },
        ComponentKind::Node | ComponentKind::Port => ComponentStyle {
            fill: ThemeColor::PanelRaised,
            border: ThemeColor::Accent,
            accent: ThemeColor::AccentDark,
            border_halves: 3,
        },
        ComponentKind::Card
        | ComponentKind::TextBlock
        | ComponentKind::Table
        | ComponentKind::MediaSlot
        | ComponentKind::Stat
        | ComponentKind::EdgeLabel => ComponentStyle {
            fill: ThemeColor::PanelRaised,
            border: ThemeColor::Rule,
            accent: ThemeColor::AccentDark,
            border_halves: 2,
        },
    }
}

/// The color of a node's status.
pub open spec fn color_of_status(status: NodeStatus) -> ThemeColor {
    match status {
        NodeStatus::Idle => ThemeColor::Muted,
        NodeStatus::Running => ThemeColor::User,
        NodeStatus::Succeeded => ThemeColor::Green,
        NodeStatus::Error => ThemeColor::Danger,
        NodeStatus::Waiting => ThemeColor::Thinking,
    }
}

/// The color of a node's status.
pub fn status_color(status: NodeStatus) -> (r: ThemeColor)
    ensures
        r == color_of_status(status),
{
    match status {
        NodeStatus::Idle => ThemeColor::Muted,
        NodeStatus::Running => ThemeColor::User,
        NodeStatus::Succeeded => ThemeColor::Green,
        NodeStatus::Error => ThemeColor::Danger,
        NodeStatus::Waiting => ThemeColor::Thinking,
    }
}

/// No two statuses have the same color.
pub proof fn law_status_colors_differ(a: NodeStatus, b: NodeStatus)
    requires
        a != b,
    ensures
        color_of_status(a) != color_of_status(b),
{
}

/// Whether a kind has a line of text below its title.
pub fn shows_body_line(kind: ComponentKind) -> (r: bool)
    ensures
        r == !(kind is Port || kind is EdgeLabel),
{
    match kind {
        ComponentKind::Port => false,
        ComponentKind::EdgeLabel => false,
        _ => true,
    }
}

/// What is drawn of a component by its template; nothing where it has none.
pub fn template_content_for(component: &CanvasComponent) -> (r: Option<TemplateContent>)
    ensures
        match template_of(component@.template) {
            Some(t) => r matches Some(c) && c@ == content_of(t, component@.content),
            None => r is None,
        },
{
    TemplateContent::resolve(component.template.as_str(), &component.content)
}

/// The place of the first line feed, or the length of the text.
pub open spec fn first_line_feed(s: Seq<char>) -> int
    decreases s.len(),
{
    if s.len() == 0 || s[0] == '\n' {
        0
    } else {
        1 + first_line_feed(s.drop_first())
    }
}

/// The first line of a text: up to the first line feed, without a carriage return
/// right before it.
pub open spec fn first_line(s: Seq<char>) -> Seq<char> {
    let n = first_line_feed(s);
    if 0 < n < s.len() && s[n - 1] == '\r' {
        s.take(n - 1)
    } else {
        s.take(n)
    }
}

fn first_line_of(s: &str) -> (r: String)
    ensures
        r@ == first_line(s@),
{
    let chars = chars_of(s);
    let mut n: usize = 0;
    assert(chars@.skip(0) =~= chars@);
    while n < chars.len() && chars[n] != '\n'
        invariant
            n <= chars@.len(),
            chars@ == s@,
            first_line_feed(s@) == n + first_line_feed(chars@.skip(n as int)),
        decreases chars@.len() - n,
    {
        assert(chars@.skip(n as int).drop_first() =~= chars@.skip(n + 1));
        n = n + 1;
    }
    let end: usize = if n > 0 && n < chars.len() && chars[n - 1] == '\r' {
        n - 1
    } else {
        n
    };
    assert(chars@.subrange(0, end as int) =~= chars@.take(end as int));
    string_of_range(&chars, 0, end)
}

/// The text under `body`, or under `text` where there is no `body` at all.
pub open spec fn body_text(content: JsonView) -> Option<Seq<char>> {
    if content.get("body"@) is Some {
        text_slot(content, "body"@)
    } else {
        text_slot(content, "text"@)
    }
}

/// A component in one line: its title, else the first line of its body, else its
/// template's name.
pub open spec fn summary_of(c: ComponentView) -> Seq<char> {
    match text_slot(c.content, "title"@) {
        Some(title) => title,
        None => match body_text(c.content) {
            Some(text) => first_line(text),
            None => c.template,
        },
    }
}

/// A component in one line.
pub fn component_summary(component: &CanvasComponent) -> (r: String)
    ensures
        r@ == summary_of(component@),
{
    if let Some(title) = str_slot(&component.content, "title") {
        return title;
    }
    let body = if component.content.get("body").is_some() {
        str_slot(&component.content, "body")
    } else {
        str_slot(&component.content, "text")
    };
    match body {
        Some(text) => first_line_of(text.as_str()),
        None => component.template.clone(),
    }
}

/// The heading of a component: its title, else its id.
pub fn component_title(component: &CanvasComponent) -> (r: String)
    ensures
        r@ == (match text_slot(component@.content, "title"@) {
            Some(title) => title,
            None => component@.id,
        }),
{
    match str_slot(&component.content, "title") {
        Some(title) => title,
        None => copy_str(component.id.as_str()),
    }
}

/// How a component is outlined.
#[derive(Clone, Copy, Debug, PartialEq, Eq, Structural)]
pub enum OutlineState {
    /// Not at all.
    Plain,
    /// The pointer is over it.
    Hover,
    /// It is selected.
    Selected,
    /// It has the focus.
    Focused,
    /// An agent is writing to it.
    ActiveWrite,
}

/// The strongest outline that applies: writing over focus over selection over hover.
pub open spec fn outline_of(writing: bool, focused: bool, selected: bool, hovered: bool) -> OutlineState {
    if writing {
        OutlineState::ActiveWrite
    } else if focused {
        OutlineState::Focused
    } else if selected {
        OutlineState::Selected
    } else if hovered {
        OutlineState::Hover
    } else {
        OutlineState::Plain
    }
}

impl OutlineState {
    /// The strongest outline that applies.
    pub fn resolve(
        is_active_write: bool,
        is_focused: bool,
        is_selected: bool,
        is_hovered: bool,
    ) -> (r: Self)
        ensures
            r == outline_of(is_active_write, is_focused, is_selected, is_hovered),
    {
        if is_active_write {
            OutlineState::ActiveWrite
        } else if is_focused {
            OutlineState::Focused
        } else if is_selected {
            OutlineState::Selected
        } else if is_hovered {
            OutlineState::Hover
        } else {
            OutlineState::Plain
        }
    }

    /// The color of the outline, where there is one.
    pub fn color(self) -> (r: Option<ThemeColor>)
        ensures
            r == match self {
                OutlineState::Plain => None,
                OutlineState::Hover => Some(ThemeColor::Muted),
                OutlineState::Selected => Some(ThemeColor::Accent),
                OutlineState::Focused => Some(ThemeColor::AccentDark),
                OutlineState::ActiveWrite => Some(ThemeColor::User),
            },
    {
        match self {
            OutlineState::Plain => None,
            OutlineState::Hover => Some(ThemeColor::Muted),
            OutlineState::Selected => Some(ThemeColor::Accent),
            OutlineState::Focused => Some(ThemeColor::AccentDark),
            OutlineState::ActiveWrite => Some(ThemeColor::User),
        }
    }

    /// The width of the outline in canvas units.
    pub fn width(self) -> (r: u8)
        ensures
            r == match self {
                OutlineState::Plain => 0u8,
                OutlineState::Hover => 1u8,
                OutlineState::Selected => 2u8,
                OutlineState::Focused => 2u8,
                OutlineState::ActiveWrite => 3u8,
            },
    {
        match self {
            OutlineState::Plain => 0,
            OutlineState::Hover => 1,
            OutlineState::Selected | OutlineState::Focused => 2,
            OutlineState::ActiveWrite => 3,
        }
    }
}

/// The view's own state: camera and pointer.
#[derive(Debug, PartialEq, Eq)]
pub struct CanvasInteraction {
    pub viewport: Viewport,
    /// The component under the pointer.
    pub hover: Option<ComponentId>,
    /// The component with the focus.
    pub focus: Option<ComponentId>,
    /// The component an agent is writing to.
    pub active_write: Option<ComponentId>,
}

/// Whether an optional id is a given one.
pub open spec fn names(o: Option<ComponentId>, id: Seq<char>) -> bool {
    o matches Some(c) && c@ == id
}

fn is_id(o: &Option<ComponentId>, id: &ComponentId) -> (r: bool)
    ensures
        r == names(*o, id@),
{
    match o {
        Some(c) => str_eq(c.as_str(), id.as_str()),
        None => false,
    }
}

impl Default for CanvasInteraction {
    fn default() -> (r: Self)
        ensures
            r.viewport == crate::shell::canvas::patch::origin_viewport(),
            r.hover is None,
            r.focus is None,
            r.active_write is None,
    {
        CanvasInteraction {
            viewport: Viewport::default(),
            hover: None,
            focus: None,
            active_write: None,
        }
    }
}

impl CanvasInteraction {
    /// How a component is outlined in this state.
    pub fn outline_for(&self, id: &ComponentId, ledger: &CanvasLedger) -> (r: OutlineState)
        ensures
            r == outline_of(
                names(self.active_write, id@),
                names(self.focus, id@),
                ledger@.selected.contains(id@),
                names(self.hover, id@),
            ),
    {
        OutlineState::resolve(
            is_id(&self.active_write, id),
            is_id(&self.focus, id),
            ids_contain(&ledger.selection.component_ids, id),
            is_id(&self.hover, id),
        )
    }

    /// The pointer moved onto a component or off all of them.
    pub fn pointer_moved(&mut self, hit: Option<ComponentId>)
        ensures
            *final(self) == (CanvasInteraction { hover: hit, ..*old(self) }),
    {
        self.hover = hit;
    }

    /// The left button went down on a component or on the empty canvas: the focus goes
    /// there, and the patch to apply makes it the selection.
    pub fn left_pressed(&mut self, hit: Option<ComponentId>) -> (patch: SurfacePatch)
        ensures
            *final(self) == (CanvasInteraction { focus: hit, ..*old(self) }),
            patch@ == PatchView::Select(
                match hit {
                    Some(id) => seq![id@],
                    None => Seq::empty(),
                },
            ),
    {
        let mut ids: Vec<ComponentId> = Vec::new();
        if let Some(id) = &hit {
            ids.push(id.clone());
        }
        assert(hit matches Some(id) ==> id_views(ids@) =~= seq![id@]);
        assert(hit is None ==> id_views(ids@) =~= Seq::empty());
        self.focus = hit;
        SurfacePatch::Select { ids }
    }
}

/// The rectangles of both ends of the edges among the first `n` that have both.
pub open spec fn edges_among(edges: Edges, components: Components, n: int) -> Seq<(Rect, Rect)>
    decreases n,
{
    if n <= 0 {
        Seq::empty()
    } else {
        let before = edges_among(edges, components, n - 1);
        let e = edges[n - 1].1;
        match (
            value_of(components, e.from.component_id),
            value_of(components, e.to.component_id),
        ) {
            (Some(a), Some(b)) => before.push((a.rect, b.rect)),
            _ => before,
        }
    }
}

/// The edges to draw: the rectangles of both ends, where both are there.
pub fn drawn_edges(ledger: &CanvasLedger) -> (r: Vec<(Rect, Rect)>)
    requires
        ledger.wf(),
    ensures
        r@ == edges_among(ledger@.edges, ledger@.components, ledger@.edges.len() as int),
{
    let values = ledger.edges.values();
    let mut r: Vec<(Rect, Rect)> = Vec::new();
    let mut i: usize = 0;
    while i < values.len()
        invariant
            ledger.wf(),
            i <= values@.len(),
            values@.len() == ledger@.edges.len(),
            forall|k: int|
                0 <= k < values@.len() ==> (#[trigger] values@[k])@ == ledger@.edges[k].1,
            r@ == edges_among(ledger@.edges, ledger@.components, i as int),
        decreases values@.len() - i,
    {
        assert(values@[i as int]@ == ledger@.edges[i as int].1);
        let from = ledger.component(&values[i].from.component_id);
        let to = ledger.component(&values[i].to.component_id);
        if let (Some(a), Some(b)) = (from, to) {
            r.push((a.rect, b.rect));
        }
        i = i + 1;
    }
    r
}

/// One thing drawn inside a component with a template.
#[allow(inconsistent_fields)]
#[derive(Debug, PartialEq, Eq)]
pub enum DrawItem {
    /// A heading.
    Title(String),
    /// A paragraph.
    Body(String),
    /// A small line of metadata.
    Metadata(String),
    /// A heading with a state badge.
    TitleWithStatus(String, NodeStatus),
    /// The line that sums the ports up.
    Ports(String),
    /// A heading with a number badge.
    TitleWithCount(String, String),
    /// The stand-in for a picture.
    Media(String),
    /// A large value.
    Value(String),
    /// A label with the change beside it, where there is one.
    Footer(String, Option<String>),
    /// A tally row.
    Tally(String, String),
}

/// One thing drawn.
pub enum DrawView {
    Title(Seq<char>),
    Body(Seq<char>),
    Metadata(Seq<char>),
    TitleWithStatus(Seq<char>, NodeStatus),
    Ports(Seq<char>),
    TitleWithCount(Seq<char>, Seq<char>),
    Media(Seq<char>),
    Value(Seq<char>),
    Footer(Seq<char>, Option<Seq<char>>),
    Tally(Seq<char>, Seq<char>),
}

impl View for DrawItem {
    type V = DrawView;

    open spec fn view(&self) -> DrawView {
        match *self {
            DrawItem::Title(s) => DrawView::Title(s@),
            DrawItem::Body(s) => DrawView::Body(s@),
            DrawItem::Metadata(s) => DrawView::Metadata(s@),
            DrawItem::TitleWithStatus(s, status) => DrawView::TitleWithStatus(s@, status),
            DrawItem::Ports(s) => DrawView::Ports(s@),
            DrawItem::TitleWithCount(s, n) => DrawView::TitleWithCount(s@, n@),
            DrawItem::Media(s) => DrawView::Media(s@),
            DrawItem::Value(s) => DrawView::Value(s@),
            DrawItem::Footer(s, d) => DrawView::Footer(s@, opt_chars(d)),
            DrawItem::Tally(s, n) => DrawView::Tally(s@, n@),
        }
    }
}

/// The views of a list of drawn things.
pub open spec fn draw_views(s: Seq<DrawItem>) -> Seq<DrawView> {
    Seq::new(s.len(), |i: int| s[i]@)
}

/// A text, or what stands in for it.
pub open spec fn or_else(text: Option<Seq<char>>, other: Seq<char>) -> Seq<char> {
    match text {
        Some(t) => t,
        None => other,
    }
}

fn text_or(text: &Option<String>, other: &str) -> (r: String)
    ensures
        r@ == or_else(opt_chars(*text), other@),
{
    match text {
        Some(t) => t.clone(),
        None => copy_str(other),
    }
}

/// A paragraph, where there is text for one.
pub open spec fn body_items(body: Option<Seq<char>>) -> Seq<DrawView> {
    match body {
        Some(b) => seq![DrawView::Body(b)],
        None => Seq::empty(),
    }
}

/// The things drawn inside a component with a template, from top to bottom. The id
/// stands in for a missing heading.
pub open spec fn drawing_of(content: ContentView, id: Seq<char>) -> Seq<DrawView> {
    match content {
        ContentView::Brief(title, body, metadata) => seq![DrawView::Title(or_else(title, id))]
            + body_items(body) + Seq::new(
            metadata.len(),
            |i: int| DrawView::Metadata(metadata[i].0 + ": "@ + metadata[i].1),
        ),
        ContentView::WorkflowNode(title, status, inputs, outputs) => {
            let head = seq![DrawView::TitleWithStatus(or_else(title, id), status)];
            if inputs.len() > 0 || outputs.len() > 0 {
                head.push(
                    DrawView::Ports(
                        "in "@ + decimal(inputs.len()) + " / out "@ + decimal(outputs.len()),
                    ),
                )
            } else {
                head
            }
        },
        ContentView::KanbanColumn(title, count) => seq![
            DrawView::TitleWithCount(
                or_else(title, id),
                decimal(
                    match count {
                        Some(n) => n as nat,
                        None => 0,
                    },
                ),
            ),
        ],
        ContentView::StoryboardFrame(caption, media) => seq![
            DrawView::Media(or_else(media, "media"@)),
        ] + body_items(caption),
        ContentView::Stat(label, value, delta) => seq![
            DrawView::Value(or_else(value, "—"@)),
            DrawView::Footer(or_else(label, id), delta),
        ],
        ContentView::LonghouseProposal(title, body, tally) => seq![
            DrawView::Title(or_else(title, id)),
        ] + body_items(body) + Seq::new(
            tally.len(),
            |i: int| DrawView::Tally(tally[i].0, decimal(tally[i].1 as nat)),
        ),
    }
}

fn push_body(out: &mut Vec<DrawItem>, body: &Option<String>)
    ensures
        draw_views(final(out)@) == draw_views(old(out)@) + body_items(opt_chars(*body)),
{
    if let Some(b) = body {
        out.push(DrawItem::Body(b.clone()));
    }
    assert(draw_views(out@) =~= draw_views(old(out)@) + body_items(opt_chars(*body)));
}

fn push_metadata(out: &mut Vec<DrawItem>, metadata: &Vec<(String, String)>)
    ensures
        draw_views(final(out)@) == draw_views(old(out)@) + Seq::new(
            metadata@.len(),
            |i: int| DrawView::Metadata(metadata@[i].0@ + ": "@ + metadata@[i].1@),
        ),
{
    let ghost first = draw_views(out@);
    let ghost lines = Seq::new(
        metadata@.len(),
        |i: int| DrawView::Metadata(metadata@[i].0@ + ": "@ + metadata@[i].1@),
    );
    let mut i: usize = 0;
    assert(first + lines.take(0) =~= first);
    while i < metadata.len()
        invariant
            i <= metadata@.len(),
            lines == Seq::new(
                metadata@.len(),
                |i: int| DrawView::Metadata(metadata@[i].0@ + ": "@ + metadata@[i].1@),
            ),
            draw_views(out@) == first + lines.take(i as int),
        decreases metadata@.len() - i,
    {
        let mut line = metadata[i].0.clone();
        line.push_str(": ");
        line.push_str(metadata[i].1.as_str());
        let ghost before = out@;
        out.push(DrawItem::Metadata(line));
        assert(draw_views(out@) =~= draw_views(before).push(lines[i as int]));
        assert(first + lines.take(i + 1) =~= (first + lines.take(i as int)).push(lines[i as int]));
        i = i + 1;
    }
    assert(lines.take(lines.len() as int) =~= lines);
}

fn push_tally(out: &mut Vec<DrawItem>, tally: &Vec<TallyRow>)
    ensures
        draw_views(final(out)@) == draw_views(old(out)@) + Seq::new(
            tally@.len(),
            |i: int| DrawView::Tally(tally@[i].label@, decimal(tally@[i].count as nat)),
        ),
{
    let ghost first = draw_views(out@);
    let ghost rows = Seq::new(
        tally@.len(),
        |i: int| DrawView::Tally(tally@[i].label@, decimal(tally@[i].count as nat)),
    );
    let mut i: usize = 0;
    assert(first + rows.take(0) =~= first);
    while i < tally.len()
        invariant
            i <= tally@.len(),
            rows == Seq::new(
                tally@.len(),
                |i: int| DrawView::Tally(tally@[i].label@, decimal(tally@[i].count as nat)),
            ),
            draw_views(out@) == first + rows.take(i as int),
        decreases tally@.len() - i,
    {
        let ghost before = out@;
        out.push(DrawItem::Tally(tally[i].label.clone(), decimal_text(tally[i].count)));
        assert(draw_views(out@) =~= draw_views(before).push(rows[i as int]));
        assert(first + rows.take(i + 1) =~= (first + rows.take(i as int)).push(rows[i as int]));
        i = i + 1;
    }
    assert(rows.take(rows.len() as int) =~= rows);
}

/// The things drawn inside a component with a template, from top to bottom.
pub fn template_drawing(content: &TemplateContent, id: &ComponentId) -> (r: Vec<DrawItem>)
    ensures
        draw_views(r@) == drawing_of(content@, id@),
{
    let mut out: Vec<DrawItem> = Vec::new();
    match content {
        TemplateContent::Brief { title, body, metadata } => {
            out.push(DrawItem::Title(text_or(title, id.as_str())));
            push_body(&mut out, body);
            push_metadata(&mut out, metadata);
        },
        TemplateContent::WorkflowNode { title, status, inputs, outputs } => {
            out.push(DrawItem::TitleWithStatus(text_or(title, id.as_str()), *status));
            if inputs.len() > 0 || outputs.len() > 0 {
                let mut line = copy_str("in ");
                line.push_str(decimal_usize(inputs.len()).as_str());
                line.push_str(" / out ");
                line.push_str(decimal_usize(outputs.len()).as_str());
                out.push(DrawItem::Ports(line));
            }
        },
        TemplateContent::KanbanColumn { title, count } => {
            let n: usize = match count {
                Some(n) => *n,
                None => 0,
            };
            out.push(DrawItem::TitleWithCount(text_or(title, id.as_str()), decimal_usize(n)));
        },
        TemplateContent::StoryboardFrame { caption, media } => {
            out.push(DrawItem::Media(text_or(media, "media")));
            push_body(&mut out, caption);
        },
        TemplateContent::Stat { label, value, delta } => {
            out.push(DrawItem::Value(text_or(value, "—")));
            out.push(DrawItem::Footer(text_or(label, id.as_str()), copy_opt(delta)));
        },
        TemplateContent::LonghouseProposal { title, body, tally } => {
            out.push(DrawItem::Title(text_or(title, id.as_str())));
            push_body(&mut out, body);
            push_tally(&mut out, tally);
        },
    }
    assert(draw_views(out@) =~= drawing_of(content@, id@));
    out
}

/// Frames and lanes lie flat with a plain border; nodes and ports stand out by a thicker one
/// in the accent; all else is raised with a plain border.
pub proof fn law_kinds_look_their_part(kind: ComponentKind)
    ensures
        ({
            let look = look_of(kind);
            &&& kind is Frame || kind is Lane ==> look.fill is Panel && look.border is Rule
                && look.accent is Muted && look.border_halves == 2
            &&& kind is Node || kind is Port ==> look.fill is PanelRaised && look.border is Accent
                && look.accent is AccentDark && look.border_halves == 3
            &&& kind is Card || kind is TextBlock || kind is Table || kind is MediaSlot || kind
                is Stat || kind is EdgeLabel ==> look.fill is PanelRaised && look.border is Rule
                && look.accent is AccentDark && look.border_halves == 2
        }),
{
}

/// What is being written to is outlined before what has the focus, that before what is
/// selected, and that before what the pointer is over; nothing else is outlined.
pub proof fn law_strongest_outline_shows(
    writing: bool,
    focused: bool,
    selected: bool,
    hovered: bool,
)
    ensures
        ({
            let outline = outline_of(writing, focused, selected, hovered);
            &&& outline is ActiveWrite <==> writing
            &&& outline is Focused <==> focused && !writing
            &&& outline is Selected <==> selected && !focused && !writing
            &&& outline is Hover <==> hovered && !selected && !focused && !writing
            &&& outline is Plain <==> !hovered && !selected && !focused && !writing
        }),
{
}

proof fn lemma_first_line_feed(s: Seq<char>)
    ensures
        0 <= first_line_feed(s) <= s.len(),
        forall|i: int| 0 <= i < first_line_feed(s) ==> #[trigger] s[i] != '\n',
        first_line_feed(s) < s.len() ==> s[first_line_feed(s)] == '\n',
    decreases s.len(),
{
    if s.len() > 0 && s[0] != '\n' {
        let rest = s.drop_first();
        lemma_first_line_feed(rest);
        assert forall|i: int| 0 <= i < first_line_feed(s) implies #[trigger] s[i] != '\n' by {
            if i > 0 {
                assert(rest[i - 1] == s[i]);
            }
        }
    }
}

/// The first line of a text is its start up to the first line feed, without the carriage
/// return in front of that; all of it where it has no line feed.
pub proof fn law_first_line_ends_at_the_line_feed(s: Seq<char>)
    ensures
        ({
            let line = first_line(s);
            &&& line.is_prefix_of(s)
            &&& forall|i: int| 0 <= i < line.len() ==> #[trigger] line[i] != '\n'
            &&& line.len() < s.len() ==> s[line.len() as int] == '\n' || line.len() + 1 < s.len()
                && s[line.len() as int] == '\r' && s[line.len() as int + 1] == '\n'
            &&& line.len() > 0 && line.len() < s.len() && s[line.len() as int] == '\n'
                ==> line.last() != '\r'
        }),
{
    lemma_first_line_feed(s);
    let n = first_line_feed(s);
    let line = first_line(s);
    assert forall|i: int| 0 <= i < line.len() implies #[trigger] line[i] != '\n' by {
        assert(line[i] == s[i]);
    }
}

/// A component is summed up by its title where it has one, else by the first line of its body
/// or, without a body, of its text, and else by the name of its template.
pub proof fn law_component_is_summed_up(c: ComponentView)
    ensures
        c.content.get("title"@) matches Some(JsonView::Text(s)) ==> (s.len() > 0 ==> summary_of(c)
            == s),
        c.content.get("title"@) is None ==> (c.content.get("body"@) matches Some(JsonView::Text(s))
            ==> (s.len() > 0 ==> summary_of(c) == first_line(s))),
        c.content.get("title"@) is None && c.content.get("body"@) is None ==> (c.content.get(
            "text"@,
        ) matches Some(JsonView::Text(s)) ==> (s.len() > 0 ==> summary_of(c) == first_line(s))),
        c.content.get("title"@) is None && c.content.get("body"@) is None && c.content.get("text"@)
            is None ==> summary_of(c) == c.template,
{
}

proof fn lemma_edges_grow(edges: Edges, components: Components, i: int, n: int)
    requires
        0 <= i <= n <= edges.len(),
    ensures
        edges_among(edges, components, i).is_prefix_of(edges_among(edges, components, n)),
    decreases n,
{
    if i < n {
        lemma_edges_grow(edges, components, i, n - 1);
    }
}

/// Every edge whose two ends are on the canvas is drawn, from where the one stands to where
/// the other does and behind those before it; an edge that lacks an end is not.
pub proof fn law_edges_with_both_ends_are_drawn(
    edges: Edges,
    components: Components,
    i: int,
    a: int,
    b: int,
)
    requires
        keys_distinct(components),
        0 <= i < edges.len(),
    ensures
        ({
            let before = edges_among(edges, components, i);
            let all = edges_among(edges, components, edges.len() as int);
            let e = edges[i].1;
            &&& before.is_prefix_of(all)
            &&& edges_among(edges, components, 0).len() == 0
            &&& 0 <= a < components.len() && components[a].0 == e.from.component_id && 0 <= b
                < components.len() && components[b].0 == e.to.component_id ==> before.len()
                < all.len() && all[before.len() as int] == (components[a].1.rect,
                components[b].1.rect)
            &&& !holds_key(components, e.from.component_id) || !holds_key(
                components,
                e.to.component_id,
            ) ==> edges_among(edges, components, i + 1) == before
        }),
{
    lemma_edges_grow(edges, components, i, edges.len() as int);
    lemma_edges_grow(edges, components, i + 1, edges.len() as int);
    let before = edges_among(edges, components, i);
    let with = edges_among(edges, components, i + 1);
    let all = edges_among(edges, components, edges.len() as int);
    let e = edges[i].1;
    if 0 <= a < components.len() && components[a].0 == e.from.component_id && 0 <= b
        < components.len() && components[b].0 == e.to.component_id {
        lemma_place_unique(components, e.from.component_id, a);
        lemma_place_unique(components, e.to.component_id, b);
        assert(with == before.push(with.last()));
        assert(with[before.len() as int] == all.subrange(0, with.len() as int)[before.len() as int]);
    }
}

/// A drawing starts with the heading, which is the component's id where the content has none;
/// then comes the paragraph, and then a line for each pair of the metadata or each row of the
/// tally, in order.
pub proof fn law_drawing_tells_the_content(content: ContentView, id: Seq<char>, i: int)
    ensures
        ({
            let items = drawing_of(content, id);
            let named = |text: Option<Seq<char>>|
                match text {
                    Some(t) => t,
                    None => id,
                };
            let with = |body: Option<Seq<char>>|
                if body is Some {
                    2int
                } else {
                    1int
                };
            &&& content matches ContentView::Brief(title, body, metadata) ==> {
                &&& items.len() == with(body) + metadata.len()
                &&& items[0] == DrawView::Title(named(title))
                &&& body matches Some(b) ==> items[1] == DrawView::Body(b)
                &&& 0 <= i < metadata.len() ==> items[with(body) + i] == DrawView::Metadata(
                    metadata[i].0 + ": "@ + metadata[i].1,
                )
            }
            &&& content matches ContentView::LonghouseProposal(title, body, tally) ==> {
                &&& items.len() == with(body) + tally.len()
                &&& items[0] == DrawView::Title(named(title))
                &&& body matches Some(b) ==> items[1] == DrawView::Body(b)
                &&& 0 <= i < tally.len() ==> items[with(body) + i] == DrawView::Tally(
                    tally[i].0,
                    decimal(tally[i].1 as nat),
                )
            }
            &&& content matches ContentView::WorkflowNode(title, status, inputs, outputs) ==> {
                &&& items[0] == DrawView::TitleWithStatus(named(title), status)
                &&& inputs.len() == 0 && outputs.len() == 0 ==> items.len() == 1
                &&& inputs.len() > 0 || outputs.len() > 0 ==> items.len() == 2 && items[1]
                    == DrawView::Ports(
                    "in "@ + decimal(inputs.len()) + " / out "@ + decimal(outputs.len()),
                )
            }
            &&& content matches ContentView::KanbanColumn(title, count) ==> {
                &&& items.len() == 1
                &&& count matches Some(n) ==> items[0] == DrawView::TitleWithCount(
                    named(title),
                    decimal(n as nat),
                )
                &&& count is None ==> items[0] == DrawView::TitleWithCount(named(title), decimal(0))
            }
            &&& content matches ContentView::StoryboardFrame(caption, media) ==> {
                &&& items.len() == with(caption)
                &&& media matches Some(m) ==> items[0] == DrawView::Media(m)
                &&& media is None ==> items[0] == DrawView::Media("media"@)
                &&& caption matches Some(c) ==> items[1] == DrawView::Body(c)
            }
            &&& content matches ContentView::Stat(label, value, delta) ==> {
                &&& items.len() == 2
                &&& value matches Some(v) ==> items[0] == DrawView::Value(v)
                &&& value is None ==> items[0] == DrawView::Value("—"@)
                &&& items[1] == DrawView::Footer(named(label), delta)
            }
        }),
{
}

} // verus!
