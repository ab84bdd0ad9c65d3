//! The web view in which a canvas is shown: what has to be done to it, and what comes
//! back from it.

use std::collections::VecDeque;

use vstd::prelude::*;

use crate::shell::surface::SurfaceIpcEvent;
use crate::text::{concat3, copy_str, str_eq};

verus! {

broadcast use vstd::string::group_string_axioms;

use crate::text::opt_chars;

/// Where the web view stands. The numbers are the bit patterns of double-precision
/// numbers: `==` compares the patterns, [`HostBounds::same_as`] the numbers.
#[derive(Clone, Copy, Debug, PartialEq, Eq, Structural)]
pub struct HostBounds {
    pub x: u64,
    pub y: u64,
    pub width: u64,
    pub height: u64,
}

/// A bit pattern without its sign.
pub open spec fn magnitude(bits: u64) -> int {
    if bits >= 0x8000_0000_0000_0000 {
        bits - 0x8000_0000_0000_0000
    } else {
        bits as int
    }
}

/// Whether a bit pattern stands for a number.
pub open spec fn is_number(bits: u64) -> bool {
    magnitude(bits) <= 0x7ff0_0000_0000_0000
}

/// Whether two bit patterns stand for the same number: zero has two, and what is no
/// number is not even the same as itself.
pub open spec fn same_number(a: u64, b: u64) -> bool {
    &&& is_number(a)
    &&& is_number(b)
    &&& a == b || (magnitude(a) == 0 && magnitude(b) == 0)
}

/// Whether a bit pattern stands for a number that is one or more.
pub open spec fn one_or_more(bits: u64) -> bool {
    0x3ff0_0000_0000_0000 <= bits <= 0x7ff0_0000_0000_0000
}

/// Whether something is to be seen at a place.
pub open spec fn can_be_seen(bounds: HostBounds) -> bool {
    one_or_more(bounds.width) && one_or_more(bounds.height)
}

/// Whether two places are the same.
pub open spec fn same_bounds(a: HostBounds, b: HostBounds) -> bool {
    same_number(a.x, b.x) && same_number(a.y, b.y) && same_number(a.width, b.width) && same_number(
        a.height,
        b.height,
    )
}

impl Default for HostBounds {
    fn default() -> (r: Self)
        ensures
            r == (HostBounds { x: 0, y: 0, width: 0, height: 0 }),
    {
        HostBounds { x: 0, y: 0, width: 0, height: 0 }
    }
}

fn magnitude_of(bits: u64) -> (r: u64)
    ensures
        r == magnitude(bits),
{
    if bits >= 0x8000_0000_0000_0000 {
        bits - 0x8000_0000_0000_0000
    } else {
        bits
    }
}

fn numbers_same(a: u64, b: u64) -> (r: bool)
    ensures
        r == same_number(a, b),
{
    let size_a: u64 = magnitude_of(a);
    let size_b: u64 = magnitude_of(b);
    size_a <= 0x7ff0_0000_0000_0000 && size_b <= 0x7ff0_0000_0000_0000 && (a == b || (size_a == 0
        && size_b == 0))
}

impl HostBounds {
    /// Whether something is to be seen there: it is at least one wide and one high.
    #[must_use]
    pub fn visible(self) -> (r: bool)
        ensures
            r == can_be_seen(self),
    {
        0x3ff0_0000_0000_0000 <= self.width && self.width <= 0x7ff0_0000_0000_0000
            && 0x3ff0_0000_0000_0000 <= self.height && self.height <= 0x7ff0_0000_0000_0000
    }

    /// Whether another place is the same.
    #[must_use]
    pub fn same_as(self, other: HostBounds) -> (r: bool)
        ensures
            r == same_bounds(self, other),
    {
        numbers_same(self.x, other.x) && numbers_same(self.y, other.y) && numbers_same(
            self.width,
            other.width,
        ) && numbers_same(self.height, other.height)
    }
}

/// What the web view is to show, and where.
#[derive(Debug, PartialEq, Eq)]
pub struct CanvasHostTarget {
    pub pane_id: String,
    pub url: String,
    pub bounds: HostBounds,
}

/// What the web view is to show, and where.
pub struct TargetView {
    pub pane_id: Seq<char>,
    pub url: Seq<char>,
    pub bounds: HostBounds,
}

impl View for CanvasHostTarget {
    type V = TargetView;

    open spec fn view(&self) -> TargetView {
        TargetView { pane_id: self.pane_id@, url: self.url@, bounds: self.bounds }
    }
}

impl Clone for CanvasHostTarget {
    fn clone(&self) -> (r: Self)
        ensures
            r@ == self@,
    {
        CanvasHostTarget {
            pane_id: self.pane_id.clone(),
            url: self.url.clone(),
            bounds: self.bounds,
        }
    }
}

/// What has to be done to the web view.
#[allow(inconsistent_fields)]
#[derive(Debug, PartialEq, Eq)]
pub enum CanvasHostAction {
    Mount(CanvasHostTarget),
    Navigate { pane_id: String, url: String },
    Resize { pane_id: String, bounds: HostBounds },
    Eval { pane_id: String, script: String },
    Hide { pane_id: String },
}

/// What has to be done to the web view.
pub enum ActionView {
    Mount(TargetView),
    Navigate(Seq<char>, Seq<char>),
    Resize(Seq<char>, HostBounds),
    Eval(Seq<char>, Seq<char>),
    Hide(Seq<char>),
}

impl View for CanvasHostAction {
    type V = ActionView;

    open spec fn view(&self) -> ActionView {
        match *self {
            CanvasHostAction::Mount(target) => ActionView::Mount(target@),
            CanvasHostAction::Navigate { pane_id, url } => ActionView::Navigate(pane_id@, url@),
            CanvasHostAction::Resize { pane_id, bounds } => ActionView::Resize(pane_id@, bounds),
            CanvasHostAction::Eval { pane_id, script } => ActionView::Eval(pane_id@, script@),
            CanvasHostAction::Hide { pane_id } => ActionView::Hide(pane_id@),
        }
    }
}

/// What the web view shows, what has still to be done to it, and what came from it.
#[derive(Debug)]
pub struct CanvasHostState {
    active: Option<CanvasHostTarget>,
    last_command_json: Option<String>,
    pending: VecDeque<CanvasHostAction>,
    inbound: VecDeque<SurfaceIpcEvent>,
}

/// What the web view shows, what has still to be done to it, and what came from it.
#[verifier::ext_equal]
pub struct HostView {
    pub active: Option<TargetView>,
    pub last_command_json: Option<Seq<char>>,
    pub pending: Seq<ActionView>,
    pub inbound: Seq<SurfaceIpcEvent>,
}

spec fn action_views(s: Seq<CanvasHostAction>) -> Seq<ActionView> {
    Seq::new(s.len(), |i: int| s[i]@)
}

spec fn opt_target(t: Option<CanvasHostTarget>) -> Option<TargetView> {
    match t {
        Some(target) => Some(target@),
        None => None,
    }
}

impl View for CanvasHostState {
    type V = HostView;

    closed spec fn view(&self) -> HostView {
        HostView {
            active: opt_target(self.active),
            last_command_json: opt_chars(self.last_command_json),
            pending: action_views(self.pending@),
            inbound: self.inbound@,
        }
    }
}

/// The web view's state after it is told what to show: what can be seen is mounted once
/// and then only moved or sent elsewhere; another pane's takes its place; nothing hides
/// it.
pub open spec fn synced(v: HostView, target: Option<TargetView>) -> HostView {
    match (v.active, target) {
        (None, Some(target)) => if can_be_seen(target.bounds) {
            HostView {
                active: Some(target),
                last_command_json: None,
                pending: v.pending.push(ActionView::Mount(target)),
                ..v
            }
        } else {
            v
        },
        (Some(active), Some(target)) => if active.pane_id != target.pane_id {
            let hidden = v.pending.push(ActionView::Hide(active.pane_id));
            if can_be_seen(target.bounds) {
                HostView {
                    active: Some(target),
                    last_command_json: None,
                    pending: hidden.push(ActionView::Mount(target)),
                    ..v
                }
            } else {
                HostView { active: None, last_command_json: None, pending: hidden, ..v }
            }
        } else if active.url != target.url {
            HostView {
                active: Some(target),
                last_command_json: None,
                pending: v.pending.push(ActionView::Navigate(active.pane_id, target.url)),
                ..v
            }
        } else if !same_bounds(active.bounds, target.bounds) {
            HostView {
                active: Some(target),
                pending: v.pending.push(ActionView::Resize(active.pane_id, target.bounds)),
                ..v
            }
        } else {
            v
        },
        (Some(active), None) => HostView {
            active: None,
            last_command_json: None,
            pending: v.pending.push(ActionView::Hide(active.pane_id)),
            ..v
        },
        (None, None) => v,
    }
}

/// The script that hands a command to what the web view shows.
pub open spec fn command_script(payload: Seq<char>) -> Seq<char> {
    "window.oceanSurfaceApplyCommand?.("@ + payload + ");"@
}

/// The web view's state after it is told a command: it is handed on where something
/// shows and the command is not the one that was handed on last.
pub open spec fn commanded(v: HostView, payload: Seq<char>) -> HostView {
    match v.active {
        Some(active) => if v.last_command_json == Some(payload) {
            v
        } else {
            HostView {
                last_command_json: Some(payload),
                pending: v.pending.push(ActionView::Eval(active.pane_id, command_script(payload))),
                ..v
            }
        },
        None => v,
    }
}

impl Default for CanvasHostState {
    fn default() -> (r: Self)
        ensures
            r@ == (HostView {
                active: None,
                last_command_json: None,
                pending: Seq::empty(),
                inbound: Seq::empty(),
            }),
    {
        let r = CanvasHostState {
            active: None,
            last_command_json: None,
            pending: VecDeque::new(),
            inbound: VecDeque::new(),
        };
        assert(r@.pending =~= Seq::empty());
        r
    }
}

impl CanvasHostState {
    /// What the web view shows.
    #[must_use]
    pub fn active(&self) -> (r: Option<&CanvasHostTarget>)
        ensures
            match r {
                Some(target) => self@.active == Some(target@),
                None => self@.active is None,
            },
    {
        self.active.as_ref()
    }

    fn push_action(&mut self, action: CanvasHostAction)
        ensures
            final(self)@ == (HostView {
                pending: old(self)@.pending.push(action@),
                ..old(self)@
            }),
    {
        let ghost before = self.pending@;
        self.pending.push_back(action);
        assert(action_views(self.pending@) =~= action_views(before).push(action@));
    }

    fn mount(&mut self, target: CanvasHostTarget)
        ensures
            final(self)@ == (HostView {
                active: Some(target@),
                last_command_json: None,
                pending: old(self)@.pending.push(ActionView::Mount(target@)),
                ..old(self)@
            }),
    {
        self.push_action(CanvasHostAction::Mount(target.clone()));
        self.active = Some(target);
        self.last_command_json = None;
    }

    /// Tells what the web view is to show.
    pub fn sync_target(&mut self, target: Option<CanvasHostTarget>)
        ensures
            final(self)@ == synced(
                old(self)@,
                match target {
                    Some(target) => Some(target@),
                    None => None,
                },
            ),
    {
        let pane_id = match &self.active {
            Some(active) => Some(active.pane_id.clone()),
            None => None,
        };
        match (pane_id, target) {
            (None, Some(target)) => {
                if target.bounds.visible() {
                    self.mount(target);
                }
            },
            (Some(pane_id), Some(target)) => {
                if !str_eq(pane_id.as_str(), target.pane_id.as_str()) {
                    self.push_action(CanvasHostAction::Hide { pane_id });
                    if target.bounds.visible() {
                        self.mount(target);
                    } else {
                        self.active = None;
                        self.last_command_json = None;
                    }
                } else if !self.shows_url(target.url.as_str()) {
                    self.push_action(
                        CanvasHostAction::Navigate { pane_id, url: target.url.clone() },
                    );
                    self.active = Some(target);
                    self.last_command_json = None;
                } else if !self.stands_at(target.bounds) {
                    self.push_action(CanvasHostAction::Resize { pane_id, bounds: target.bounds });
                    self.active = Some(target);
                }
            },
            (Some(pane_id), None) => {
                self.push_action(CanvasHostAction::Hide { pane_id });
                self.active = None;
                self.last_command_json = None;
            },
            (None, None) => {},
        }
    }

    fn shows_url(&self, url: &str) -> (r: bool)
        ensures
            r == (self@.active matches Some(active) && active.url == url@),
    {
        match &self.active {
            Some(active) => str_eq(active.url.as_str(), url),
            None => false,
        }
    }

    fn stands_at(&self, bounds: HostBounds) -> (r: bool)
        ensures
            r == (self@.active matches Some(active) && same_bounds(active.bounds, bounds)),
    {
        match &self.active {
            Some(active) => active.bounds.same_as(bounds),
            None => false,
        }
    }

    /// Hands a command, written as JSON, to what the web view shows.
    pub fn sync_command(&mut self, payload: &str)
        ensures
            final(self)@ == commanded(old(self)@, payload@),
    {
        let pane_id = match &self.active {
            Some(active) => active.pane_id.clone(),
            None => return,
        };
        let repeated: bool = match &self.last_command_json {
            Some(last) => str_eq(last.as_str(), payload),
            None => false,
        };
        if repeated {
            return;
        }
        let script = concat3("window.oceanSurfaceApplyCommand?.(", payload, ");");
        self.last_command_json = Some(copy_str(payload));
        self.push_action(CanvasHostAction::Eval { pane_id, script });
    }

    /// Something came from the web view.
    pub fn push_event(&mut self, event: SurfaceIpcEvent)
        ensures
            final(self)@ == (HostView { inbound: old(self)@.inbound.push(event), ..old(self)@ }),
    {
        self.inbound.push_back(event);
    }

    /// The first of what came from the web view.
    pub fn pop_event(&mut self) -> (r: Option<SurfaceIpcEvent>)
        ensures
            old(self)@.inbound.len() == 0 ==> r is None && final(self)@ == old(self)@,
            old(self)@.inbound.len() > 0 ==> r == Some(old(self)@.inbound[0]) && final(self)@ == (
            HostView { inbound: old(self)@.inbound.drop_first(), ..old(self)@ }),
    {
        let ghost v = self@;
        let r = self.inbound.pop_front();
        assert(v.inbound.len() > 0 ==> self.inbound@ =~= v.inbound.drop_first());
        r
    }

    /// The first of what has to be done to the web view.
    pub fn pop_action(&mut self) -> (r: Option<CanvasHostAction>)
        ensures
            old(self)@.pending.len() == 0 ==> r is None && final(self)@ == old(self)@,
            old(self)@.pending.len() > 0 ==> (r matches Some(action) && action@
                == old(self)@.pending[0]) && final(self)@ == (HostView {
                pending: old(self)@.pending.drop_first(),
                ..old(self)@
            }),
    {
        let ghost v = self@;
        let r = self.pending.pop_front();
        assert(v.pending.len() > 0 ==> self@.pending =~= v.pending.drop_first());
        r
    }
}

/// What the window has to do with its web view.
#[derive(Debug, PartialEq, Eq)]
pub enum WebViewStep {
    /// Make one, and tell with [`CanvasWebViewHost::built`] what came of it.
    Build(CanvasHostTarget),
    LoadUrl(String),
    SetBounds(HostBounds),
    EvaluateScript(String),
    /// Take it away.
    Close,
    /// Leave it alone.
    Leave,
}

/// What the window has to do with its web view.
pub enum StepView {
    Build(TargetView),
    LoadUrl(Seq<char>),
    SetBounds(HostBounds),
    EvaluateScript(Seq<char>),
    Close,
    Leave,
}

impl View for WebViewStep {
    type V = StepView;

    open spec fn view(&self) -> StepView {
        match *self {
            WebViewStep::Build(target) => StepView::Build(target@),
            WebViewStep::LoadUrl(url) => StepView::LoadUrl(url@),
            WebViewStep::SetBounds(bounds) => StepView::SetBounds(bounds),
            WebViewStep::EvaluateScript(script) => StepView::EvaluateScript(script@),
            WebViewStep::Close => StepView::Close,
            WebViewStep::Leave => StepView::Leave,
        }
    }
}

/// The window's web view: the pane it was made for, where there is one.
#[derive(Debug, PartialEq, Eq)]
pub struct CanvasWebViewHost {
    pane_id: Option<String>,
}

impl View for CanvasWebViewHost {
    type V = Option<Seq<char>>;

    closed spec fn view(&self) -> Option<Seq<char>> {
        opt_chars(self.pane_id)
    }
}

/// What an action comes down to, where the web view is that of `shown`: all but the making
/// of one needs the web view to be that of the action's own pane.
pub open spec fn step_for(shown: Option<Seq<char>>, action: ActionView) -> StepView {
    match action {
        ActionView::Mount(target) => StepView::Build(target),
        ActionView::Navigate(pane_id, url) => if shown == Some(pane_id) {
            StepView::LoadUrl(url)
        } else {
            StepView::Leave
        },
        ActionView::Resize(pane_id, bounds) => if shown == Some(pane_id) {
            StepView::SetBounds(bounds)
        } else {
            StepView::Leave
        },
        ActionView::Eval(pane_id, script) => if shown == Some(pane_id) {
            StepView::EvaluateScript(script)
        } else {
            StepView::Leave
        },
        ActionView::Hide(pane_id) => if shown == Some(pane_id) {
            StepView::Close
        } else {
            StepView::Leave
        },
    }
}

/// The pane that is shown once a step is done: `built` tells whether a web view that was to
/// be made could be made.
pub open spec fn shown_after(
    shown: Option<Seq<char>>,
    action: ActionView,
    built: bool,
) -> Option<Seq<char>> {
    match step_for(shown, action) {
        StepView::Build(target) => if built {
            Some(target.pane_id)
        } else {
            shown
        },
        StepView::Close => None,
        _ => shown,
    }
}

/// The pane that is shown once a list of actions is done and every web view could be made.
pub open spec fn shown_after_all(
    shown: Option<Seq<char>>,
    actions: Seq<ActionView>,
) -> Option<Seq<char>>
    decreases actions.len(),
{
    if actions.len() == 0 {
        shown
    } else {
        shown_after(shown_after_all(shown, actions.drop_last()), actions.last(), true)
    }
}

/// The pane that the web view is to show.
pub open spec fn wanted_pane(v: HostView) -> Option<Seq<char>> {
    match v.active {
        Some(active) => Some(active.pane_id),
        None => None,
    }
}

impl CanvasWebViewHost {
    /// A window without a web view.
    #[must_use]
    pub fn new() -> (r: Self)
        ensures
            r@ is None,
    {
        CanvasWebViewHost { pane_id: None }
    }

    fn shows(&self, pane_id: &String) -> (r: bool)
        ensures
            r == (self@ == Some(pane_id@)),
    {
        match &self.pane_id {
            Some(shown) => str_eq(shown.as_str(), pane_id.as_str()),
            None => false,
        }
    }

    /// What an action comes down to. A web view that is taken away shows no pane from then
    /// on; one that is to be made shows its pane once it is.
    pub fn apply_action(&mut self, action: CanvasHostAction) -> (step: WebViewStep)
        ensures
            step@ == step_for(old(self)@, action@),
            final(self)@ == shown_after(old(self)@, action@, false),
    {
        match action {
            CanvasHostAction::Mount(target) => WebViewStep::Build(target),
            CanvasHostAction::Navigate { pane_id, url } => if self.shows(&pane_id) {
                WebViewStep::LoadUrl(url)
            } else {
                WebViewStep::Leave
            },
            CanvasHostAction::Resize { pane_id, bounds } => if self.shows(&pane_id) {
                WebViewStep::SetBounds(bounds)
            } else {
                WebViewStep::Leave
            },
            CanvasHostAction::Eval { pane_id, script } => if self.shows(&pane_id) {
                WebViewStep::EvaluateScript(script)
            } else {
                WebViewStep::Leave
            },
            CanvasHostAction::Hide { pane_id } => if self.shows(&pane_id) {
                self.pane_id = None;
                WebViewStep::Close
            } else {
                WebViewStep::Leave
            },
        }
    }

    /// What came of making the web view of a pane.
    pub fn built(&mut self, pane_id: String, result: Result<(), String>) -> (r: Result<
        (),
        String,
    >)
        ensures
            r == result,
            final(self)@ == if result is Ok {
                Some(pane_id@)
            } else {
                old(self)@
            },
    {
        if result.is_ok() {
            self.pane_id = Some(pane_id);
        }
        result
    }
}

impl Default for CanvasWebViewHost {
    fn default() -> (r: Self)
        ensures
            r@ is None,
    {
        CanvasWebViewHost::new()
    }
}

/// What is meant for another pane leaves the web view alone.
pub proof fn law_other_panes_are_left_alone(shown: Option<Seq<char>>, action: ActionView)
    requires
        action !is Mount,
        match action {
            ActionView::Navigate(pane_id, _) => shown != Some(pane_id),
            ActionView::Resize(pane_id, _) => shown != Some(pane_id),
            ActionView::Eval(pane_id, _) => shown != Some(pane_id),
            ActionView::Hide(pane_id) => shown != Some(pane_id),
            ActionView::Mount(_) => false,
        },
    ensures
        step_for(shown, action) is Leave,
        shown_after(shown, action, true) == shown,
{
}

/// The window follows what the web view is told to show: once all that has to be done is
/// done, the pane that it shows is the wanted one, and stays so whatever is to be shown
/// next and whatever is commanded.
pub proof fn law_window_shows_the_wanted_pane(
    v: HostView,
    shown: Option<Seq<char>>,
    target: Option<TargetView>,
    payload: Seq<char>,
)
    requires
        shown_after_all(shown, v.pending) == wanted_pane(v),
    ensures
        shown_after_all(shown, synced(v, target).pending) == wanted_pane(synced(v, target)),
        shown_after_all(shown, commanded(v, payload).pending) == wanted_pane(
            commanded(v, payload),
        ),
{
    let p = v.pending;
    assert forall|a: ActionView| #[trigger]
        shown_after_all(shown, p.push(a)) == shown_after(wanted_pane(v), a, true) by {
        assert(p.push(a).drop_last() =~= p);
    }
    assert forall|a: ActionView, b: ActionView| #[trigger]
        shown_after_all(shown, p.push(a).push(b)) == shown_after(
            shown_after(wanted_pane(v), a, true),
            b,
            true,
        ) by {
        assert(p.push(a).push(b).drop_last() =~= p.push(a));
        assert(shown_after_all(shown, p.push(a)) == shown_after(wanted_pane(v), a, true));
    }
}

/// A command that comes twice in a row is handed on once.
pub proof fn law_repeated_command_counts_once(v: HostView, payload: Seq<char>)
    ensures
        commanded(commanded(v, payload), payload) == commanded(v, payload),
{
}

/// A command is handed on again after what the web view shows has changed.
pub proof fn law_command_is_repeated_after_change(
    v: HostView,
    target: TargetView,
    payload: Seq<char>,
)
    requires
        v.active matches Some(active) && active.pane_id == target.pane_id && active.url
            != target.url,
    ensures
        ({
            let there = synced(v, Some(target));
            commanded(there, payload).pending == there.pending.push(
                ActionView::Eval(target.pane_id, command_script(payload)),
            )
        }),
{
}

/// Being told twice to show the same changes nothing the second time, where the place is
/// told in numbers.
pub proof fn law_same_target_is_settled(v: HostView, target: TargetView)
    requires
        is_number(target.bounds.x),
        is_number(target.bounds.y),
        is_number(target.bounds.width),
        is_number(target.bounds.height),
    ensures
        synced(synced(v, Some(target)), Some(target)) == synced(v, Some(target)),
{
}

/// Nothing shows that cannot be seen: a target is mounted only where it can.
pub proof fn law_unseen_target_is_not_mounted(v: HostView, target: TargetView)
    requires
        v.active is None,
        !can_be_seen(target.bounds),
    ensures
        synced(v, Some(target)) == v,
{
}

/// What the web view is told to show is what it then shows, where it can be seen: made where
/// nothing was, sent elsewhere where its pane shows already, moved where only its place is
/// another, and in the place of another pane where that one shows. Nothing hides it.
pub proof fn law_web_view_is_made_to_show_the_target(v: HostView, target: TargetView)
    requires
        can_be_seen(target.bounds),
    ensures
        ({
            let after = synced(v, Some(target));
            let gone = synced(v, None);
            &&& after.inbound == v.inbound
            &&& v.active is None ==> after.active == Some(target) && after.pending
                == v.pending.push(ActionView::Mount(target))
            &&& v.active matches Some(active) ==> {
                &&& active.pane_id != target.pane_id ==> after.active == Some(target)
                    && after.pending == v.pending.push(ActionView::Hide(active.pane_id)).push(
                    ActionView::Mount(target),
                )
                &&& active.pane_id == target.pane_id && active.url != target.url ==> after.active
                    == Some(target) && after.pending == v.pending.push(
                    ActionView::Navigate(target.pane_id, target.url),
                )
                &&& active.pane_id == target.pane_id && active.url == target.url && !same_bounds(
                    active.bounds,
                    target.bounds,
                ) ==> after.active == Some(target) && after.pending == v.pending.push(
                    ActionView::Resize(target.pane_id, target.bounds),
                ) && after.last_command_json == v.last_command_json
                &&& gone.active is None && gone.pending == v.pending.push(
                    ActionView::Hide(active.pane_id),
                )
            }
            &&& v.active is None ==> gone == v
        }),
{
}

/// A command is handed on to the pane that shows, as it is, where it is not the one handed on
/// last; to nothing where nothing shows.
pub proof fn law_command_is_handed_on_as_it_is(v: HostView, payload: Seq<char>)
    ensures
        ({
            let after = commanded(v, payload);
            &&& v.active is None ==> after == v
            &&& v.active matches Some(active) ==> (v.last_command_json != Some(payload)
                ==> after.pending.drop_last() == v.pending && (after.pending.last()
                matches ActionView::Eval(pane_id, script) && pane_id == active.pane_id && script
                == "window.oceanSurfaceApplyCommand?.("@ + payload + ");"@))
            &&& after.active == v.active
            &&& after.inbound == v.inbound
        }),
{
    let after = commanded(v, payload);
    if v.active is Some && v.last_command_json != Some(payload) {
        assert(after.pending.drop_last() =~= v.pending);
    }
}

/// A number is the same as itself whatever its sign where it is zero, what is no number is the
/// same as nothing, and nothing below one in either direction can be seen.
pub proof fn law_numbers_compare_as_numbers(a: u64, b: u64)
    ensures
        same_number(a, b) <==> same_number(b, a),
        a <= 0x7ff0_0000_0000_0000 ==> same_number(a, a),
        same_number(0, 0x8000_0000_0000_0000),
        0x7ff0_0000_0000_0000 < a < 0x8000_0000_0000_0000 ==> !same_number(a, b),
        a > 0xfff0_0000_0000_0000 ==> !same_number(a, b),
        0 < a < b <= 0x7ff0_0000_0000_0000 ==> !same_number(a, b),
        one_or_more(0x3ff0_0000_0000_0000),
        a < 0x3ff0_0000_0000_0000 || a > 0x7ff0_0000_0000_0000 ==> !one_or_more(a),
        0x3ff0_0000_0000_0000 <= a <= 0x7ff0_0000_0000_0000 ==> one_or_more(a),
{
}

} // verus!
