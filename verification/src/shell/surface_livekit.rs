//! Voice and video on a surface: joining a media room, who is there, and what this
//! surface tells the others of itself.

use vstd::prelude::*;

use crate::shell::canvas::ledger::CanvasLedger;
use crate::shell::daemon::{LiveKitTokenRequest, LiveKitTokenResponse};
use crate::shell::surface::{
    SurfaceCanvasContext, SurfaceMode, SurfaceState, DEFAULT_LIVEKIT_ROOM_ID,
};
use crate::sorted_map::SortedMap;
use crate::text::{bool_text, concat2, copy_str, is_blank, str_eq, str_less};

verus! {

broadcast use vstd::string::group_string_axioms;

use crate::ordered_map::{lemma_filter_from, lemma_filter_step, lemma_filter_to};
use crate::shell::surface::{
    active_canvas, surface_context, CanvasContextView, SurfaceLedgerView, SurfaceView,
};
use crate::sorted_map::{
    keys_ascend, law_other_keys_stay, law_put_then_get, lemma_slot_of, lemma_slot_same_keys,
    lemma_with_value_ascends, value_under, with_value,
};
use crate::text::{
    blank, bool_chars, chars_less, lemma_chars_less_irreflexive, lemma_chars_less_total,
    lemma_chars_less_transitive, opt_chars,
};

pub const DEFAULT_SURFACE_ID: &'static str = "gpui:local";

pub const DEFAULT_PARTICIPANT_ID: &'static str = "human:local";

pub const DEFAULT_DISPLAY_NAME: &'static str = "Ocean operator";

/// The version of what this surface tells the others.
pub const ROOM_METADATA_VERSION: u32 = 1;

/// How far joining a room has come.
#[derive(Clone, Copy, Debug, PartialEq, Eq, Structural)]
pub enum SurfaceLiveKitJoinState {
    NotJoined,
    RequestingToken,
    TokenReady,
    Joining,
    Joined,
    Failed,
}

/// Someone in a media room.
#[derive(Clone, Debug, PartialEq, Eq)]
pub struct SurfaceLiveKitParticipant {
    pub identity: String,
    pub name: String,
    pub local: bool,
    pub mic: bool,
    pub camera: bool,
    pub speaking: bool,
    /// The canvas that they look at, where they told.
    pub active_canvas_id: Option<String>,
    /// The revision of that canvas, where they told.
    pub canvas_revision: Option<u64>,
}

impl Default for SurfaceLiveKitParticipant {
    fn default() -> (r: Self)
        ensures
            r.identity@.len() == 0,
            r.name@.len() == 0,
            !r.local && !r.mic && !r.camera && !r.speaking,
            r.active_canvas_id is None,
            r.canvas_revision is None,
    {
        SurfaceLiveKitParticipant {
            identity: String::new(),
            name: String::new(),
            local: false,
            mic: false,
            camera: false,
            speaking: false,
            active_canvas_id: None,
            canvas_revision: None,
        }
    }
}

/// What is needed to join a media room.
#[derive(Clone, Debug, PartialEq, Eq)]
pub struct SurfaceLiveKitCredentials {
    pub url: String,
    pub room: String,
    pub token: String,
    pub expires_at: String,
}

/// Whether the microphone and the camera are on.
#[derive(Clone, Copy, Debug, PartialEq, Eq, Structural)]
pub struct SurfaceMediaMetadata {
    pub mic_enabled: bool,
    pub camera_enabled: bool,
}

/// What the others are told of a canvas: how much is on it, but not what.
#[derive(Debug, PartialEq, Eq)]
pub struct SurfaceCanvasRoomMetadata {
    pub canvas_id: String,
    pub tldraw_room_id: String,
    pub mode: SurfaceMode,
    pub revision: u64,
    pub component_count: usize,
    pub selection_count: usize,
}

/// What the others are told of a canvas.
pub struct CanvasMetadataView {
    pub canvas_id: Seq<char>,
    pub tldraw_room_id: Seq<char>,
    pub mode: SurfaceMode,
    pub revision: u64,
    pub component_count: nat,
    pub selection_count: nat,
}

impl View for SurfaceCanvasRoomMetadata {
    type V = CanvasMetadataView;

    open spec fn view(&self) -> CanvasMetadataView {
        CanvasMetadataView {
            canvas_id: self.canvas_id@,
            tldraw_room_id: self.tldraw_room_id@,
            mode: self.mode,
            revision: self.revision,
            component_count: self.component_count as nat,
            selection_count: self.selection_count as nat,
        }
    }
}

/// What the others are told of a canvas.
pub open spec fn canvas_metadata(canvas: CanvasContextView) -> CanvasMetadataView {
    CanvasMetadataView {
        canvas_id: canvas.canvas_id,
        tldraw_room_id: canvas.tldraw_room_id,
        mode: canvas.mode,
        revision: canvas.revision,
        component_count: canvas.components.len(),
        selection_count: canvas.selection.len(),
    }
}

impl SurfaceCanvasRoomMetadata {
    /// What the others are told of a canvas.
    #[must_use]
    pub fn from_context(canvas: &SurfaceCanvasContext) -> (r: Self)
        ensures
            r@ == canvas_metadata(canvas@),
    {
        SurfaceCanvasRoomMetadata {
            canvas_id: canvas.canvas_id.clone(),
            tldraw_room_id: canvas.tldraw_room_id.clone(),
            mode: canvas.mode,
            revision: canvas.revision,
            component_count: canvas.components.len(),
            selection_count: canvas.selection.len(),
        }
    }
}

/// What this surface tells the others of itself: where it is, but not what is there.
#[derive(Debug, PartialEq, Eq)]
pub struct SurfaceRoomMetadata {
    pub version: u32,
    pub room_id: String,
    pub surface_id: String,
    pub surface_session_id: String,
    pub agent_session_id: Option<String>,
    pub active_pane_id: String,
    pub active_canvas_id: Option<String>,
    /// The revision of the active canvas, where that is the one in the ledger.
    pub canvas_revision: Option<u64>,
    pub media: SurfaceMediaMetadata,
    pub canvases: Vec<SurfaceCanvasRoomMetadata>,
}

/// What this surface tells the others of itself.
#[verifier::ext_equal]
pub struct RoomMetadataView {
    pub version: u32,
    pub room_id: Seq<char>,
    pub surface_id: Seq<char>,
    pub surface_session_id: Seq<char>,
    pub agent_session_id: Option<Seq<char>>,
    pub active_pane_id: Seq<char>,
    pub active_canvas_id: Option<Seq<char>>,
    pub canvas_revision: Option<u64>,
    pub media: SurfaceMediaMetadata,
    pub canvases: Seq<CanvasMetadataView>,
}

impl View for SurfaceRoomMetadata {
    type V = RoomMetadataView;

    open spec fn view(&self) -> RoomMetadataView {
        RoomMetadataView {
            version: self.version,
            room_id: self.room_id@,
            surface_id: self.surface_id@,
            surface_session_id: self.surface_session_id@,
            agent_session_id: opt_chars(self.agent_session_id),
            active_pane_id: self.active_pane_id@,
            active_canvas_id: opt_chars(self.active_canvas_id),
            canvas_revision: self.canvas_revision,
            media: self.media,
            canvases: Seq::new(self.canvases@.len(), |i: int| self.canvases@[i]@),
        }
    }
}

impl SurfaceLiveKitParticipant {
    /// The canvas that someone looks at, and its revision, out of what they told and
    /// how it reads: nothing where they told nothing or it cannot be read.
    #[must_use]
    pub fn canvas_pointer_from_metadata(
        metadata: &str,
        parsed: Option<SurfaceRoomMetadata>,
    ) -> (r: (Option<String>, Option<u64>))
        ensures
            match parsed {
                Some(meta) => if blank(metadata@) {
                    r.0 is None && r.1 is None
                } else {
                    r.0 == meta.active_canvas_id && r.1 == meta.canvas_revision
                },
                None => r.0 is None && r.1 is None,
            },
    {
        if is_blank(metadata) {
            return (None, None);
        }
        match parsed {
            Some(meta) => (meta.active_canvas_id, meta.canvas_revision),
            None => (None, None),
        }
    }
}

/// Whether someone else looks at a canvas.
pub open spec fn looks_at(canvas_id: Seq<char>) -> spec_fn(SurfaceLiveKitParticipant) -> bool {
    |p: SurfaceLiveKitParticipant| !p.local && opt_chars(p.active_canvas_id) == Some(canvas_id)
}

/// Those others in a room who look at the active canvas; nobody where none is active.
pub open spec fn present_on(
    roster: Seq<SurfaceLiveKitParticipant>,
    active_canvas_id: Option<Seq<char>>,
) -> Seq<SurfaceLiveKitParticipant> {
    match active_canvas_id {
        Some(active) => roster.filter(looks_at(active)),
        None => Seq::empty(),
    }
}

/// The text of a slice that may be missing.
pub open spec fn opt_str(s: Option<&str>) -> Option<Seq<char>> {
    match s {
        Some(t) => Some(t@),
        None => None,
    }
}

/// Those others in a room who look at the active canvas, in the order of the roster.
#[must_use]
pub fn presence_on_canvas<'a>(
    roster: &'a [SurfaceLiveKitParticipant],
    active_canvas_id: Option<&str>,
) -> (r: Vec<&'a SurfaceLiveKitParticipant>)
    ensures
        r@.len() == present_on(roster@, opt_str(active_canvas_id)).len(),
        forall|i: int|
            0 <= i < r@.len() ==> *#[trigger] r@[i] == present_on(
                roster@,
                opt_str(active_canvas_id),
            )[i],
{
    let mut present: Vec<&'a SurfaceLiveKitParticipant> = Vec::new();
    let active = match active_canvas_id {
        Some(active) => active,
        None => return present,
    };
    let mut i: usize = 0;
    let ghost keep = looks_at(active@);
    assert(roster@.take(0).filter(keep) =~= Seq::empty()) by {
        reveal(Seq::filter);
    }
    while i < roster.len()
        invariant
            i <= roster@.len(),
            keep == looks_at(active@),
            present@.len() == roster@.take(i as int).filter(keep).len(),
            forall|k: int|
                0 <= k < present@.len() ==> *#[trigger] present@[k] == roster@.take(
                    i as int,
                ).filter(keep)[k],
        decreases roster@.len() - i,
    {
        proof {
            lemma_filter_step(roster@, i as int, keep);
        }
        let participant = &roster[i];
        let here: bool = match &participant.active_canvas_id {
            Some(id) => str_eq(id.as_str(), active),
            None => false,
        };
        if !participant.local && here {
            present.push(participant);
        }
        i += 1;
    }
    assert(roster@.take(i as int) =~= roster@);
    present
}

/// Whether one participant comes before another: this surface's own first, then by
/// identity.
pub open spec fn comes_before(
    a: SurfaceLiveKitParticipant,
    b: SurfaceLiveKitParticipant,
) -> bool {
    if a.local != b.local {
        a.local
    } else {
        chars_less(a.identity@, b.identity@)
    }
}

/// Where a participant goes in a roster: behind all that do not come after.
pub open spec fn place_in(
    roster: Seq<SurfaceLiveKitParticipant>,
    p: SurfaceLiveKitParticipant,
) -> int
    decreases roster.len(),
{
    if roster.len() == 0 || !comes_before(p, roster.last()) {
        roster.len() as int
    } else {
        place_in(roster.drop_last(), p)
    }
}

/// A list of participants in order; those that come neither before nor after one another
/// stay as they were.
pub open spec fn in_order(list: Seq<SurfaceLiveKitParticipant>) -> Seq<SurfaceLiveKitParticipant>
    decreases list.len(),
{
    if list.len() == 0 {
        Seq::empty()
    } else {
        let before = in_order(list.drop_last());
        before.insert(place_in(before, list.last()), list.last())
    }
}

proof fn lemma_place_in(roster: Seq<SurfaceLiveKitParticipant>, p: SurfaceLiveKitParticipant)
    ensures
        0 <= place_in(roster, p) <= roster.len(),
        forall|i: int|
            place_in(roster, p) <= i < roster.len() ==> comes_before(p, #[trigger] roster[i]),
        place_in(roster, p) > 0 ==> !comes_before(p, roster[place_in(roster, p) - 1]),
    decreases roster.len(),
{
    if roster.len() > 0 && comes_before(p, roster.last()) {
        lemma_place_in(roster.drop_last(), p);
        assert forall|i: int| place_in(roster, p) <= i < roster.len() implies comes_before(
            p,
            #[trigger] roster[i],
        ) by {
            if i < roster.len() - 1 {
                assert(roster[i] == roster.drop_last()[i]);
            }
        }
    }
}

fn precedes(a: &SurfaceLiveKitParticipant, b: &SurfaceLiveKitParticipant) -> (r: bool)
    ensures
        r == comes_before(*a, *b),
{
    if a.local != b.local {
        a.local
    } else {
        str_less(a.identity.as_str(), b.identity.as_str())
    }
}

fn sort_roster(list: Vec<SurfaceLiveKitParticipant>) -> (r: Vec<SurfaceLiveKitParticipant>)
    ensures
        r@ == in_order(list@),
{
    let ghost all = list@;
    let mut sorted: Vec<SurfaceLiveKitParticipant> = Vec::new();
    assert(all.take(0) =~= Seq::empty());
    for participant in it: list
        invariant
            it.seq() == all,
            sorted@ == in_order(all.take(it.index() as int)),
    {
        let ghost i = it.index() as int;
        assert(all.take(i + 1).drop_last() =~= all.take(i));
        assert(all.take(i + 1).last() == participant);
        let mut at: usize = sorted.len();
        assert(sorted@.take(at as int) =~= sorted@);
        while at > 0 && precedes(&participant, &sorted[at - 1])
            invariant
                at <= sorted.len(),
                place_in(sorted@.take(at as int), participant) == place_in(sorted@, participant),
            decreases at,
        {
            assert(sorted@.take(at as int).drop_last() =~= sorted@.take(at - 1));
            at -= 1;
        }
        assert(place_in(sorted@, participant) == at);
        sorted.insert(at, participant);
    }
    assert(all.take(all.len() as int) =~= all);
    sorted
}

/// This surface in a media room.
#[derive(Debug)]
pub struct SurfaceLiveKitState {
    surface_id: String,
    room_id: String,
    participant_id: String,
    display_name: String,
    mic_enabled: bool,
    camera_enabled: bool,
    join_state: SurfaceLiveKitJoinState,
    credentials: Option<SurfaceLiveKitCredentials>,
    last_error: Option<String>,
    roster: Vec<SurfaceLiveKitParticipant>,
}

/// This surface in a media room.
#[verifier::ext_equal]
pub struct LiveKitView {
    pub surface_id: Seq<char>,
    pub room_id: Seq<char>,
    pub participant_id: Seq<char>,
    pub display_name: Seq<char>,
    pub mic_enabled: bool,
    pub camera_enabled: bool,
    pub join_state: SurfaceLiveKitJoinState,
    pub credentials: Option<SurfaceLiveKitCredentials>,
    pub last_error: Option<Seq<char>>,
    pub roster: Seq<SurfaceLiveKitParticipant>,
}

impl View for SurfaceLiveKitState {
    type V = LiveKitView;

    closed spec fn view(&self) -> LiveKitView {
        LiveKitView {
            surface_id: self.surface_id@,
            room_id: self.room_id@,
            participant_id: self.participant_id@,
            display_name: self.display_name@,
            mic_enabled: self.mic_enabled,
            camera_enabled: self.camera_enabled,
            join_state: self.join_state,
            credentials: self.credentials,
            last_error: opt_chars(self.last_error),
            roster: self.roster@,
        }
    }
}

/// The state after joining failed: nothing of the room is kept.
pub open spec fn failed(v: LiveKitView, error: Seq<char>) -> LiveKitView {
    LiveKitView {
        join_state: SurfaceLiveKitJoinState::Failed,
        credentials: None,
        last_error: Some(error),
        roster: Seq::empty(),
        ..v
    }
}

/// The state in words.
pub open spec fn status_text(v: LiveKitView) -> Seq<char> {
    match v.join_state {
        SurfaceLiveKitJoinState::NotJoined => "not joined"@,
        SurfaceLiveKitJoinState::RequestingToken => "requesting token"@,
        SurfaceLiveKitJoinState::TokenReady => "ready "@ + v.room_id,
        SurfaceLiveKitJoinState::Joining => "joining "@ + v.room_id,
        SurfaceLiveKitJoinState::Joined => "joined "@ + v.room_id,
        SurfaceLiveKitJoinState::Failed => match v.last_error {
            Some(error) => "failed "@ + error,
            None => "failed"@,
        },
    }
}

/// An entry of what is told by name.
pub open spec fn told(
    entries: Seq<(Seq<char>, Seq<char>)>,
    name: Seq<char>,
    value: Seq<char>,
) -> Seq<(Seq<char>, Seq<char>)> {
    with_value(entries, name, value)
}

/// What the others are told of this participant, by name.
pub open spec fn attributes_of(v: LiveKitView, surface_session_id: Seq<char>) -> Seq<
    (Seq<char>, Seq<char>),
> {
    let none: Seq<(Seq<char>, Seq<char>)> = Seq::empty();
    let a = told(none, "ocean.client"@, "ocean-gui"@);
    let b = told(a, "ocean.surface_id"@, v.surface_id);
    let c = told(b, "ocean.surface_session_id"@, surface_session_id);
    let d = told(c, "ocean.room_id"@, v.room_id);
    let e = told(d, "ocean.participant_id"@, v.participant_id);
    let f = told(e, "ocean.mic_enabled"@, bool_chars(v.mic_enabled));
    told(f, "ocean.camera_enabled"@, bool_chars(v.camera_enabled))
}

/// The texts of a map of strings.
pub open spec fn text_entries(entries: Seq<(Seq<char>, String)>) -> Seq<(Seq<char>, Seq<char>)> {
    Seq::new(entries.len(), |i: int| (entries[i].0, entries[i].1@))
}

/// What this surface tells the others: the pane and canvas that are active, the canvas's
/// revision where it is the ledger's, and how much is on each canvas.
pub open spec fn metadata_for(
    v: LiveKitView,
    surface: SurfaceView,
    ledger: Option<(Seq<char>, u64)>,
    agent_session_id: Option<Seq<char>>,
) -> RoomMetadataView {
    let context = surface_context(surface);
    RoomMetadataView {
        version: ROOM_METADATA_VERSION,
        room_id: v.room_id,
        surface_id: v.surface_id,
        surface_session_id: context.session_id,
        agent_session_id,
        active_pane_id: context.active_pane_id,
        active_canvas_id: active_canvas(surface),
        canvas_revision: match ledger {
            Some((canvas_id, revision)) => if active_canvas(surface) == Some(canvas_id) {
                Some(revision)
            } else {
                None
            },
            None => None,
        },
        media: SurfaceMediaMetadata {
            mic_enabled: v.mic_enabled,
            camera_enabled: v.camera_enabled,
        },
        canvases: Seq::new(
            context.canvases.len(),
            |i: int| canvas_metadata(context.canvases[i]),
        ),
    }
}

impl Default for SurfaceLiveKitState {
    fn default() -> (r: Self)
        ensures
            r@ == (LiveKitView {
                surface_id: "gpui:local"@,
                room_id: "project:surface-main"@,
                participant_id: "human:local"@,
                display_name: "Ocean operator"@,
                mic_enabled: false,
                camera_enabled: false,
                join_state: SurfaceLiveKitJoinState::NotJoined,
                credentials: None,
                last_error: None,
                roster: Seq::empty(),
            }),
    {
        SurfaceLiveKitState {
            surface_id: copy_str(DEFAULT_SURFACE_ID),
            room_id: copy_str(DEFAULT_LIVEKIT_ROOM_ID),
            participant_id: copy_str(DEFAULT_PARTICIPANT_ID),
            display_name: copy_str(DEFAULT_DISPLAY_NAME),
            mic_enabled: false,
            camera_enabled: false,
            join_state: SurfaceLiveKitJoinState::NotJoined,
            credentials: None,
            last_error: None,
            roster: Vec::new(),
        }
    }
}

impl SurfaceLiveKitState {
    /// The id of this surface.
    #[must_use]
    pub fn surface_id(&self) -> (r: &str)
        ensures
            r@ == self@.surface_id,
    {
        self.surface_id.as_str()
    }

    /// The media room.
    #[must_use]
    pub fn room_id(&self) -> (r: &str)
        ensures
            r@ == self@.room_id,
    {
        self.room_id.as_str()
    }

    /// The id of this participant.
    #[must_use]
    pub fn participant_id(&self) -> (r: &str)
        ensures
            r@ == self@.participant_id,
    {
        self.participant_id.as_str()
    }

    /// The name of this participant.
    #[must_use]
    pub fn display_name(&self) -> (r: &str)
        ensures
            r@ == self@.display_name,
    {
        self.display_name.as_str()
    }

    /// Whether the microphone is on.
    #[must_use]
    pub fn mic_enabled(&self) -> (r: bool)
        ensures
            r == self@.mic_enabled,
    {
        self.mic_enabled
    }

    /// Whether the camera is on.
    #[must_use]
    pub fn camera_enabled(&self) -> (r: bool)
        ensures
            r == self@.camera_enabled,
    {
        self.camera_enabled
    }

    /// How far joining has come.
    #[must_use]
    pub fn join_state(&self) -> (r: SurfaceLiveKitJoinState)
        ensures
            r == self@.join_state,
    {
        self.join_state
    }

    /// What is needed to join.
    #[must_use]
    pub fn credentials(&self) -> (r: Option<&SurfaceLiveKitCredentials>)
        ensures
            match r {
                Some(credentials) => self@.credentials == Some(*credentials),
                None => self@.credentials is None,
            },
    {
        self.credentials.as_ref()
    }

    /// Who is in the room.
    #[must_use]
    pub fn roster(&self) -> (r: &[SurfaceLiveKitParticipant])
        ensures
            r@ == self@.roster,
    {
        self.roster.as_slice()
    }

    /// Those others in the room who look at the active canvas.
    #[must_use]
    pub fn presence_on_canvas(&self, active_canvas_id: Option<&str>) -> (r: Vec<
        &SurfaceLiveKitParticipant,
    >)
        ensures
            r@.len() == present_on(self@.roster, opt_str(active_canvas_id)).len(),
            forall|i: int|
                0 <= i < r@.len() ==> *#[trigger] r@[i] == present_on(
                    self@.roster,
                    opt_str(active_canvas_id),
                )[i],
    {
        presence_on_canvas(self.roster.as_slice(), active_canvas_id)
    }

    /// Who is in the room now.
    pub fn set_roster(&mut self, roster: Vec<SurfaceLiveKitParticipant>)
        ensures
            final(self)@ == (LiveKitView { roster: in_order(roster@), ..old(self)@ }),
    {
        self.roster = sort_roster(roster);
    }

    /// Turns the microphone on or off, and tells which.
    pub fn toggle_mic(&mut self) -> (r: bool)
        ensures
            r == !old(self)@.mic_enabled,
            final(self)@ == (LiveKitView { mic_enabled: r, ..old(self)@ }),
    {
        self.mic_enabled = !self.mic_enabled;
        self.mic_enabled
    }

    /// Sets whether the microphone is on.
    pub fn set_mic_enabled(&mut self, enabled: bool)
        ensures
            final(self)@ == (LiveKitView { mic_enabled: enabled, ..old(self)@ }),
    {
        self.mic_enabled = enabled;
    }

    /// Turns the camera on or off, and tells which.
    pub fn toggle_camera(&mut self) -> (r: bool)
        ensures
            r == !old(self)@.camera_enabled,
            final(self)@ == (LiveKitView { camera_enabled: r, ..old(self)@ }),
    {
        self.camera_enabled = !self.camera_enabled;
        self.camera_enabled
    }

    /// Asks for a token, to speak and to listen.
    pub fn begin_token_request(&mut self) -> (r: LiveKitTokenRequest)
        ensures
            final(self)@ == (LiveKitView {
                join_state: SurfaceLiveKitJoinState::RequestingToken,
                last_error: None,
                credentials: None,
                ..old(self)@
            }),
            r.surface_id@ == old(self)@.surface_id,
            r.participant_id@ == old(self)@.participant_id,
            r.display_name@ == old(self)@.display_name,
            r.can_publish,
            r.can_subscribe,
    {
        self.join_state = SurfaceLiveKitJoinState::RequestingToken;
        self.last_error = None;
        self.credentials = None;
        LiveKitTokenRequest {
            surface_id: self.surface_id.clone(),
            participant_id: self.participant_id.clone(),
            display_name: self.display_name.clone(),
            can_publish: true,
            can_subscribe: true,
        }
    }

    /// A token came, or was denied.
    pub fn apply_token_response(&mut self, response: LiveKitTokenResponse) -> (r: Result<
        (),
        String,
    >)
        ensures
            response.ok ==> r is Ok && final(self)@ == (LiveKitView {
                room_id: response.room@,
                credentials: Some(
                    SurfaceLiveKitCredentials {
                        url: response.url,
                        room: response.room,
                        token: response.token,
                        expires_at: response.expires_at,
                    },
                ),
                join_state: SurfaceLiveKitJoinState::TokenReady,
                last_error: None,
                ..old(self)@
            }),
            !response.ok ==> ({
                let error = match response.error {
                    Some(error) => error@,
                    None => "token denied"@,
                };
                (r matches Err(e) && e@ == error) && final(self)@ == failed(old(self)@, error)
            }),
    {
        if !response.ok {
            let error = match response.error {
                Some(error) => error,
                None => copy_str("token denied"),
            };
            self.mark_failed(error.as_str());
            return Err(error);
        }
        self.room_id = response.room.clone();
        self.credentials = Some(
            SurfaceLiveKitCredentials {
                url: response.url,
                room: response.room,
                token: response.token,
                expires_at: response.expires_at,
            },
        );
        self.join_state = SurfaceLiveKitJoinState::TokenReady;
        self.last_error = None;
        Ok(())
    }

    /// It is joining.
    pub fn mark_joining(&mut self)
        ensures
            final(self)@ == (LiveKitView {
                join_state: SurfaceLiveKitJoinState::Joining,
                last_error: None,
                ..old(self)@
            }),
    {
        self.join_state = SurfaceLiveKitJoinState::Joining;
        self.last_error = None;
    }

    /// It has joined.
    pub fn mark_joined(&mut self)
        ensures
            final(self)@ == (LiveKitView {
                join_state: SurfaceLiveKitJoinState::Joined,
                last_error: None,
                ..old(self)@
            }),
    {
        self.join_state = SurfaceLiveKitJoinState::Joined;
        self.last_error = None;
    }

    /// It has left, for a reason.
    pub fn mark_disconnected(&mut self, reason: &str)
        ensures
            final(self)@ == (LiveKitView {
                join_state: SurfaceLiveKitJoinState::NotJoined,
                ..failed(old(self)@, reason@)
            }),
    {
        self.join_state = SurfaceLiveKitJoinState::NotJoined;
        self.credentials = None;
        self.last_error = Some(copy_str(reason));
        self.roster = Vec::new();
    }

    /// Joining failed.
    pub fn mark_failed(&mut self, error: &str)
        ensures
            final(self)@ == failed(old(self)@, error@),
    {
        self.join_state = SurfaceLiveKitJoinState::Failed;
        self.credentials = None;
        self.last_error = Some(copy_str(error));
        self.roster = Vec::new();
    }

    /// The state in words.
    #[must_use]
    pub fn status_label(&self) -> (r: String)
        ensures
            r@ == status_text(self@),
    {
        match self.join_state {
            SurfaceLiveKitJoinState::NotJoined => copy_str("not joined"),
            SurfaceLiveKitJoinState::RequestingToken => copy_str("requesting token"),
            SurfaceLiveKitJoinState::TokenReady => concat2("ready ", self.room_id.as_str()),
            SurfaceLiveKitJoinState::Joining => concat2("joining ", self.room_id.as_str()),
            SurfaceLiveKitJoinState::Joined => concat2("joined ", self.room_id.as_str()),
            SurfaceLiveKitJoinState::Failed => match &self.last_error {
                Some(error) => concat2("failed ", error.as_str()),
                None => copy_str("failed"),
            },
        }
    }

    /// What the others are told of this participant, by name.
    #[must_use]
    pub fn participant_attributes(&self, surface_session_id: &str) -> (r: SortedMap<String>)
        ensures
            r.wf(),
            text_entries(r.entries()) == attributes_of(self@, surface_session_id@),
    {
        let mut attributes: SortedMap<String> = SortedMap::new();
        assert(text_entries(attributes.entries()) =~= Seq::empty());
        tell(&mut attributes, "ocean.client", copy_str("ocean-gui"));
        tell(&mut attributes, "ocean.surface_id", self.surface_id.clone());
        tell(&mut attributes, "ocean.surface_session_id", copy_str(surface_session_id));
        tell(&mut attributes, "ocean.room_id", self.room_id.clone());
        tell(&mut attributes, "ocean.participant_id", self.participant_id.clone());
        tell(&mut attributes, "ocean.mic_enabled", bool_text(self.mic_enabled));
        tell(&mut attributes, "ocean.camera_enabled", bool_text(self.camera_enabled));
        attributes
    }

    /// What this surface tells the others of itself.
    #[must_use]
    pub fn room_metadata_for(
        &self,
        surface: &SurfaceState,
        native_ledger: Option<&CanvasLedger>,
        agent_session_id: Option<&str>,
    ) -> (r: SurfaceRoomMetadata)
        requires
            surface.wf(),
        ensures
            r@ == metadata_for(
                self@,
                surface@,
                match native_ledger {
                    Some(ledger) => Some((ledger@.canvas_id, ledger@.revision)),
                    None => None,
                },
                opt_str(agent_session_id),
            ),
    {
        let context = surface.turn_context();
        let mut canvases: Vec<SurfaceCanvasRoomMetadata> = Vec::new();
        let mut i: usize = 0;
        while i < context.canvases.len()
            invariant
                i <= context.canvases.len(),
                canvases.len() == i,
                forall|k: int|
                    0 <= k < i ==> (#[trigger] canvases@[k])@ == canvas_metadata(
                        context.canvases@[k]@,
                    ),
            decreases context.canvases.len() - i,
        {
            canvases.push(SurfaceCanvasRoomMetadata::from_context(&context.canvases[i]));
            i += 1;
        }
        let active_canvas_id = match surface.active_canvas_id() {
            Some(id) => Some(copy_str(id)),
            None => None,
        };
        let canvas_revision = match native_ledger {
            Some(ledger) => match &active_canvas_id {
                Some(active) => if str_eq(active.as_str(), ledger.canvas_id.as_str()) {
                    Some(ledger.revision)
                } else {
                    None
                },
                None => None,
            },
            None => None,
        };
        let r = SurfaceRoomMetadata {
            version: ROOM_METADATA_VERSION,
            room_id: self.room_id.clone(),
            surface_id: self.surface_id.clone(),
            surface_session_id: context.session_id,
            agent_session_id: match agent_session_id {
                Some(id) => Some(copy_str(id)),
                None => None,
            },
            active_pane_id: context.active_pane_id,
            active_canvas_id,
            canvas_revision,
            media: SurfaceMediaMetadata {
                mic_enabled: self.mic_enabled,
                camera_enabled: self.camera_enabled,
            },
            canvases,
        };
        proof {
            let there = surface_context(surface@).canvases;
            assert forall|k: int| 0 <= k < there.len() implies #[trigger] r@.canvases[k]
                == canvas_metadata(there[k]) by {
                assert(there[k] == context@.canvases[k]);
                assert(context@.canvases[k] == context.canvases@[k]@);
            }
        }
        r
    }
}

/// Adds an entry of what is told by name.
fn tell(attributes: &mut SortedMap<String>, name: &str, value: String)
    requires
        old(attributes).wf(),
    ensures
        final(attributes).wf(),
        text_entries(final(attributes).entries()) == told(
            text_entries(old(attributes).entries()),
            name@,
            value@,
        ),
{
    let ghost before = attributes.entries();
    proof {
        lemma_slot_same_keys(text_entries(before), before, name@);
        lemma_slot_of(before, name@);
    }
    attributes.insert(copy_str(name), value);
    assert(text_entries(attributes.entries()) =~= told(text_entries(before), name@, value@));
}

/// Whether a roster is in order.
pub open spec fn ordered(roster: Seq<SurfaceLiveKitParticipant>) -> bool {
    forall|i: int, j: int|
        0 <= i < j < roster.len() ==> !comes_before(#[trigger] roster[j], #[trigger] roster[i])
}

proof fn lemma_comes_before(
    a: SurfaceLiveKitParticipant,
    b: SurfaceLiveKitParticipant,
    c: SurfaceLiveKitParticipant,
)
    ensures
        comes_before(a, b) && comes_before(b, c) ==> comes_before(a, c),
        !(comes_before(a, b) && comes_before(b, a)),
        comes_before(a, c) ==> comes_before(a, b) || comes_before(b, c),
{
    lemma_chars_less_irreflexive(a.identity@);
    if chars_less(a.identity@, b.identity@) && chars_less(b.identity@, c.identity@) {
        lemma_chars_less_transitive(a.identity@, b.identity@, c.identity@);
    }
    if chars_less(a.identity@, b.identity@) && chars_less(b.identity@, a.identity@) {
        lemma_chars_less_transitive(a.identity@, b.identity@, a.identity@);
    }
    lemma_chars_less_total(a.identity@, b.identity@);
    lemma_chars_less_total(b.identity@, c.identity@);
    if chars_less(b.identity@, a.identity@) && chars_less(a.identity@, c.identity@) {
        lemma_chars_less_transitive(b.identity@, a.identity@, c.identity@);
    }
}

/// The roster is always in order: this surface's own first, then by identity.
pub proof fn law_roster_is_in_order(list: Seq<SurfaceLiveKitParticipant>)
    ensures
        ordered(in_order(list)),
    decreases list.len(),
{
    if list.len() > 0 {
        law_roster_is_in_order(list.drop_last());
        let before = in_order(list.drop_last());
        let p = list.last();
        let at = place_in(before, p);
        let after = in_order(list);
        lemma_place_in(before, p);
        assert forall|i: int, j: int| 0 <= i < j < after.len() implies !comes_before(
            #[trigger] after[j],
            #[trigger] after[i],
        ) by {
            if j < at {
                assert(!comes_before(before[j], before[i]));
            } else if j == at {
                if i < at - 1 {
                    lemma_comes_before(p, before[at - 1], before[i]);
                    lemma_comes_before(p, before[i], before[at - 1]);
                    assert(!comes_before(before[at - 1], before[i]));
                }
            } else if i < at {
                assert(!comes_before(before[j - 1], before[i]));
            } else if i == at {
                lemma_comes_before(p, before[j - 1], p);
            } else {
                assert(!comes_before(before[j - 1], before[i - 1]));
            }
        }
    }
}

/// The roster holds everyone, and nobody twice.
pub proof fn law_roster_keeps_everyone(list: Seq<SurfaceLiveKitParticipant>)
    ensures
        in_order(list).to_multiset() == list.to_multiset(),
    decreases list.len(),
{
    broadcast use vstd::seq_lib::group_to_multiset_ensures;

    if list.len() > 0 {
        law_roster_keeps_everyone(list.drop_last());
        let before = in_order(list.drop_last());
        lemma_place_in(before, list.last());
        assert(list =~= list.drop_last().push(list.last()));
    } else {
        assert(in_order(list) =~= list);
    }
}

/// Nobody shows on a canvas that they do not look at, and this surface does not show to
/// itself.
pub proof fn law_presence_is_scoped(
    roster: Seq<SurfaceLiveKitParticipant>,
    active: Seq<char>,
    i: int,
)
    requires
        0 <= i < present_on(roster, Some(active)).len(),
    ensures
        !present_on(roster, Some(active))[i].local,
        opt_chars(present_on(roster, Some(active))[i].active_canvas_id) == Some(active),
        roster.contains(present_on(roster, Some(active))[i]),
{
    lemma_filter_from(roster, looks_at(active), i);
}

/// Everyone else who looks at a canvas shows on it.
pub proof fn law_presence_is_complete(
    roster: Seq<SurfaceLiveKitParticipant>,
    active: Seq<char>,
    i: int,
)
    requires
        0 <= i < roster.len(),
        !roster[i].local,
        opt_chars(roster[i].active_canvas_id) == Some(active),
    ensures
        present_on(roster, Some(active)).contains(roster[i]),
{
    lemma_filter_to(roster, looks_at(active), i);
}

/// What the others are told of the active canvas is the one that the operator looks at;
/// its revision goes along only where that is the ledger's.
pub proof fn law_revision_belongs_to_active_canvas(
    v: LiveKitView,
    surface: SurfaceView,
    ledger: Option<(Seq<char>, u64)>,
    agent_session_id: Option<Seq<char>>,
)
    ensures
        metadata_for(v, surface, ledger, agent_session_id).active_canvas_id == active_canvas(
            surface,
        ),
        metadata_for(v, surface, ledger, agent_session_id).canvas_revision is Some ==> (
        ledger matches Some((canvas_id, revision)) && active_canvas(surface) == Some(canvas_id)
            && metadata_for(v, surface, ledger, agent_session_id).canvas_revision == Some(
            revision,
        )),
{
}

/// Whether two canvases differ in no more than what stands on them: they are the same
/// canvas at the same revision, with as many components and as many of them selected.
pub open spec fn same_but_contents(a: SurfaceLedgerView, b: SurfaceLedgerView) -> bool {
    &&& a.canvas_id == b.canvas_id
    &&& a.tldraw_room_id == b.tldraw_room_id
    &&& a.mode == b.mode
    &&& a.revision == b.revision
    &&& a.components.len() == b.components.len()
    &&& a.selection.len() == b.selection.len()
}

/// What stands on a canvas is not told: surfaces whose canvases differ in nothing else tell
/// the same.
pub proof fn law_contents_are_not_told(
    v: LiveKitView,
    a: SurfaceView,
    b: SurfaceView,
    ledger: Option<(Seq<char>, u64)>,
    agent_session_id: Option<Seq<char>>,
)
    requires
        a.session_id == b.session_id,
        a.active_pane_id == b.active_pane_id,
        a.panes == b.panes,
        a.canvases.len() == b.canvases.len(),
        forall|i: int|
            0 <= i < a.canvases.len() ==> same_but_contents(
                (#[trigger] a.canvases[i]).1,
                b.canvases[i].1,
            ),
    ensures
        metadata_for(v, a, ledger, agent_session_id) == metadata_for(
            v,
            b,
            ledger,
            agent_session_id,
        ),
{
    let told_a = metadata_for(v, a, ledger, agent_session_id);
    let told_b = metadata_for(v, b, ledger, agent_session_id);
    assert forall|i: int| 0 <= i < a.canvases.len() implies #[trigger] told_a.canvases[i]
        == told_b.canvases[i] by {
        assert(same_but_contents(a.canvases[i].1, b.canvases[i].1));
    }
    assert(told_a.canvases =~= told_b.canvases);
}

/// This surface's own participant comes before all others, and those are in the order of
/// their identities.
pub proof fn law_own_participant_comes_first(
    a: SurfaceLiveKitParticipant,
    b: SurfaceLiveKitParticipant,
)
    ensures
        a.local && !b.local ==> comes_before(a, b) && !comes_before(b, a),
        a.local == b.local ==> (comes_before(a, b) <==> chars_less(a.identity@, b.identity@)),
{
}

/// A failure keeps nothing of the room and tells its error; the devices stay as they are.
pub proof fn law_failure_keeps_nothing_of_the_room(v: LiveKitView, error: Seq<char>)
    ensures
        ({
            let after = failed(v, error);
            &&& after.join_state is Failed
            &&& after.credentials is None
            &&& after.roster.len() == 0
            &&& after.last_error == Some(error)
            &&& after.mic_enabled == v.mic_enabled
            &&& after.camera_enabled == v.camera_enabled
            &&& after.room_id == v.room_id
            &&& status_text(after) == "failed "@ + error
        }),
{
}

/// The status names the room from the moment that its token is there.
pub proof fn law_status_names_the_room(v: LiveKitView)
    ensures
        v.join_state is TokenReady ==> status_text(v) == "ready "@ + v.room_id,
        v.join_state is Joining ==> status_text(v) == "joining "@ + v.room_id,
        v.join_state is Joined ==> status_text(v) == "joined "@ + v.room_id,
        v.join_state is NotJoined ==> status_text(v) == "not joined"@,
        v.join_state is RequestingToken ==> status_text(v) == "requesting token"@,
{
}

/// The others are told the room, the surface, the devices that are on and, of each canvas, how
/// much is on it.
pub proof fn law_others_are_told_how_much_is_on_each_canvas(
    v: LiveKitView,
    surface: SurfaceView,
    ledger: Option<(Seq<char>, u64)>,
    agent_session_id: Option<Seq<char>>,
    i: int,
)
    ensures
        ({
            let told = metadata_for(v, surface, ledger, agent_session_id);
            &&& told.room_id == v.room_id
            &&& told.surface_id == v.surface_id
            &&& told.surface_session_id == surface.session_id
            &&& told.agent_session_id == agent_session_id
            &&& told.active_pane_id == surface.active_pane_id
            &&& told.media.mic_enabled == v.mic_enabled
            &&& told.media.camera_enabled == v.camera_enabled
            &&& told.canvases.len() == surface.canvases.len()
            &&& ledger matches Some((canvas_id, revision)) ==> (active_canvas(surface) == Some(
                canvas_id,
            ) ==> told.canvas_revision == Some(revision))
            &&& 0 <= i < surface.canvases.len() ==> {
                let canvas = surface.canvases[i].1;
                &&& told.canvases[i].canvas_id == canvas.canvas_id
                &&& told.canvases[i].tldraw_room_id == canvas.tldraw_room_id
                &&& told.canvases[i].mode == canvas.mode
                &&& told.canvases[i].revision == canvas.revision
                &&& told.canvases[i].component_count == canvas.components.len()
                &&& told.canvases[i].selection_count == canvas.selection.len()
            }
        }),
{
}

/// Each of what the others are told of this participant by name is told as it is.
pub proof fn law_participant_is_told_as_it_is(v: LiveKitView, session: Seq<char>)
    ensures
        ({
            let told_all = attributes_of(v, session);
            &&& keys_ascend(told_all)
            &&& value_under(told_all, "ocean.client"@) == Some("ocean-gui"@)
            &&& value_under(told_all, "ocean.surface_id"@) == Some(v.surface_id)
            &&& value_under(told_all, "ocean.surface_session_id"@) == Some(session)
            &&& value_under(told_all, "ocean.room_id"@) == Some(v.room_id)
            &&& value_under(told_all, "ocean.participant_id"@) == Some(v.participant_id)
            &&& v.mic_enabled ==> value_under(told_all, "ocean.mic_enabled"@) == Some("true"@)
            &&& !v.mic_enabled ==> value_under(told_all, "ocean.mic_enabled"@) == Some("false"@)
            &&& v.camera_enabled ==> value_under(told_all, "ocean.camera_enabled"@) == Some(
                "true"@,
            )
            &&& !v.camera_enabled ==> value_under(told_all, "ocean.camera_enabled"@) == Some(
                "false"@,
            )
        }),
{
    reveal_strlit("ocean.client");
    reveal_strlit("ocean.surface_id");
    reveal_strlit("ocean.surface_session_id");
    reveal_strlit("ocean.room_id");
    reveal_strlit("ocean.participant_id");
    reveal_strlit("ocean.mic_enabled");
    reveal_strlit("ocean.camera_enabled");
    let names = seq![
        "ocean.client"@,
        "ocean.surface_id"@,
        "ocean.surface_session_id"@,
        "ocean.room_id"@,
        "ocean.participant_id"@,
        "ocean.mic_enabled"@,
        "ocean.camera_enabled"@,
    ];
    assert(names[0].len() == 12);
    assert(names[1].len() == 16);
    assert(names[2].len() == 24);
    assert(names[3].len() == 13);
    assert(names[4].len() == 20);
    assert(names[5].len() == 17);
    assert(names[6].len() == 20);
    assert(names[4][6] == 'p' && names[6][6] == 'c');
    let values = seq![
        "ocean-gui"@,
        v.surface_id,
        session,
        v.room_id,
        v.participant_id,
        bool_chars(v.mic_enabled),
        bool_chars(v.camera_enabled),
    ];
    lemma_all_told(names, values, 7);
    reveal_with_fuel(all_told, 8);
    assert(all_told(names, values, 7) == attributes_of(v, session));
    assert(names[0] == "ocean.client"@);
}

/// The first `n` names with their values.
pub open spec fn all_told(names: Seq<Seq<char>>, values: Seq<Seq<char>>, n: int) -> Seq<
    (Seq<char>, Seq<char>),
>
    decreases n,
{
    if n <= 0 {
        Seq::empty()
    } else {
        told(all_told(names, values, n - 1), names[n - 1], values[n - 1])
    }
}

proof fn lemma_all_told(names: Seq<Seq<char>>, values: Seq<Seq<char>>, n: int)
    requires
        0 <= n <= names.len(),
        names.len() == values.len(),
        forall|i: int, j: int|
            0 <= i < j < names.len() ==> #[trigger] names[i] != #[trigger] names[j],
    ensures
        keys_ascend(all_told(names, values, n)),
        forall|i: int|
            0 <= i < n ==> value_under(all_told(names, values, n), #[trigger] names[i]) == Some(
                values[i],
            ),
    decreases n,
{
    if n > 0 {
        lemma_all_told(names, values, n - 1);
        let before = all_told(names, values, n - 1);
        lemma_with_value_ascends(before, names[n - 1], values[n - 1]);
        law_put_then_get(before, names[n - 1], values[n - 1]);
        assert forall|i: int| 0 <= i < n implies value_under(
            all_told(names, values, n),
            #[trigger] names[i],
        ) == Some(values[i]) by {
            if i < n - 1 {
                assert(names[i] != names[n - 1]);
                law_other_keys_stay(before, names[n - 1], values[n - 1], names[i]);
            }
        }
    }
}

} // verus!
