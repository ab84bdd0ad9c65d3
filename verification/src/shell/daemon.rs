//! The daemon as the shell sees it: what goes over the wire, where it goes, how its
//! event streams are cut into frames, and how its health is shown.

use std::time::Instant;

use vstd::prelude::*;

use crate::json::Json;
use crate::text::{chars_of, copy_str, decimal_text, is_blank, string_of_range, trim_start};

verus! {

broadcast use vstd::string::group_string_axioms;

use crate::text::{blank, decimal, opt_chars, starts_with_chars, trim_start_chars, white_space};

/// Where the daemon is where nothing else is set.
pub const DEFAULT_DAEMON_URL: &'static str = "http://127.0.0.1:4780";

/// A point in time of the machine's clock.
#[verifier::external_type_specification]
#[verifier::external_body]
pub struct ExInstant(std::time::Instant);

/// `Instant::now` reads the machine's clock. Nothing is claimed of what it gives.
#[verifier::external_body]
fn instant_now() -> Instant {
    Instant::now()
}

/// What the daemon says of itself.
#[derive(Clone, Debug, PartialEq, Eq)]
pub struct HealthResponse {
    pub ok: bool,
    pub service: String,
    pub version: String,
    pub backend: String,
}

/// The model in use.
#[derive(Clone, Debug, PartialEq, Eq)]
pub struct CurrentModel {
    pub model: String,
    pub provider: String,
}

/// A model that can be chosen.
#[derive(Clone, Debug, PartialEq, Eq)]
pub struct ModelInfo {
    pub id: String,
    pub provider: String,
    pub label: String,
}

/// The models.
#[derive(Clone, Debug, PartialEq, Eq)]
pub struct ModelsResponse {
    pub ok: bool,
    pub current: Option<CurrentModel>,
    pub models: Vec<ModelInfo>,
    pub error: Option<String>,
}

/// A project.
#[derive(Clone, Debug, PartialEq, Eq)]
pub struct ProjectInfo {
    pub id: String,
    pub name: String,
    pub workspace_root: String,
}

/// The projects.
#[derive(Clone, Debug, PartialEq, Eq)]
pub struct ProjectsResponse {
    pub ok: bool,
    pub projects: Vec<ProjectInfo>,
    pub error: Option<String>,
}

/// Asks for a token to join a media room.
#[derive(Clone, Debug, PartialEq, Eq)]
pub struct LiveKitTokenRequest {
    pub surface_id: String,
    pub participant_id: String,
    pub display_name: String,
    pub can_publish: bool,
    pub can_subscribe: bool,
}

/// A token to join a media room.
#[derive(Clone, Debug, PartialEq, Eq)]
pub struct LiveKitTokenResponse {
    pub ok: bool,
    pub url: String,
    pub room: String,
    pub token: String,
    pub expires_at: String,
    pub error: Option<String>,
}

/// A session in a list.
#[derive(Clone, Debug, PartialEq, Eq)]
pub struct SessionSummary {
    pub id: String,
    pub title: String,
    pub cwd: String,
    pub turn_count: u32,
    pub updated_at: String,
}

/// The sessions.
#[derive(Clone, Debug, PartialEq, Eq)]
pub struct SessionsResponse {
    pub ok: bool,
    pub sessions: Vec<SessionSummary>,
    pub error: Option<String>,
}

/// Asks for a new session, anchored at a workspace.
#[derive(Clone, Debug, PartialEq, Eq)]
pub struct AgentSessionCreateRequest {
    pub title: Option<String>,
    pub workspace_root: String,
    pub project_id: Option<String>,
    pub client_type: Option<String>,
}

/// A new session.
#[derive(Clone, Debug, PartialEq, Eq)]
pub struct AgentSessionCreateResponse {
    pub ok: bool,
    pub session_id: Option<String>,
    pub title: Option<String>,
    pub cwd: Option<String>,
    pub workspace_root: Option<String>,
    pub error: Option<String>,
}

/// One line of a session's transcript.
#[derive(Clone, Debug, PartialEq, Eq)]
pub struct SessionTranscriptEntry {
    pub role: String,
    pub text: String,
    pub tool_name: Option<String>,
    pub is_error: Option<bool>,
}

/// A session with its transcript.
#[derive(Clone, Debug, PartialEq, Eq)]
pub struct SessionDetail {
    pub id: String,
    pub title: String,
    pub model: String,
    pub workspace_root: Option<String>,
    pub cwd: Option<String>,
    pub transcript: Vec<SessionTranscriptEntry>,
}

/// A session that was asked for.
#[derive(Clone, Debug, PartialEq, Eq)]
pub struct SessionDetailResponse {
    pub ok: bool,
    pub session: Option<SessionDetail>,
    pub error: Option<String>,
}

/// A permission that is waited for.
#[derive(Debug, PartialEq, Eq)]
pub struct PermissionStatus {
    pub permission_id: String,
    pub request_id: String,
    pub session_id: Option<String>,
    pub tool: String,
    pub reason: String,
    pub args: Json,
    pub created_at: String,
}

/// What comes over the control stream. Only the two permission frames mean anything
/// here.
#[derive(Debug, PartialEq, Eq)]
pub enum ControlEvent {
    PermissionRequest {
        permission_id: Option<String>,
        session_id: Option<String>,
        tool: String,
        reason: String,
        args: Json,
    },
    PermissionDecision { permission_id: Option<String>, session_id: Option<String> },
    Other,
}

/// The permissions that are waited for.
#[derive(Debug, PartialEq, Eq)]
pub struct PermissionsResponse {
    pub ok: bool,
    pub permissions: Vec<PermissionStatus>,
    pub error: Option<String>,
}

/// What was decided about a permission.
#[derive(Clone, Debug, PartialEq, Eq)]
pub enum PermissionDecision {
    Allow,
    Deny { reason: Option<String> },
}

/// Tells the daemon what was decided.
#[derive(Clone, Debug, PartialEq, Eq)]
pub struct PermissionDecisionRequest {
    pub permission_id: String,
    pub decision: PermissionDecision,
    /// The secret that was sent with the turn; the daemon refuses a decision without it.
    pub decision_token: Option<String>,
}

impl PermissionDecisionRequest {
    /// Allows it.
    #[must_use]
    pub fn allow(permission_id: String, decision_token: Option<String>) -> (r: Self)
        ensures
            r == (PermissionDecisionRequest {
                permission_id,
                decision: PermissionDecision::Allow,
                decision_token,
            }),
    {
        PermissionDecisionRequest {
            permission_id,
            decision: PermissionDecision::Allow,
            decision_token,
        }
    }

    /// Denies it, with a reason.
    #[must_use]
    pub fn deny(permission_id: String, reason: String, decision_token: Option<String>) -> (r: Self)
        ensures
            r == (PermissionDecisionRequest {
                permission_id,
                decision: PermissionDecision::Deny { reason: Some(reason) },
                decision_token,
            }),
    {
        PermissionDecisionRequest {
            permission_id,
            decision: PermissionDecision::Deny { reason: Some(reason) },
            decision_token,
        }
    }
}

/// What came of a request to stop a turn.
#[derive(Clone, Debug, PartialEq, Eq)]
pub struct RequestControlResponse {
    pub ok: bool,
    pub request_id: String,
    pub state: String,
    pub message: String,
}

/// What came of a decision.
#[derive(Clone, Debug, PartialEq, Eq)]
pub struct PermissionControlResponse {
    pub ok: bool,
    pub permission_id: String,
    pub message: String,
}

/// Tells the daemon what happened on a component.
#[derive(Debug, PartialEq, Eq)]
pub struct ComponentEventRequest {
    pub session_id: String,
    pub component_id: String,
    pub event: Json,
}

/// What came of an event on a component.
#[derive(Clone, Debug, PartialEq, Eq)]
pub struct ComponentEventResponse {
    pub status: Option<String>,
    pub error: Option<String>,
    pub session_id: Option<String>,
    pub component_id: Option<String>,
}

/// What a participant of a room is.
#[derive(Clone, Copy, Debug, PartialEq, Eq, Structural)]
pub enum RoomParticipantKind {
    Human,
    Agent,
    Bot,
    Tool,
    System,
}

/// The mark of a kind of participant.
pub open spec fn glyph_of(kind: RoomParticipantKind) -> Seq<char> {
    match kind {
        RoomParticipantKind::Human => "H"@,
        RoomParticipantKind::Agent => "\u{1F916}"@,
        RoomParticipantKind::Bot => "B"@,
        RoomParticipantKind::Tool => "T"@,
        RoomParticipantKind::System => "*"@,
    }
}

/// The word for a kind of participant.
pub open spec fn label_of(kind: RoomParticipantKind) -> Seq<char> {
    match kind {
        RoomParticipantKind::Human => "human"@,
        RoomParticipantKind::Agent => "agent"@,
        RoomParticipantKind::Bot => "bot"@,
        RoomParticipantKind::Tool => "tool"@,
        RoomParticipantKind::System => "system"@,
    }
}

impl RoomParticipantKind {
    /// The mark on the author's chip. Agents stand out by theirs.
    #[must_use]
    pub fn glyph(self) -> (r: &'static str)
        ensures
            r@ == glyph_of(self),
    {
        match self {
            RoomParticipantKind::Human => "H",
            RoomParticipantKind::Agent => "\u{1F916}",
            RoomParticipantKind::Bot => "B",
            RoomParticipantKind::Tool => "T",
            RoomParticipantKind::System => "*",
        }
    }

    /// The word next to the mark.
    #[must_use]
    pub fn label(self) -> (r: &'static str)
        ensures
            r@ == label_of(self),
    {
        match self {
            RoomParticipantKind::Human => "human",
            RoomParticipantKind::Agent => "agent",
            RoomParticipantKind::Bot => "bot",
            RoomParticipantKind::Tool => "tool",
            RoomParticipantKind::System => "system",
        }
    }
}

/// A participant of a room.
#[derive(Clone, Debug, PartialEq, Eq)]
pub struct RoomParticipant {
    pub id: String,
    pub kind: RoomParticipantKind,
    pub display_name: String,
}

/// What an entry of a room's transcript is.
#[derive(Clone, Copy, Debug, PartialEq, Eq, Structural)]
pub enum RoomMessageKind {
    Message,
    ParticipantJoined,
    ParticipantLeft,
    System,
}

impl RoomMessageKind {
    /// Whether the entry only informs, rather than being something said.
    #[must_use]
    pub fn is_system(self) -> (r: bool)
        ensures
            r == !(self is Message),
    {
        match self {
            RoomMessageKind::Message => false,
            RoomMessageKind::ParticipantJoined => true,
            RoomMessageKind::ParticipantLeft => true,
            RoomMessageKind::System => true,
        }
    }
}

/// An entry of a room's transcript.
#[derive(Clone, Debug, PartialEq, Eq)]
pub struct RoomMessage {
    pub seq: u64,
    pub author_id: String,
    pub author_kind: RoomParticipantKind,
    pub kind: RoomMessageKind,
    pub body: String,
    pub created_at: String,
}

/// What wakes a room's agents.
#[derive(Clone, Debug, PartialEq, Eq)]
pub struct RoomTriggerPolicy {
    /// An agent is mentioned.
    pub on_mention: bool,
    /// Someone replies in a thread of an agent's.
    pub on_thread_reply: bool,
    /// Something happens on a component.
    pub on_component_event: bool,
    /// A schedule comes due.
    pub on_schedule: Option<String>,
}

/// A room that lasts.
#[derive(Clone, Debug, PartialEq, Eq)]
pub struct Room {
    pub id: String,
    pub name: String,
    pub participants: Vec<RoomParticipant>,
    pub created_at: String,
    pub updated_at: String,
    pub trigger_policy: Option<RoomTriggerPolicy>,
}

/// The rooms.
#[derive(Clone, Debug, PartialEq, Eq)]
pub struct RoomsListResponse {
    pub ok: bool,
    pub rooms: Vec<Room>,
    pub error: Option<String>,
}

/// A room with its transcript.
#[derive(Clone, Debug, PartialEq, Eq)]
pub struct RoomGetResponse {
    pub ok: bool,
    pub room: Option<Room>,
    pub transcript: Vec<RoomMessage>,
    pub error: Option<String>,
}

/// A room after a change.
#[derive(Clone, Debug, PartialEq, Eq)]
pub struct RoomMutateResponse {
    pub ok: bool,
    pub room: Option<Room>,
    pub error: Option<String>,
}

/// The end of a room's transcript.
#[derive(Clone, Debug, PartialEq, Eq)]
pub struct RoomTranscriptResponse {
    pub ok: bool,
    pub transcript: Vec<RoomMessage>,
    pub error: Option<String>,
}

/// Asks for a new room.
#[derive(Clone, Debug, PartialEq, Eq)]
pub struct CreateRoomRequest {
    pub key: String,
    pub name: String,
    pub trigger_policy: Option<RoomTriggerPolicy>,
}

/// Asks to join a room.
#[derive(Clone, Debug, PartialEq, Eq)]
pub struct RoomJoinRequest {
    pub id: String,
    pub display_name: String,
    pub kind: RoomParticipantKind,
}

/// Says something in a room.
#[derive(Clone, Debug, PartialEq, Eq)]
pub struct RoomPostMessageRequest {
    pub author_id: String,
    pub author_kind: RoomParticipantKind,
    pub body: String,
}

/// How the daemon is.
#[derive(Clone, Debug, PartialEq, Eq)]
pub enum DaemonHealth {
    Checking,
    Ready(HealthResponse),
    Offline(String),
}

/// The daemon, its health, and when that was last looked at.
#[derive(Clone, Debug)]
pub struct NativeDaemonState {
    pub url: String,
    pub health: DaemonHealth,
    pub last_checked: Option<Instant>,
}

/// Where the daemon is, given what was set: what is set counts unless it is blank.
pub open spec fn daemon_url_for(setting: Option<Seq<char>>) -> Seq<char> {
    match setting {
        Some(url) => if blank(url) {
            "http://127.0.0.1:4780"@
        } else {
            url
        },
        None => "http://127.0.0.1:4780"@,
    }
}

/// The word for the daemon's health.
pub open spec fn status_of(health: DaemonHealth) -> Seq<char> {
    match health {
        DaemonHealth::Checking => "checking"@,
        DaemonHealth::Ready(health) => if health.ok {
            "online"@
        } else {
            "degraded"@
        },
        DaemonHealth::Offline(_) => "offline"@,
    }
}

/// What stands behind the daemon, as far as it is known.
pub open spec fn backend_of(health: DaemonHealth) -> Seq<char> {
    match health {
        DaemonHealth::Checking => "pending"@,
        DaemonHealth::Ready(health) => health.backend@,
        DaemonHealth::Offline(error) => error@,
    }
}

impl NativeDaemonState {
    /// The daemon where it was set to be, not yet looked at.
    #[must_use]
    pub fn from_setting(setting: Option<String>) -> (r: Self)
        ensures
            r.url@ == daemon_url_for(opt_chars(setting)),
            r.health is Checking,
            r.last_checked is None,
    {
        let url = match setting {
            Some(url) => if is_blank(url.as_str()) {
                copy_str(DEFAULT_DAEMON_URL)
            } else {
                url
            },
            None => copy_str(DEFAULT_DAEMON_URL),
        };
        NativeDaemonState { url, health: DaemonHealth::Checking, last_checked: None }
    }

    /// It is being looked at.
    pub fn mark_checking(&mut self)
        ensures
            final(self).url == old(self).url,
            final(self).health is Checking,
            final(self).last_checked is Some,
    {
        self.health = DaemonHealth::Checking;
        self.last_checked = Some(instant_now());
    }

    /// It was looked at.
    pub fn apply_health(&mut self, health: DaemonHealth)
        ensures
            final(self).url == old(self).url,
            final(self).health == health,
            final(self).last_checked is Some,
    {
        self.health = health;
        self.last_checked = Some(instant_now());
    }

    /// The word for its health.
    #[must_use]
    pub fn status_label(&self) -> (r: String)
        ensures
            r@ == status_of(self.health),
    {
        match &self.health {
            DaemonHealth::Checking => copy_str("checking"),
            DaemonHealth::Ready(health) => if health.ok {
                copy_str("online")
            } else {
                copy_str("degraded")
            },
            DaemonHealth::Offline(_) => copy_str("offline"),
        }
    }

    /// What stands behind it.
    #[must_use]
    pub fn backend_label(&self) -> (r: String)
        ensures
            r@ == backend_of(self.health),
    {
        match &self.health {
            DaemonHealth::Ready(health) => health.backend.clone(),
            DaemonHealth::Checking => copy_str("pending"),
            DaemonHealth::Offline(error) => error.clone(),
        }
    }
}

/// A text without the slashes at its end.
pub open spec fn without_end_slashes(s: Seq<char>) -> Seq<char>
    decreases s.len(),
{
    if s.len() > 0 && s.last() == '/' {
        without_end_slashes(s.drop_last())
    } else {
        s
    }
}

/// Takes the slashes off the end.
fn trim_end_slashes(s: &str) -> (r: String)
    ensures
        r@ == without_end_slashes(s@),
{
    let chars = chars_of(s);
    let mut n: usize = chars.len();
    assert(s@.take(n as int) =~= s@);
    while n > 0 && chars[n - 1] == '/'
        invariant
            chars@ == s@,
            n <= chars.len(),
            without_end_slashes(s@.take(n as int)) == without_end_slashes(s@),
        decreases n,
    {
        assert(s@.take(n as int).drop_last() =~= s@.take(n - 1));
        n -= 1;
    }
    assert(s@.subrange(0, n as int) =~= s@.take(n as int));
    string_of_range(&chars, 0, n)
}

/// The daemon's address with a path behind it.
fn endpoint(base_url: &str, path: &str) -> (r: String)
    ensures
        r@ == without_end_slashes(base_url@) + path@,
{
    let mut url = trim_end_slashes(base_url);
    url.push_str(path);
    url
}

/// Where the health is asked for.
#[must_use]
pub fn health_url(base_url: &str) -> (r: String)
    ensures
        r@ == without_end_slashes(base_url@) + "/health"@,
{
    endpoint(base_url, "/health")
}

/// Where turns are sent.
#[must_use]
pub fn agent_turns_url(base_url: &str) -> (r: String)
    ensures
        r@ == without_end_slashes(base_url@) + "/v1/agent/turns"@,
{
    endpoint(base_url, "/v1/agent/turns")
}

/// Where control events stream from.
#[must_use]
pub fn control_events_url(base_url: &str) -> (r: String)
    ensures
        r@ == without_end_slashes(base_url@) + "/v1/events"@,
{
    endpoint(base_url, "/v1/events")
}

/// Where sessions are listed.
#[must_use]
pub fn agent_sessions_url(base_url: &str) -> (r: String)
    ensures
        r@ == without_end_slashes(base_url@) + "/v1/agent/sessions"@,
{
    endpoint(base_url, "/v1/agent/sessions")
}

/// Where models are listed.
#[must_use]
pub fn models_url(base_url: &str) -> (r: String)
    ensures
        r@ == without_end_slashes(base_url@) + "/v1/models"@,
{
    endpoint(base_url, "/v1/models")
}

/// Where the model is set.
#[must_use]
pub fn model_url(base_url: &str) -> (r: String)
    ensures
        r@ == without_end_slashes(base_url@) + "/v1/model"@,
{
    endpoint(base_url, "/v1/model")
}

/// Where projects are listed.
#[must_use]
pub fn projects_url(base_url: &str) -> (r: String)
    ensures
        r@ == without_end_slashes(base_url@) + "/v1/projects"@,
{
    endpoint(base_url, "/v1/projects")
}

/// Where permissions are listed.
#[must_use]
pub fn permissions_url(base_url: &str) -> (r: String)
    ensures
        r@ == without_end_slashes(base_url@) + "/v1/permissions"@,
{
    endpoint(base_url, "/v1/permissions")
}

/// Where events on components go.
#[must_use]
pub fn component_event_url(base_url: &str) -> (r: String)
    ensures
        r@ == without_end_slashes(base_url@) + "/v1/component/event"@,
{
    endpoint(base_url, "/v1/component/event")
}

/// Where rooms are listed and made.
#[must_use]
pub fn rooms_url(base_url: &str) -> (r: String)
    ensures
        r@ == without_end_slashes(base_url@) + "/v1/rooms/persistent"@,
{
    endpoint(base_url, "/v1/rooms/persistent")
}

/// Where sessions are made.
#[must_use]
pub fn agent_session_create_url(base_url: &str) -> (r: String)
    ensures
        r@ == without_end_slashes(base_url@) + "/v1/agent/sessions"@,
{
    agent_sessions_url(base_url)
}

/// Where agent events stream from: those of one session where one is named, and none
/// of any session otherwise.
#[must_use]
pub fn agent_events_url(base_url: &str, session_id: Option<&str>) -> (r: String)
    ensures
        r@ == match session_id {
            Some(sid) => if sid@.len() > 0 {
                without_end_slashes(base_url@) + "/v1/agent/events"@ + "?session_id="@ + sid@
            } else {
                without_end_slashes(base_url@) + "/v1/agent/events"@
            },
            None => without_end_slashes(base_url@) + "/v1/agent/events"@,
        },
{
    let mut url = endpoint(base_url, "/v1/agent/events");
    if let Some(sid) = session_id {
        if !sid.is_empty() {
            url.push_str("?session_id=");
            url.push_str(sid);
        }
    }
    url
}

/// Whether a byte stands for itself in a path segment.
pub open spec fn unreserved(b: u8) -> bool {
    ||| 65 <= b <= 90
    ||| 97 <= b <= 122
    ||| 48 <= b <= 57
    ||| b == 45
    ||| b == 46
    ||| b == 95
    ||| b == 126
}

/// A hexadecimal digit in capitals.
pub open spec fn hex_upper(d: u8) -> char {
    if d < 10 {
        (48 + d) as char
    } else {
        (55 + d) as char
    }
}

/// A byte in a path segment: itself, or a percent sign and two hexadecimal digits.
pub open spec fn encoded_byte(b: u8) -> Seq<char> {
    if unreserved(b) {
        seq![b as char]
    } else {
        seq!['%', hex_upper(b / 16), hex_upper(b % 16)]
    }
}

/// Bytes in a path segment.
pub open spec fn encoded_bytes(bytes: Seq<u8>) -> Seq<char>
    decreases bytes.len(),
{
    if bytes.len() == 0 {
        Seq::empty()
    } else {
        encoded_bytes(bytes.drop_last()) + encoded_byte(bytes.last())
    }
}

/// A text as a path segment: its UTF-8 bytes, encoded.
pub open spec fn path_segment(s: Seq<char>) -> Seq<char> {
    encoded_bytes(vstd::utf8::encode_utf8(s))
}

fn hex_upper_digit(d: u8) -> (r: char)
    requires
        d < 16,
    ensures
        r == hex_upper(d),
{
    if d < 10 {
        (48u8 + d) as char
    } else {
        (55u8 + d) as char
    }
}

/// Adds a byte of a path segment.
pub fn push_encoded_byte(encoded: &mut String, byte: u8)
    ensures
        final(encoded)@ == old(encoded)@ + encoded_byte(byte),
{
    let ghost before = encoded@;
    if (65 <= byte && byte <= 90) || (97 <= byte && byte <= 122) || (48 <= byte && byte <= 57)
        || byte == 45 || byte == 46 || byte == 95 || byte == 126 {
        encoded.push(byte as char);
    } else {
        encoded.push('%');
        encoded.push(hex_upper_digit(byte / 16));
        encoded.push(hex_upper_digit(byte % 16));
    }
    assert(encoded@ =~= before + encoded_byte(byte));
}

/// Encodes a text so that it is one segment of a path.
#[must_use]
pub fn percent_encode_path_segment(value: &str) -> (r: String)
    ensures
        r@ == path_segment(value@),
{
    let bytes = value.as_bytes();
    let mut encoded = String::new();
    let mut i: usize = 0;
    assert(bytes@.take(0) =~= Seq::empty());
    while i < bytes.len()
        invariant
            i <= bytes@.len(),
            encoded@ == encoded_bytes(bytes@.take(i as int)),
        decreases bytes@.len() - i,
    {
        let byte: u8 = bytes[i];
        assert(bytes@.take(i + 1).drop_last() =~= bytes@.take(i as int));
        assert(bytes@.take(i + 1).last() == byte);
        push_encoded_byte(&mut encoded, byte);
        i += 1;
    }
    assert(bytes@.take(i as int) =~= bytes@);
    encoded
}

/// The daemon's address, a path, a segment and a path behind it.
fn endpoint_with(base_url: &str, before: &str, segment: &str, after: &str) -> (r: String)
    ensures
        r@ == without_end_slashes(base_url@) + before@ + segment@ + after@,
{
    let mut url = endpoint(base_url, before);
    url.push_str(segment);
    url.push_str(after);
    url
}

/// Where a token for a room's media is asked for.
#[must_use]
pub fn livekit_token_url(base_url: &str, room_id: &str) -> (r: String)
    ensures
        r@ == without_end_slashes(base_url@) + "/v1/rooms/"@ + path_segment(room_id@)
            + "/livekit-token"@,
{
    let segment = percent_encode_path_segment(room_id);
    endpoint_with(base_url, "/v1/rooms/", segment.as_str(), "/livekit-token")
}

/// Where a turn is stopped.
#[must_use]
pub fn request_cancel_url(base_url: &str, request_id: &str) -> (r: String)
    ensures
        r@ == without_end_slashes(base_url@) + "/v1/requests/"@ + request_id@ + "/cancel"@,
{
    endpoint_with(base_url, "/v1/requests/", request_id, "/cancel")
}

/// Where a permission is decided.
#[must_use]
pub fn permission_decision_url(base_url: &str, permission_id: &str) -> (r: String)
    ensures
        r@ == without_end_slashes(base_url@) + "/v1/permissions/"@ + permission_id@
            + "/decision"@,
{
    endpoint_with(base_url, "/v1/permissions/", permission_id, "/decision")
}

/// Where a session is read.
#[must_use]
pub fn session_detail_url(base_url: &str, session_id: &str) -> (r: String)
    ensures
        r@ == without_end_slashes(base_url@) + "/v1/sessions/"@ + session_id@,
{
    let mut url = endpoint(base_url, "/v1/sessions/");
    url.push_str(session_id);
    url
}

/// The address of a room.
pub open spec fn room_address(base_url: Seq<char>, key: Seq<char>) -> Seq<char> {
    without_end_slashes(base_url) + "/v1/rooms/persistent/"@ + path_segment(key)
}

/// Where a room is read.
#[must_use]
pub fn room_url(base_url: &str, key: &str) -> (r: String)
    ensures
        r@ == room_address(base_url@, key@),
{
    let mut url = endpoint(base_url, "/v1/rooms/persistent/");
    let segment = percent_encode_path_segment(key);
    url.push_str(segment.as_str());
    url
}

/// Where a room's transcript is read from an entry on.
#[must_use]
pub fn room_transcript_url(base_url: &str, key: &str, after_seq: u64) -> (r: String)
    ensures
        r@ == room_address(base_url@, key@) + "/transcript?after_seq="@ + decimal(
            after_seq as nat,
        ),
{
    let mut url = room_url(base_url, key);
    url.push_str("/transcript?after_seq=");
    let number = decimal_text(after_seq);
    url.push_str(number.as_str());
    url
}

/// Where a room is joined.
#[must_use]
pub fn room_participants_url(base_url: &str, key: &str) -> (r: String)
    ensures
        r@ == room_address(base_url@, key@) + "/participants"@,
{
    let mut url = room_url(base_url, key);
    url.push_str("/participants");
    url
}

/// Where a room is left.
#[must_use]
pub fn room_participant_url(base_url: &str, key: &str, participant_id: &str) -> (r: String)
    ensures
        r@ == room_address(base_url@, key@) + "/participants/"@ + path_segment(participant_id@),
{
    let mut url = room_url(base_url, key);
    url.push_str("/participants/");
    let segment = percent_encode_path_segment(participant_id);
    url.push_str(segment.as_str());
    url
}

/// Where something is said in a room.
#[must_use]
pub fn room_messages_url(base_url: &str, key: &str) -> (r: String)
    ensures
        r@ == room_address(base_url@, key@) + "/messages"@,
{
    let mut url = room_url(base_url, key);
    url.push_str("/messages");
    url
}

/// An image that goes with a turn.
#[derive(Clone, Debug, PartialEq, Eq)]
pub struct TurnImage {
    /// What kind of image it is.
    pub mime_type: String,
    /// Its bytes in base 64.
    pub data: String,
}

/// A turn.
#[derive(Clone, Debug, PartialEq, Eq)]
pub struct AgentTurnRequest {
    pub prompt: String,
    pub cwd: String,
    pub session_id: Option<String>,
    /// Where no directory is given, the turn runs in this project's.
    pub project_id: Option<String>,
    /// The kind of surface that asks.
    pub client_type: Option<String>,
    pub guidance: Option<Vec<String>>,
    pub room_id: Option<String>,
    pub thinking_level: Option<String>,
    pub model_id: Option<String>,
    /// The secret that decisions about this turn's permissions must repeat.
    pub decision_token: Option<String>,
    pub images: Option<Vec<TurnImage>>,
}

/// What came of a turn.
#[derive(Clone, Debug, PartialEq, Eq)]
pub struct AgentTurnResponse {
    pub ok: bool,
    pub turn_id: String,
    pub session_id: String,
    pub status: String,
    pub event_id_prefix: Option<String>,
    pub error: Option<String>,
}

/// A stream of server-sent events, as far as it has been read: the data lines of the
/// frame that is not finished yet.
#[derive(Debug)]
pub struct SseFrames {
    data: String,
}

impl View for SseFrames {
    type V = Seq<char>;

    closed spec fn view(&self) -> Seq<char> {
        self.data@
    }
}

/// A line without the carriage returns and line feeds at its end.
pub open spec fn without_line_end(s: Seq<char>) -> Seq<char>
    decreases s.len(),
{
    if s.len() > 0 && (s.last() == '\r' || s.last() == '\n') {
        without_line_end(s.drop_last())
    } else {
        s
    }
}

/// The payload that a frame's data make: nothing where they are blank.
pub open spec fn payload_of(data: Seq<char>) -> Option<Seq<char>> {
    if blank(data) {
        None
    } else {
        Some(data)
    }
}

/// The data after a line that does not end the frame: data lines add to them, on a line
/// of their own, and other lines do not count.
pub open spec fn with_line(data: Seq<char>, line: Seq<char>) -> Seq<char> {
    if starts_with_chars(line, "data:"@) {
        let value = trim_start_chars(line.skip(5));
        if data.len() > 0 {
            data.push('\n') + value
        } else {
            value
        }
    } else {
        data
    }
}

/// Takes the carriage returns and line feeds off the end.
fn line_length(chars: &Vec<char>) -> (n: usize)
    ensures
        n <= chars.len(),
        chars@.take(n as int) == without_line_end(chars@),
{
    let mut n: usize = chars.len();
    assert(chars@.take(n as int) =~= chars@);
    while n > 0 && (chars[n - 1] == '\r' || chars[n - 1] == '\n')
        invariant
            n <= chars.len(),
            without_line_end(chars@.take(n as int)) == without_line_end(chars@),
        decreases n,
    {
        assert(chars@.take(n as int).drop_last() =~= chars@.take(n - 1));
        n -= 1;
    }
    n
}

impl SseFrames {
    /// A stream of which nothing has been read.
    #[must_use]
    pub fn new() -> (r: Self)
        ensures
            r@ == Seq::<char>::empty(),
    {
        SseFrames { data: String::new() }
    }

    /// Reads a line, with the characters that end it. An empty line ends a frame and
    /// gives its payload.
    pub fn read_line(&mut self, line: &str) -> (r: Option<String>)
        ensures
            final(self)@ == after_line(old(self)@, line@),
            opt_chars(r) == if without_line_end(line@).len() == 0 {
                payload_of(old(self)@)
            } else {
                None
            },
    {
        let chars = chars_of(line);
        let n = line_length(&chars);
        let ghost text = without_line_end(line@);
        if n == 0 {
            return self.finish();
        }
        proof {
            reveal_strlit("data:");
        }
        if n >= 5 && chars[0] == 'd' && chars[1] == 'a' && chars[2] == 't' && chars[3] == 'a'
            && chars[4] == ':' {
            assert(text.take(5) =~= "data:"@);
            let value = string_of_range(&chars, 5, n);
            assert(value@ =~= text.skip(5));
            let value = trim_start(value.as_str());
            if !self.data.is_empty() {
                self.data.push('\n');
            }
            let ghost before = self.data@;
            self.data.push_str(value.as_str());
            assert(before.len() == 0 ==> self.data@ =~= value@);
        } else {
            proof {
                if starts_with_chars(text, "data:"@) {
                    assert(text.take(5)[0] == 'd');
                    assert(text.take(5)[1] == 'a');
                    assert(text.take(5)[2] == 't');
                    assert(text.take(5)[3] == 'a');
                    assert(text.take(5)[4] == ':');
                }
            }
        }
        None
    }

    /// The stream ends: what was read of a frame counts as one.
    pub fn finish(&mut self) -> (r: Option<String>)
        ensures
            opt_chars(r) == payload_of(old(self)@),
            final(self)@ == Seq::<char>::empty(),
    {
        let blank_data: bool = is_blank(self.data.as_str());
        let data = self.data.clone();
        self.data = String::new();
        if blank_data {
            None
        } else {
            Some(data)
        }
    }
}

/// A line of a frame that carries a part of its payload.
pub open spec fn data_line(part: Seq<char>) -> Seq<char> {
    "data: "@ + part + "\n"@
}

/// The data after a line, whether it ends a frame or not.
pub open spec fn after_line(data: Seq<char>, line: Seq<char>) -> Seq<char> {
    let text = without_line_end(line);
    if text.len() == 0 {
        Seq::empty()
    } else {
        with_line(data, text)
    }
}

/// The data after the lines that carry the first `upto` parts.
pub open spec fn after_parts(parts: Seq<Seq<char>>, upto: int) -> Seq<char>
    decreases upto,
{
    if upto <= 0 {
        Seq::empty()
    } else {
        after_line(after_parts(parts, upto - 1), data_line(parts[upto - 1]))
    }
}

/// The first `upto` parts, each on a line of its own.
pub open spec fn on_lines(parts: Seq<Seq<char>>, upto: int) -> Seq<char>
    decreases upto,
{
    if upto <= 0 {
        Seq::empty()
    } else if upto == 1 {
        parts[0]
    } else {
        on_lines(parts, upto - 1).push('\n') + parts[upto - 1]
    }
}

/// Whether a part stands in a data line as it is: there is something, and neither white
/// space before it nor the end of a line behind it.
pub open spec fn plain_part(part: Seq<char>) -> bool {
    part.len() > 0 && !white_space(part[0]) && part.last() != '\r' && part.last() != '\n'
}

proof fn lemma_data_line(data: Seq<char>, part: Seq<char>)
    requires
        plain_part(part),
    ensures
        after_line(data, data_line(part)) == if data.len() > 0 {
            data.push('\n') + part
        } else {
            part
        },
{
    reveal_strlit("data: ");
    reveal_strlit("data:");
    reveal_strlit("\n");
    let line = data_line(part);
    let text = "data: "@ + part;
    assert(line.drop_last() =~= text);
    assert(line.last() == '\n');
    assert(text.last() == part.last());
    assert(without_line_end(text) == text);
    assert(without_line_end(line) == text);
    assert(text.take(5) =~= "data:"@);
    let value = text.skip(5);
    assert(value =~= seq![' '] + part);
    assert(value.drop_first() =~= part);
    assert(trim_start_chars(part) == part);
    assert(trim_start_chars(value) == trim_start_chars(value.drop_first()));
}

/// A payload that is sent on several data lines comes back on as many lines.
pub proof fn law_parts_come_back_on_lines(parts: Seq<Seq<char>>, upto: int)
    requires
        0 <= upto <= parts.len(),
        forall|i: int| 0 <= i < parts.len() ==> plain_part(#[trigger] parts[i]),
    ensures
        after_parts(parts, upto) == on_lines(parts, upto),
        upto > 0 ==> payload_of(after_parts(parts, upto)) == Some(on_lines(parts, upto)),
    decreases upto,
{
    if upto > 0 {
        law_parts_come_back_on_lines(parts, upto - 1);
        lemma_data_line(after_parts(parts, upto - 1), parts[upto - 1]);
        assert(plain_part(parts[0]));
        lemma_on_lines_start(parts, upto);
        assert(!white_space(on_lines(parts, upto)[0]));
    }
}

proof fn lemma_on_lines_start(parts: Seq<Seq<char>>, upto: int)
    requires
        1 <= upto,
        parts[0].len() > 0,
    ensures
        on_lines(parts, upto).len() > 0,
        on_lines(parts, upto)[0] == parts[0][0],
    decreases upto,
{
    if upto > 1 {
        lemma_on_lines_start(parts, upto - 1);
    }
}

/// What is a path segment holds no slash and no other sign that ends one.
pub proof fn law_path_segment_is_safe(s: Seq<char>)
    ensures
        forall|i: int|
            0 <= i < path_segment(s).len() ==> {
                let c = #[trigger] path_segment(s)[i];
                ||| 'A' <= c <= 'Z'
                ||| 'a' <= c <= 'z'
                ||| '0' <= c <= '9'
                ||| c == '-'
                ||| c == '.'
                ||| c == '_'
                ||| c == '~'
                ||| c == '%'
            },
{
    lemma_encoded_bytes_safe(vstd::utf8::encode_utf8(s));
}

spec fn segment_char(c: char) -> bool {
    ||| 'A' <= c <= 'Z'
    ||| 'a' <= c <= 'z'
    ||| '0' <= c <= '9'
    ||| c == '-'
    ||| c == '.'
    ||| c == '_'
    ||| c == '~'
    ||| c == '%'
}

proof fn lemma_encoded_bytes_safe(bytes: Seq<u8>)
    ensures
        forall|i: int|
            0 <= i < encoded_bytes(bytes).len() ==> segment_char(
                #[trigger] encoded_bytes(bytes)[i],
            ),
    decreases bytes.len(),
{
    if bytes.len() > 0 {
        lemma_encoded_bytes_safe(bytes.drop_last());
        let b = bytes.last();
        let before = encoded_bytes(bytes.drop_last());
        assert forall|i: int| 0 <= i < encoded_bytes(bytes).len() implies segment_char(
            #[trigger] encoded_bytes(bytes)[i],
        ) by {
            if i < before.len() {
                assert(encoded_bytes(bytes)[i] == before[i]);
            } else {
                assert(encoded_bytes(bytes)[i] == encoded_byte(b)[i - before.len()]);
            }
        }
    }
}

/// Different names make different path segments.
pub proof fn law_path_segments_tell_apart(a: Seq<char>, b: Seq<char>)
    requires
        path_segment(a) == path_segment(b),
    ensures
        a == b,
{
    lemma_encoded_bytes_injective(vstd::utf8::encode_utf8(a), vstd::utf8::encode_utf8(b));
    vstd::utf8::encode_utf8_decode_utf8(a);
    vstd::utf8::encode_utf8_decode_utf8(b);
}

spec fn hex_value(c: char) -> int {
    if c <= '9' {
        c as int - 48
    } else {
        c as int - 55
    }
}

proof fn lemma_encoded_bytes_injective(a: Seq<u8>, b: Seq<u8>)
    requires
        encoded_bytes(a) == encoded_bytes(b),
    ensures
        a == b,
    decreases a.len(),
{
    let ea = encoded_bytes(a);
    let eb = encoded_bytes(b);
    if a.len() == 0 {
        if b.len() > 0 {
            assert(eb.len() >= encoded_byte(b.last()).len());
        }
        assert(a =~= b);
    } else if b.len() == 0 {
        assert(ea.len() >= encoded_byte(a.last()).len());
    } else {
        let x = a.last();
        let y = b.last();
        let n = ea.len() as int;
        let pa = encoded_bytes(a.drop_last());
        let pb = encoded_bytes(b.drop_last());
        lemma_encoded_bytes_safe(a);
        lemma_encoded_bytes_percent(a.drop_last());
        lemma_encoded_bytes_percent(b.drop_last());
        lemma_encoded_bytes_percent(a);
        lemma_encoded_bytes_percent(b);
        assert(x == y) by {
            if unreserved(x) && unreserved(y) {
                assert(ea[n - 1] == x as char);
                assert(eb[n - 1] == y as char);
            } else if !unreserved(x) && !unreserved(y) {
                assert(ea[n - 2] == hex_upper(x / 16) && ea[n - 1] == hex_upper(x % 16));
                assert(eb[n - 2] == hex_upper(y / 16) && eb[n - 1] == hex_upper(y % 16));
                assert(hex_value(hex_upper(x / 16)) == x / 16);
                assert(hex_value(hex_upper(y / 16)) == y / 16);
                assert(hex_value(hex_upper(x % 16)) == x % 16);
                assert(hex_value(hex_upper(y % 16)) == y % 16);
            } else if unreserved(x) {
                assert(eb[n - 3] == '%');
                assert(pa == ea.take(n - 1));
                assert(pa[n - 3] == '%');
            } else {
                assert(ea[n - 3] == '%');
                assert(pb == eb.take(n - 1));
                assert(pb[n - 3] == '%');
            }
        }
        assert(pa =~= ea.take(n - encoded_byte(x).len()));
        assert(pb =~= eb.take(n - encoded_byte(y).len()));
        lemma_encoded_bytes_injective(a.drop_last(), b.drop_last());
        assert(a =~= a.drop_last().push(x));
        assert(b =~= b.drop_last().push(y));
    }
}

/// A percent sign is always followed by two digits.
proof fn lemma_encoded_bytes_percent(bytes: Seq<u8>)
    ensures
        forall|i: int|
            0 <= i < encoded_bytes(bytes).len() && #[trigger] encoded_bytes(bytes)[i] == '%'
                ==> i + 2 < encoded_bytes(bytes).len(),
    decreases bytes.len(),
{
    if bytes.len() > 0 {
        lemma_encoded_bytes_percent(bytes.drop_last());
        let b = bytes.last();
        let before = encoded_bytes(bytes.drop_last());
        assert forall|i: int|
            0 <= i < encoded_bytes(bytes).len() && #[trigger] encoded_bytes(bytes)[i]
                == '%' implies i + 2 < encoded_bytes(bytes).len() by {
            if i < before.len() {
                assert(encoded_bytes(bytes)[i] == before[i]);
            } else {
                assert(encoded_bytes(bytes)[i] == encoded_byte(b)[i - before.len()]);
            }
        }
    }
}

/// Slashes at the end of the address do not matter.
pub proof fn law_end_slashes_do_not_matter(base_url: Seq<char>)
    ensures
        without_end_slashes(base_url.push('/')) == without_end_slashes(base_url),
{
    assert(base_url.push('/').drop_last() =~= base_url);
}

/// In a path segment the letters and digits of ASCII and `-`, `.`, `_` and `~` stand for
/// themselves; every other byte is a percent sign and its two digits to the base of sixteen.
pub proof fn law_bytes_stand_for_themselves_or_their_digits(b: u8)
    ensures
        65 <= b <= 90 || 97 <= b <= 122 || 48 <= b <= 57 || b == 45 || b == 46 || b == 95 || b
            == 126 ==> encoded_byte(b) == seq![b as char],
        !(65 <= b <= 90 || 97 <= b <= 122 || 48 <= b <= 57 || b == 45 || b == 46 || b == 95 || b
            == 126) ==> ({
            let e = encoded_byte(b);
            &&& e.len() == 3
            &&& e[0] == '%'
            &&& '0' <= e[1] <= '9' || 'A' <= e[1] <= 'F'
            &&& '0' <= e[2] <= '9' || 'A' <= e[2] <= 'F'
            &&& (if e[1] <= '9' {
                e[1] as int - 48
            } else {
                e[1] as int - 55
            }) * 16 + (if e[2] <= '9' {
                e[2] as int - 48
            } else {
                e[2] as int - 55
            }) == b
        }),
{
}

/// Bytes are encoded one by one, in order.
pub proof fn law_bytes_are_encoded_in_order(a: Seq<u8>, b: Seq<u8>)
    ensures
        encoded_bytes(a + b) == encoded_bytes(a) + encoded_bytes(b),
        encoded_bytes(Seq::empty()).len() == 0,
    decreases b.len(),
{
    if b.len() == 0 {
        assert(a + b =~= a);
        assert(encoded_bytes(a) + encoded_bytes(b) =~= encoded_bytes(a));
    } else {
        law_bytes_are_encoded_in_order(a, b.drop_last());
        assert((a + b).drop_last() =~= a + b.drop_last());
        assert((a + b).last() == b.last());
        assert(encoded_bytes(a) + encoded_bytes(b.drop_last()) + encoded_byte(b.last())
            =~= encoded_bytes(a) + (encoded_bytes(b.drop_last()) + encoded_byte(b.last())));
    }
}

/// An address loses the slashes at its end and nothing else.
pub proof fn law_only_end_slashes_go(s: Seq<char>)
    ensures
        ({
            let r = without_end_slashes(s);
            &&& r.is_prefix_of(s)
            &&& r.len() > 0 ==> r.last() != '/'
            &&& forall|i: int| r.len() <= i < s.len() ==> #[trigger] s[i] == '/'
        }),
    decreases s.len(),
{
    if s.len() > 0 && s.last() == '/' {
        let front = s.drop_last();
        law_only_end_slashes_go(front);
        assert forall|i: int| without_end_slashes(s).len() <= i < s.len() implies #[trigger] s[i]
            == '/' by {
            if i < front.len() {
                assert(front[i] == s[i]);
            }
        }
        assert(front.is_prefix_of(s));
    }
}

/// A line loses the carriage returns and line feeds at its end and nothing else.
pub proof fn law_only_line_ends_go(s: Seq<char>)
    ensures
        ({
            let r = without_line_end(s);
            &&& r.is_prefix_of(s)
            &&& r.len() > 0 ==> r.last() != '\r' && r.last() != '\n'
            &&& forall|i: int|
                r.len() <= i < s.len() ==> (#[trigger] s[i] == '\r' || s[i] == '\n')
        }),
    decreases s.len(),
{
    if s.len() > 0 && (s.last() == '\r' || s.last() == '\n') {
        let front = s.drop_last();
        law_only_line_ends_go(front);
        assert forall|i: int| without_line_end(s).len() <= i < s.len() implies (#[trigger] s[i]
            == '\r' || s[i] == '\n') by {
            if i < front.len() {
                assert(front[i] == s[i]);
            }
        }
        assert(front.is_prefix_of(s));
    }
}

/// A line that is neither empty nor of data leaves the data of its frame, an empty line ends
/// the frame, and a frame without data that count gives nothing.
pub proof fn law_only_data_lines_count(data: Seq<char>, line: Seq<char>)
    ensures
        without_line_end(line).len() == 0 ==> after_line(data, line).len() == 0,
        without_line_end(line).len() > 0 && !"data:"@.is_prefix_of(without_line_end(line))
            ==> after_line(data, line) == data,
        payload_of(data) matches Some(payload) ==> payload == data && !blank(data),
        !blank(data) ==> payload_of(data) == Some(data),
{
    let text = without_line_end(line);
    reveal_strlit("data:");
    if starts_with_chars(text, "data:"@) {
        assert("data:"@ =~= text.subrange(0, 5)) by {
            assert(text.take(5) =~= text.subrange(0, 5));
        }
        assert("data:"@.is_prefix_of(text));
    }
}

/// The daemon's address is the one that was set, and the one on this machine where none was or
/// only white space.
pub proof fn law_set_address_is_taken(setting: Seq<char>)
    ensures
        !blank(setting) ==> daemon_url_for(Some(setting)) == setting,
        blank(setting) ==> daemon_url_for(Some(setting)) == "http://127.0.0.1:4780"@,
        daemon_url_for(None) == "http://127.0.0.1:4780"@,
{
}

/// The daemon is online only where it answered that it is well, degraded where it answered
/// otherwise, and offline where it did not answer; then the error is told in its place.
pub proof fn law_health_is_told_as_it_is(health: DaemonHealth)
    ensures
        health matches DaemonHealth::Ready(answer) ==> (answer.ok ==> status_of(health)
            == "online"@) && (!answer.ok ==> status_of(health) == "degraded"@) && backend_of(health)
            == answer.backend@,
        health matches DaemonHealth::Offline(error) ==> status_of(health) == "offline"@
            && backend_of(health) == error@,
        health is Checking ==> status_of(health) == "checking"@ && backend_of(health)
            == "pending"@,
{
}

/// No two kinds of participants have the same mark or the same word.
pub proof fn law_kinds_of_participants_are_told_apart(
    a: RoomParticipantKind,
    b: RoomParticipantKind,
)
    requires
        a != b,
    ensures
        glyph_of(a) != glyph_of(b),
        label_of(a) != label_of(b),
{
    reveal_strlit("H");
    reveal_strlit("\u{1F916}");
    reveal_strlit("B");
    reveal_strlit("T");
    reveal_strlit("*");
    reveal_strlit("human");
    reveal_strlit("agent");
    reveal_strlit("bot");
    reveal_strlit("tool");
    reveal_strlit("system");
    assert("H"@[0] == 'H' && "B"@[0] == 'B' && "T"@[0] == 'T' && "*"@[0] == '*'
        && "\u{1F916}"@[0] == '\u{1F916}');
    assert("human"@[0] == 'h' && "agent"@[0] == 'a' && "bot"@[0] == 'b' && "tool"@[0] == 't'
        && "system"@[0] == 's');
}

/// The address of a room is that of the rooms and the room's key, so that different keys have
/// different addresses.
pub proof fn law_rooms_have_addresses_of_their_own(
    base_url: Seq<char>,
    a: Seq<char>,
    b: Seq<char>,
)
    ensures
        room_address(base_url, a) == room_address(base_url, b) ==> a == b,
        (without_end_slashes(base_url) + "/v1/rooms/persistent/"@).is_prefix_of(
            room_address(base_url, a),
        ),
{
    let head = without_end_slashes(base_url) + "/v1/rooms/persistent/"@;
    assert(room_address(base_url, a).skip(head.len() as int) =~= path_segment(a));
    assert(room_address(base_url, b).skip(head.len() as int) =~= path_segment(b));
    if room_address(base_url, a) == room_address(base_url, b) {
        law_path_segments_tell_apart(a, b);
    }
}

} // verus!
