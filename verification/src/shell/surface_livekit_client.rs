//! Talking to the session that holds a media room: what is asked of it, what it
//! reports, and what is checked before anything is asked.

use tokio::sync::mpsc::error::{TryRecvError, TrySendError};
use tokio::sync::mpsc::{Receiver, Sender};

use vstd::prelude::*;

use crate::shell::surface_livekit::{SurfaceLiveKitCredentials, SurfaceLiveKitParticipant};
use crate::sorted_map::SortedMap;
use crate::text::{copy_str, is_blank};

verus! {

broadcast use vstd::string::group_string_axioms;

use crate::text::blank;

/// How many commands may wait for the session.
pub const CLIENT_COMMAND_BUFFER: usize = 16;

/// What a surface shows to the room: its metadata, its participant's attributes, and
/// its media.
#[derive(Clone, Debug, PartialEq, Eq)]
pub struct SurfaceLiveKitSurfaceUpdate {
    pub room_metadata: String,
    pub participant_attributes: SortedMap<String>,
    pub mic_enabled: bool,
    pub camera_enabled: bool,
}

impl SurfaceLiveKitSurfaceUpdate {
    /// What a surface shows to the room.
    #[must_use]
    pub fn new(
        room_metadata: String,
        participant_attributes: SortedMap<String>,
        mic_enabled: bool,
        camera_enabled: bool,
    ) -> (r: Self)
        ensures
            r == (SurfaceLiveKitSurfaceUpdate {
                room_metadata,
                participant_attributes,
                mic_enabled,
                camera_enabled,
            }),
    {
        SurfaceLiveKitSurfaceUpdate {
            room_metadata,
            participant_attributes,
            mic_enabled,
            camera_enabled,
        }
    }
}

/// Asks to join a room.
#[derive(Clone, Debug, PartialEq, Eq)]
pub struct SurfaceLiveKitJoinRequest {
    pub credentials: SurfaceLiveKitCredentials,
    pub initial_update: SurfaceLiveKitSurfaceUpdate,
}

impl SurfaceLiveKitJoinRequest {
    /// Asks to join a room, and shows it a first time what the surface shows.
    #[must_use]
    pub fn new(
        credentials: SurfaceLiveKitCredentials,
        room_metadata: String,
        participant_attributes: SortedMap<String>,
        mic_enabled: bool,
        camera_enabled: bool,
    ) -> (r: Self)
        ensures
            r == (SurfaceLiveKitJoinRequest {
                credentials,
                initial_update: SurfaceLiveKitSurfaceUpdate {
                    room_metadata,
                    participant_attributes,
                    mic_enabled,
                    camera_enabled,
                },
            }),
    {
        SurfaceLiveKitJoinRequest {
            credentials,
            initial_update: SurfaceLiveKitSurfaceUpdate::new(
                room_metadata,
                participant_attributes,
                mic_enabled,
                camera_enabled,
            ),
        }
    }
}

/// What the session reports.
#[allow(inconsistent_fields)]
#[derive(Clone, Debug, PartialEq, Eq)]
pub enum SurfaceLiveKitClientEvent {
    Joining { room: String },
    Joined { room: String, participant: String },
    MetadataPublished { room: String },
    SurfaceStatePublished { room: String },
    SurfaceStateFailed { room: String, error: String },
    MicrophonePublished { room: String, track_sid: String },
    MicrophoneUnpublished { room: String },
    MicrophoneFailed { room: String, error: String },
    CameraPublished { room: String, track_sid: String },
    CameraUnpublished { room: String },
    CameraFailed { room: String, error: String },
    /// Someone's video is to be seen.
    RemoteVideoSubscribed { room: String, participant_identity: String, track_sid: String },
    /// Someone's video is no longer to be seen.
    RemoteVideoRemoved { room: String, participant_identity: String, track_sid: String },
    MediaFailed { room: String, error: String },
    ConnectionState { room: String, state: String },
    RosterUpdated { room: String, participants: Vec<SurfaceLiveKitParticipant> },
    Disconnected { room: String, reason: String },
    Failed { room: String, error: String },
}

/// What is asked of the session.
#[derive(Clone, Debug, PartialEq, Eq)]
pub enum SurfaceLiveKitClientCommand {
    UpdateSurface(SurfaceLiveKitSurfaceUpdate),
    Disconnect,
}

/// What the session does next.
#[derive(Clone, Debug, PartialEq, Eq)]
pub enum SurfaceLiveKitClientAction {
    UpdateSurface(SurfaceLiveKitSurfaceUpdate),
    Disconnect,
    Closed,
}

/// Why a command did not reach the session.
#[derive(Clone, Copy, Debug, PartialEq, Eq, Structural)]
pub enum SurfaceLiveKitCommandError {
    Full,
    Closed,
}

impl SurfaceLiveKitCommandError {
    /// The error in words.
    #[must_use]
    pub fn message(self) -> (r: &'static str)
        ensures
            r@ == match self {
                SurfaceLiveKitCommandError::Full => "LiveKit command queue is full"@,
                SurfaceLiveKitCommandError::Closed => "LiveKit command queue is closed"@,
            },
    {
        match self {
            SurfaceLiveKitCommandError::Full => "LiveKit command queue is full",
            SurfaceLiveKitCommandError::Closed => "LiveKit command queue is closed",
        }
    }
}

/// The sending end of a queue of tokio.
#[verifier::external_type_specification]
#[verifier::external_body]
#[verifier::reject_recursive_types(T)]
pub struct ExSender<T>(tokio::sync::mpsc::Sender<T>);

/// `Sender::try_send` puts a command into the queue, or tells that the queue is full or
/// that nobody reads it any more. Which of these it is depends on the other end of the
/// queue at that moment, so nothing is claimed of the result.
#[verifier::external_body]
fn offer(
    sender: &Sender<SurfaceLiveKitClientCommand>,
    command: SurfaceLiveKitClientCommand,
) -> Result<(), SurfaceLiveKitCommandError> {
    match sender.try_send(command) {
        Ok(()) => Ok(()),
        Err(TrySendError::Full(_)) => Err(SurfaceLiveKitCommandError::Full),
        Err(TrySendError::Closed(_)) => Err(SurfaceLiveKitCommandError::Closed),
    }
}

/// `Sender::clone` gives another sending end of the same queue. The ends of one queue are
/// not told apart, as those of a shared pointer are not.
#[verifier::external_body]
fn another_end(sender: &Sender<SurfaceLiveKitClientCommand>) -> (r: Sender<
    SurfaceLiveKitClientCommand,
>)
    ensures
        r == *sender,
{
    sender.clone()
}

/// Whether `answer` is what the queue said to this very command. Nothing but offering the
/// command to the queue shows it.
pub closed spec fn answered(
    queue: Sender<SurfaceLiveKitClientCommand>,
    command: SurfaceLiveKitClientCommand,
    answer: Result<(), SurfaceLiveKitCommandError>,
) -> bool {
    call_ensures(offer, (&queue, command), answer)
}

/// Hands a command over by `send`, and gives back what `send` said.
fn hand_over<
    F: Fn(&Sender<SurfaceLiveKitClientCommand>, SurfaceLiveKitClientCommand) -> Result<
        (),
        SurfaceLiveKitCommandError,
    >,
>(
    send: F,
    sender: &Sender<SurfaceLiveKitClientCommand>,
    command: SurfaceLiveKitClientCommand,
) -> (r: Result<(), SurfaceLiveKitCommandError>)
    requires
        call_requires(send, (sender, command)),
    ensures
        call_ensures(send, (sender, command), r),
{
    send(sender, command)
}

/// The way to the session.
#[derive(Debug)]
pub struct SurfaceLiveKitClientHandle {
    sender: Sender<SurfaceLiveKitClientCommand>,
}

impl Clone for SurfaceLiveKitClientHandle {
    fn clone(&self) -> (r: Self)
        ensures
            r.queue() == self.queue(),
    {
        SurfaceLiveKitClientHandle { sender: another_end(&self.sender) }
    }
}

impl SurfaceLiveKitClientHandle {
    /// The queue that the commands go into.
    pub closed spec fn queue(self) -> Sender<SurfaceLiveKitClientCommand> {
        self.sender
    }

    /// The way to the session at the other end of a queue.
    #[must_use]
    pub fn new(sender: Sender<SurfaceLiveKitClientCommand>) -> (r: Self)
        ensures
            r.queue() == sender,
    {
        SurfaceLiveKitClientHandle { sender }
    }

    /// Offers the session what the surface shows now, and tells what the queue said.
    /// Whether the queue takes it depends on the other end of the queue.
    pub fn try_update_surface(&self, update: SurfaceLiveKitSurfaceUpdate) -> (r: Result<
        (),
        SurfaceLiveKitCommandError,
    >)
        ensures
            answered(self.queue(), SurfaceLiveKitClientCommand::UpdateSurface(update), r),
    {
        hand_over(offer, &self.sender, SurfaceLiveKitClientCommand::UpdateSurface(update))
    }

    /// Asks the session to leave, and tells what the queue said. Whether the queue takes it
    /// depends on the other end of the queue.
    pub fn try_disconnect(&self) -> (r: Result<(), SurfaceLiveKitCommandError>)
        ensures
            answered(self.queue(), SurfaceLiveKitClientCommand::Disconnect, r),
    {
        hand_over(offer, &self.sender, SurfaceLiveKitClientCommand::Disconnect)
    }
}

/// What is wrong with what a surface shows.
pub open spec fn update_fault(update: SurfaceLiveKitSurfaceUpdate) -> Option<Seq<char>> {
    if blank(update.room_metadata@) {
        Some("missing surface metadata"@)
    } else {
        None
    }
}

/// What is wrong with a request to join: the first of what is missing.
pub open spec fn join_fault(request: SurfaceLiveKitJoinRequest) -> Option<Seq<char>> {
    if blank(request.credentials.url@) {
        Some("missing LiveKit url"@)
    } else if blank(request.credentials.room@) {
        Some("missing LiveKit room"@)
    } else if blank(request.credentials.token@) {
        Some("missing LiveKit token"@)
    } else {
        update_fault(request.initial_update)
    }
}

/// Checks a request to join.
pub fn validate_join_request(request: &SurfaceLiveKitJoinRequest) -> (r: Result<(), String>)
    ensures
        match join_fault(*request) {
            Some(fault) => r matches Err(error) && error@ == fault,
            None => r is Ok,
        },
{
    if is_blank(request.credentials.url.as_str()) {
        return Err(copy_str("missing LiveKit url"));
    }
    if is_blank(request.credentials.room.as_str()) {
        return Err(copy_str("missing LiveKit room"));
    }
    if is_blank(request.credentials.token.as_str()) {
        return Err(copy_str("missing LiveKit token"));
    }
    validate_surface_update(&request.initial_update)
}

/// Checks what a surface shows.
pub fn validate_surface_update(update: &SurfaceLiveKitSurfaceUpdate) -> (r: Result<(), String>)
    ensures
        match update_fault(*update) {
            Some(fault) => r matches Err(error) && error@ == fault,
            None => r is Ok,
        },
{
    if is_blank(update.room_metadata.as_str()) {
        return Err(copy_str("missing surface metadata"));
    }
    Ok(())
}

/// What is reported of a request to join where there is no session to hold a room.
#[must_use]
pub fn refused_join(request: SurfaceLiveKitJoinRequest) -> (r: SurfaceLiveKitClientEvent)
    ensures
        r matches SurfaceLiveKitClientEvent::Failed { room, error } && room
            == request.credentials.room && error@
            == "voice/LiveKit support is not built in (rebuild ocean-gui with --features livekit)"@,
{
    SurfaceLiveKitClientEvent::Failed {
        room: request.credentials.room,
        error: copy_str(
            "voice/LiveKit support is not built in (rebuild ocean-gui with --features livekit)",
        ),
    }
}

/// What reading the queue of commands gives.
#[derive(Clone, Debug, PartialEq, Eq)]
pub enum ReceivedCommand {
    Command(SurfaceLiveKitClientCommand),
    Empty,
    Disconnected,
}

/// Whether the queue has to be read on.
#[derive(Clone, Debug, PartialEq, Eq)]
pub enum CoalesceStep {
    /// It has, with what the surface shows by now.
    ReadOn(SurfaceLiveKitSurfaceUpdate),
    /// It has not, and this is what to do.
    Done(SurfaceLiveKitClientAction),
}

/// What comes of reading the queue once more: a later update takes the place of an
/// earlier one, and leaving comes before both.
pub open spec fn coalesced(
    update: SurfaceLiveKitSurfaceUpdate,
    received: ReceivedCommand,
) -> CoalesceStep {
    match received {
        ReceivedCommand::Command(command) => match command {
            SurfaceLiveKitClientCommand::UpdateSurface(next) => CoalesceStep::ReadOn(next),
            SurfaceLiveKitClientCommand::Disconnect => CoalesceStep::Done(
                SurfaceLiveKitClientAction::Disconnect,
            ),
        },
        ReceivedCommand::Empty => CoalesceStep::Done(
            SurfaceLiveKitClientAction::UpdateSurface(update),
        ),
        ReceivedCommand::Disconnected => CoalesceStep::Done(SurfaceLiveKitClientAction::Closed),
    }
}

/// Takes in what reading the queue once more gave.
#[must_use]
pub fn coalesce_step(
    update: SurfaceLiveKitSurfaceUpdate,
    received: ReceivedCommand,
) -> (r: CoalesceStep)
    ensures
        r == coalesced(update, received),
{
    match received {
        ReceivedCommand::Command(command) => match command {
            SurfaceLiveKitClientCommand::UpdateSurface(next) => CoalesceStep::ReadOn(next),
            SurfaceLiveKitClientCommand::Disconnect => CoalesceStep::Done(
                SurfaceLiveKitClientAction::Disconnect,
            ),
        },
        ReceivedCommand::Empty => CoalesceStep::Done(
            SurfaceLiveKitClientAction::UpdateSurface(update),
        ),
        ReceivedCommand::Disconnected => CoalesceStep::Done(SurfaceLiveKitClientAction::Closed),
    }
}

/// What comes of reading a whole queue, given what each reading gives; nothing where it
/// has to be read on.
pub open spec fn coalesced_all(
    update: SurfaceLiveKitSurfaceUpdate,
    received: Seq<ReceivedCommand>,
) -> Option<SurfaceLiveKitClientAction>
    decreases received.len(),
{
    if received.len() == 0 {
        None
    } else {
        match coalesced(update, received[0]) {
            CoalesceStep::ReadOn(next) => coalesced_all(next, received.drop_first()),
            CoalesceStep::Done(action) => Some(action),
        }
    }
}

/// The receiving end of a queue of tokio.
#[verifier::external_type_specification]
#[verifier::external_body]
#[verifier::reject_recursive_types(T)]
pub struct ExReceiver<T>(tokio::sync::mpsc::Receiver<T>);

/// What the readings of `Receiver::try_recv` have given on a queue so far, in order.
pub uninterp spec fn read_from(
    commands: Receiver<SurfaceLiveKitClientCommand>,
) -> Seq<ReceivedCommand>;

/// `Receiver::try_recv` takes the next command out of the queue, or tells that none waits
/// or that nobody can send one any more. Which of these it is depends on the other end of
/// the queue at that moment; claimed is only that the queue was read once and that this is
/// what it gave.
#[verifier::external_body]
fn next_command(commands: &mut Receiver<SurfaceLiveKitClientCommand>) -> (r: ReceivedCommand)
    ensures
        read_from(*final(commands)) == read_from(*old(commands)).push(r),
{
    match commands.try_recv() {
        Ok(command) => ReceivedCommand::Command(command),
        Err(TryRecvError::Empty) => ReceivedCommand::Empty,
        Err(TryRecvError::Disconnected) => ReceivedCommand::Disconnected,
    }
}

/// Reading on with a later update is reading from there.
proof fn lemma_read_on(
    update: SurfaceLiveKitSurfaceUpdate,
    received: Seq<ReceivedCommand>,
    rest: Seq<ReceivedCommand>,
)
    requires
        forall|i: int|
            0 <= i < received.len() ==> ((#[trigger] received[i]) matches
                ReceivedCommand::Command(command) && command is UpdateSurface),
    ensures
        coalesced_all(update, received + rest) == coalesced_all(
            last_update(update, received),
            rest,
        ),
    decreases received.len(),
{
    if received.len() == 0 {
        assert(received + rest =~= rest);
    } else {
        let later = received.drop_first();
        assert((received + rest).drop_first() =~= later + rest);
        assert((received + rest)[0] == received[0]);
        assert forall|i: int| 0 <= i < later.len() implies ((#[trigger] later[i]) matches
            ReceivedCommand::Command(command) && command is UpdateSurface) by {
            assert(received[i + 1] == later[i]);
        }
        match coalesced(update, received[0]) {
            CoalesceStep::ReadOn(next) => {
                lemma_read_on(next, later, rest);
                lemma_last_update(update, next, received);
            },
            CoalesceStep::Done(_) => {},
        }
    }
}

/// What a surface shows after a list of updates.
spec fn last_update(
    update: SurfaceLiveKitSurfaceUpdate,
    received: Seq<ReceivedCommand>,
) -> SurfaceLiveKitSurfaceUpdate {
    if received.len() == 0 {
        update
    } else {
        match coalesced(update, received.last()) {
            CoalesceStep::ReadOn(next) => next,
            CoalesceStep::Done(_) => update,
        }
    }
}

proof fn lemma_last_update(
    update: SurfaceLiveKitSurfaceUpdate,
    next: SurfaceLiveKitSurfaceUpdate,
    received: Seq<ReceivedCommand>,
)
    requires
        received.len() > 0,
        coalesced(update, received[0]) == CoalesceStep::ReadOn(next),
        received.last() matches ReceivedCommand::Command(command) && command is UpdateSurface,
    ensures
        last_update(next, received.drop_first()) == last_update(update, received),
{
}

/// Whether `action` is what came of reading the queue just until it told what to do, or, had
/// it given updates for as long as a machine word can count, of taking it for empty then.
pub open spec fn decided(
    update: SurfaceLiveKitSurfaceUpdate,
    received: Seq<ReceivedCommand>,
    action: SurfaceLiveKitClientAction,
) -> bool {
    ||| {
        &&& received.len() > 0
        &&& coalesced_all(update, received.drop_last()) is None
        &&& coalesced_all(update, received) == Some(action)
    }
    ||| {
        &&& received.len() == usize::MAX
        &&& coalesced_all(update, received) is None
        &&& coalesced_all(update, received.push(ReceivedCommand::Empty)) == Some(action)
    }
}

/// Reads the queue of commands until it tells what to do, and no further: a later update
/// takes the place of an earlier one, and leaving comes before both. What is read depends on
/// the other end of the queue; whatever it is, it decides as [`coalesce_step`] does. The
/// queue is read no more often than a machine word can count, which takes longer than any
/// session.
pub fn coalesce_surface_update(
    commands: &mut Receiver<SurfaceLiveKitClientCommand>,
    update: SurfaceLiveKitSurfaceUpdate,
) -> (r: SurfaceLiveKitClientAction)
    ensures
        read_from(*old(commands)).is_prefix_of(read_from(*final(commands))),
        decided(
            update,
            read_from(*final(commands)).skip(read_from(*old(commands)).len() as int),
            r,
        ),
{
    let ghost mut received: Seq<ReceivedCommand> = Seq::empty();
    let ghost first = update;
    let ghost before = read_from(*commands);
    let mut shown = update;
    let mut left: usize = usize::MAX;
    assert(before + received =~= before);
    while left > 0
        invariant
            forall|i: int|
                0 <= i < received.len() ==> ((#[trigger] received[i]) matches
                    ReceivedCommand::Command(command) && command is UpdateSurface),
            first == update,
            before == read_from(*old(commands)),
            read_from(*commands) == before + received,
            received.len() + left == usize::MAX,
            shown == last_update(first, received),
        decreases left,
    {
        left = left - 1;
        let next = next_command(commands);
        let ghost read = next;
        assert(read_from(*commands) =~= before + received.push(read));
        match coalesce_step(shown, next) {
            CoalesceStep::ReadOn(later) => {
                proof {
                    received = received.push(read);
                }
                shown = later;
            },
            CoalesceStep::Done(action) => {
                proof {
                    let all = received.push(read);
                    lemma_read_on(first, received, seq![read]);
                    lemma_read_on(first, received, Seq::empty());
                    assert(received + seq![read] =~= all);
                    assert(received + Seq::empty() =~= received);
                    assert(all.drop_last() =~= received);
                    assert(read_from(*commands).skip(before.len() as int) =~= all);
                }
                return action;
            },
        }
    }
    proof {
        lemma_read_on(first, received, seq![ReceivedCommand::Empty]);
        lemma_read_on(first, received, Seq::empty());
        assert(received + seq![ReceivedCommand::Empty] =~= received.push(ReceivedCommand::Empty));
        assert(received + Seq::empty() =~= received);
        assert(read_from(*commands).skip(before.len() as int) =~= received);
    }
    SurfaceLiveKitClientAction::UpdateSurface(shown)
}

/// What reading a queue gives in which updates wait.
pub open spec fn updates(waiting: Seq<SurfaceLiveKitSurfaceUpdate>) -> Seq<ReceivedCommand> {
    Seq::new(
        waiting.len(),
        |i: int| ReceivedCommand::Command(SurfaceLiveKitClientCommand::UpdateSurface(waiting[i])),
    )
}

/// Of updates that wait in a queue only the last is carried out.
pub proof fn law_last_update_wins(
    update: SurfaceLiveKitSurfaceUpdate,
    waiting: Seq<SurfaceLiveKitSurfaceUpdate>,
    action: SurfaceLiveKitClientAction,
)
    requires
        decided(update, updates(waiting).push(ReceivedCommand::Empty), action),
    ensures
        action == SurfaceLiveKitClientAction::UpdateSurface(
            if waiting.len() == 0 {
                update
            } else {
                waiting.last()
            },
        ),
{
    lemma_last_update_wins(update, waiting);
}

proof fn lemma_last_update_wins(
    update: SurfaceLiveKitSurfaceUpdate,
    waiting: Seq<SurfaceLiveKitSurfaceUpdate>,
)
    ensures
        coalesced_all(update, updates(waiting).push(ReceivedCommand::Empty)) == Some(
            SurfaceLiveKitClientAction::UpdateSurface(
                if waiting.len() == 0 {
                    update
                } else {
                    waiting.last()
                },
            ),
        ),
    decreases waiting.len(),
{
    let all = updates(waiting).push(ReceivedCommand::Empty);
    if waiting.len() > 0 {
        lemma_last_update_wins(waiting[0], waiting.drop_first());
        assert(all.drop_first() =~= updates(waiting.drop_first()).push(ReceivedCommand::Empty));
    }
}

/// Asking to leave comes before whatever waits in front of it.
pub proof fn law_disconnect_wins(
    update: SurfaceLiveKitSurfaceUpdate,
    waiting: Seq<SurfaceLiveKitSurfaceUpdate>,
    action: SurfaceLiveKitClientAction,
)
    requires
        decided(
            update,
            updates(waiting).push(
                ReceivedCommand::Command(SurfaceLiveKitClientCommand::Disconnect),
            ),
            action,
        ),
    ensures
        action == SurfaceLiveKitClientAction::Disconnect,
{
    lemma_disconnect_wins(update, waiting);
}

proof fn lemma_disconnect_wins(
    update: SurfaceLiveKitSurfaceUpdate,
    waiting: Seq<SurfaceLiveKitSurfaceUpdate>,
)
    ensures
        coalesced_all(
            update,
            updates(waiting).push(
                ReceivedCommand::Command(SurfaceLiveKitClientCommand::Disconnect),
            ),
        ) == Some(SurfaceLiveKitClientAction::Disconnect),
    decreases waiting.len(),
{
    let leave = ReceivedCommand::Command(SurfaceLiveKitClientCommand::Disconnect);
    let all = updates(waiting).push(leave);
    if waiting.len() > 0 {
        lemma_disconnect_wins(waiting[0], waiting.drop_first());
        assert(all.drop_first() =~= updates(waiting.drop_first()).push(leave));
    }
}

/// A request to join whose parts are all there passes, and no other.
pub proof fn law_complete_request_passes(request: SurfaceLiveKitJoinRequest)
    ensures
        join_fault(request) is None == !(blank(request.credentials.url@) || blank(
            request.credentials.room@,
        ) || blank(request.credentials.token@) || blank(request.initial_update.room_metadata@)),
{
}

/// A queue that nobody writes to any more ends the session; an empty one has the last update
/// carried out.
pub proof fn law_closed_queue_ends_the_session(
    update: SurfaceLiveKitSurfaceUpdate,
    next: SurfaceLiveKitSurfaceUpdate,
)
    ensures
        coalesced(update, ReceivedCommand::Disconnected) == CoalesceStep::Done(
            SurfaceLiveKitClientAction::Closed,
        ),
        coalesced(update, ReceivedCommand::Empty) == CoalesceStep::Done(
            SurfaceLiveKitClientAction::UpdateSurface(update),
        ),
        coalesced(
            update,
            ReceivedCommand::Command(SurfaceLiveKitClientCommand::UpdateSurface(next)),
        ) == CoalesceStep::ReadOn(next),
{
}

/// What is missing of a request to join is told, the address before the room, that before the
/// token, and that before what the surface shows.
pub proof fn law_first_missing_part_is_told(request: SurfaceLiveKitJoinRequest)
    ensures
        blank(request.credentials.url@) ==> join_fault(request) == Some("missing LiveKit url"@),
        !blank(request.credentials.url@) && blank(request.credentials.room@) ==> join_fault(request)
            == Some("missing LiveKit room"@),
        !blank(request.credentials.url@) && !blank(request.credentials.room@) && blank(
            request.credentials.token@,
        ) ==> join_fault(request) == Some("missing LiveKit token"@),
        !blank(request.credentials.url@) && !blank(request.credentials.room@) && !blank(
            request.credentials.token@,
        ) && blank(request.initial_update.room_metadata@) ==> join_fault(request) == Some(
            "missing surface metadata"@,
        ),
{
}

} // verus!
