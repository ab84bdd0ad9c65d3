//! The rooms panel: the rooms, the one that is open, what is said there, and who this
//! surface is in it.

use std::time::{Duration, SystemTime, UNIX_EPOCH};

use vstd::prelude::*;

use crate::shell::daemon::{Room, RoomMessage, RoomParticipantKind};
use crate::text::{
    chars_of, concat2, concat3, copy_str, decimal_usize, is_blank, lower_char, str_eq,
    string_of_range,
};

verus! {

broadcast use vstd::string::group_string_axioms;

use crate::shell::daemon::glyph_of;
use crate::text::{ascii_lower, blank, decimal, opt_chars};

/// A point in time of the wall clock.
#[verifier::external_type_specification]
#[verifier::external_body]
pub struct ExSystemTime(std::time::SystemTime);

/// `SystemTime::now` reads the wall clock. Nothing is claimed of what it gives.
#[verifier::external_body]
fn wall_clock() -> SystemTime {
    SystemTime::now()
}

/// `SystemTime::duration_since` gives how long after the Unix epoch a time is, nothing
/// where it is before it. No more is claimed: the times stand for what the clock said.
#[verifier::external_body]
fn since_epoch(time: SystemTime) -> Option<Duration> {
    time.duration_since(UNIX_EPOCH).ok()
}

/// `Duration::as_nanos` counts the nanoseconds. Nothing is claimed of the number: it
/// stands for what the clock said.
#[verifier::external_body]
fn whole_nanos(duration: &Duration) -> u128 {
    duration.as_nanos()
}

/// Who this surface is in a room.
#[derive(Clone, Debug, PartialEq, Eq)]
pub struct RoomIdentity {
    pub id: String,
    pub display_name: String,
}

/// A hexadecimal digit.
pub open spec fn hex_lower(d: int) -> char {
    if d < 10 {
        (48 + d) as char
    } else {
        (87 + d) as char
    }
}

/// A number in hexadecimal digits, without leading zeros.
pub open spec fn hex(n: nat) -> Seq<char>
    decreases n,
{
    if n < 16 {
        seq![hex_lower(n as int)]
    } else {
        hex(n / 16).push(hex_lower((n % 16) as int))
    }
}

/// Writes a number in hexadecimal digits.
fn hex_text(n: u64) -> (s: String)
    ensures
        s@ == hex(n as nat),
    decreases n,
{
    let digit: u8 = (n % 16) as u8;
    let mut s = if n < 16 {
        String::new()
    } else {
        hex_text(n / 16)
    };
    if digit < 10 {
        s.push((48u8 + digit) as char);
    } else {
        s.push((87u8 + digit) as char);
    }
    assert(n < 16 ==> s@ =~= seq![hex_lower(n as int)]);
    s
}

/// The id that a reading of the clock gives.
pub open spec fn minted_id(nanos: u64) -> Seq<char> {
    "gpui-"@ + hex((nanos.wrapping_mul(0x9E37_79B9_7F4A_7C15) >> 24) as nat)
}

/// What counts of a reading of the clock.
pub open spec fn clock_bits(nanos: Option<u128>) -> u64 {
    match nanos {
        Some(all) => (all % 0x1_0000_0000_0000_0000) as u64,
        None => 0,
    }
}

impl RoomIdentity {
    /// The identity that a reading of the clock gives; its name is its id.
    #[must_use]
    pub fn from_nanos(nanos: u64) -> (r: Self)
        ensures
            r.id@ == minted_id(nanos),
            r.display_name@ == r.id@,
    {
        let mixed: u64 = nanos.wrapping_mul(0x9E37_79B9_7F4A_7C15);
        let digits = hex_text(mixed >> 24);
        let id = concat2("gpui-", digits.as_str());
        RoomIdentity { display_name: id.clone(), id }
    }

    /// The identity that the clock gives: by the nanoseconds since the Unix epoch, of which
    /// the last sixty-four bits count, or by zero where the clock stands before it.
    #[must_use]
    pub fn from_clock(nanos: Option<u128>) -> (r: Self)
        ensures
            r.id@ == minted_id(clock_bits(nanos)),
            r.display_name@ == r.id@,
    {
        let bits: u64 = match nanos {
            Some(all) => (all % 0x1_0000_0000_0000_0000) as u64,
            None => 0,
        };
        RoomIdentity::from_nanos(bits)
    }

    /// A fresh identity for this launch, by what the clock says.
    #[must_use]
    pub fn mint() -> (r: Self)
        ensures
            r.display_name@ == r.id@,
            exists|nanos: Option<u128>| r.id@ == minted_id(#[trigger] clock_bits(nanos)),
    {
        let nanos: Option<u128> = match since_epoch(wall_clock()) {
            Some(duration) => Some(whole_nanos(&duration)),
            None => None,
        };
        RoomIdentity::from_clock(nanos)
    }
}

/// The rooms panel.
#[derive(Clone, Debug)]
pub struct RoomsState {
    /// Whether the panel shows.
    pub panel_open: bool,
    /// The rooms.
    pub list: Vec<Room>,
    /// The key of the room that is chosen.
    pub open_key: Option<String>,
    /// The room that is open.
    pub open_room: Option<Room>,
    /// What is said in it, in the order of its numbers.
    pub transcript: Vec<RoomMessage>,
    /// The name that is typed for a new room.
    pub new_room_draft: String,
    /// What is typed to be said.
    pub composer_draft: String,
    /// What the panel has to say.
    pub status: String,
    /// Changes whenever the open room does, so that answers for an earlier one can be
    /// told.
    pub generation: u64,
    /// Who this surface is.
    pub identity: RoomIdentity,
}

/// The generation after a room was chosen or closed.
pub open spec fn next_generation(generation: u64) -> u64 {
    if generation == u64::MAX {
        0
    } else {
        (generation + 1) as u64
    }
}

/// The generation after rooms were chosen or closed a number of times.
pub open spec fn generation_after(generation: u64, changes: nat) -> u64
    decreases changes,
{
    if changes == 0 {
        generation
    } else {
        next_generation(generation_after(generation, (changes - 1) as nat))
    }
}

/// The highest number in a transcript, zero where it is empty.
pub open spec fn highest(transcript: Seq<RoomMessage>) -> u64 {
    if transcript.len() == 0 {
        0
    } else {
        transcript.last().seq
    }
}

/// A transcript with those entries of a tail added that are new to it.
pub open spec fn with_tail(transcript: Seq<RoomMessage>, tail: Seq<RoomMessage>) -> Seq<RoomMessage>
    decreases tail.len(),
{
    if tail.len() == 0 {
        transcript
    } else {
        let before = with_tail(transcript, tail.drop_last());
        if highest(before) < tail.last().seq {
            before.push(tail.last())
        } else {
            before
        }
    }
}

/// Whether someone is in a room.
pub open spec fn in_room(room: Room, id: Seq<char>) -> bool {
    exists|i: int| 0 <= i < room.participants@.len() && (#[trigger] room.participants@[i]).id@ == id
}

fn has_participant(room: &Room, id: &str) -> (r: bool)
    ensures
        r == in_room(*room, id@),
{
    let mut i: usize = 0;
    while i < room.participants.len()
        invariant
            i <= room.participants.len(),
            forall|k: int| 0 <= k < i ==> (#[trigger] room.participants@[k]).id@ != id@,
        decreases room.participants.len() - i,
    {
        if str_eq(room.participants[i].id.as_str(), id) {
            return true;
        }
        i += 1;
    }
    false
}

impl Default for RoomsState {
    fn default() -> (r: Self)
        ensures
            !r.panel_open,
            r.list@.len() == 0,
            r.open_key is None,
            r.open_room is None,
            r.transcript@.len() == 0,
            r.new_room_draft@.len() == 0,
            r.composer_draft@.len() == 0,
            r.status@.len() == 0,
            r.generation == 0,
            r.identity.display_name@ == r.identity.id@,
            exists|nanos: u64| r.identity.id@ == #[trigger] minted_id(nanos),
    {
        RoomsState {
            panel_open: false,
            list: Vec::new(),
            open_key: None,
            open_room: None,
            transcript: Vec::new(),
            new_room_draft: String::new(),
            composer_draft: String::new(),
            status: String::new(),
            generation: 0,
            identity: RoomIdentity::mint(),
        }
    }
}

impl RoomsState {
    /// Whether this surface is in the open room.
    #[must_use]
    pub fn joined_open(&self) -> (r: bool)
        ensures
            r == match self.open_room {
                Some(room) => in_room(room, self.identity.id@),
                None => false,
            },
    {
        match &self.open_room {
            Some(room) => has_participant(room, self.identity.id.as_str()),
            None => false,
        }
    }

    /// The highest number in the transcript: what comes next comes after it.
    #[must_use]
    pub fn highest_seq(&self) -> (r: u64)
        ensures
            r == highest(self.transcript@),
    {
        let n: usize = self.transcript.len();
        if n == 0 {
            0
        } else {
            self.transcript[n - 1].seq
        }
    }

    /// Whether there is something to say, and a room to say it in.
    #[must_use]
    pub fn can_send(&self) -> (r: bool)
        ensures
            r == (self.open_key is Some && !blank(self.composer_draft@)),
    {
        self.open_key.is_some() && !is_blank(self.composer_draft.as_str())
    }

    /// The rooms came in.
    pub fn set_list(&mut self, rooms: Vec<Room>)
        ensures
            *final(self) == (RoomsState { list: rooms, ..*old(self) }),
    {
        self.list = rooms;
    }

    /// A room is chosen: nothing of it is known yet, and whatever was asked for an
    /// earlier one is out of date. Gives the generation for what is asked now.
    pub fn begin_open(&mut self, key: String) -> (r: u64)
        ensures
            r == next_generation(old(self).generation),
            *final(self) == (RoomsState {
                generation: r,
                open_key: Some(key),
                open_room: None,
                transcript: final(self).transcript,
                status: final(self).status,
                ..*old(self)
            }),
            final(self).transcript@ == Seq::<RoomMessage>::empty(),
            final(self).status@ == "loading room..."@,
    {
        self.generation = self.generation.wrapping_add(1);
        self.open_key = Some(key);
        self.open_room = None;
        self.transcript = Vec::new();
        self.status = copy_str("loading room...");
        self.generation
    }

    /// A room came in. It is taken only where it was asked for in this generation; tells
    /// whether it was.
    pub fn apply_loaded(
        &mut self,
        generation: u64,
        room: Option<Room>,
        transcript: Vec<RoomMessage>,
    ) -> (r: bool)
        ensures
            r == (generation == old(self).generation),
            !r ==> *final(self) == *old(self),
            r ==> *final(self) == (RoomsState {
                open_room: room,
                transcript,
                status: final(self).status,
                ..*old(self)
            }) && final(self).status@ == Seq::<char>::empty(),
    {
        if generation != self.generation {
            return false;
        }
        self.open_room = room;
        self.transcript = transcript;
        self.status = String::new();
        true
    }

    /// The open room is closed, and what was asked for it is out of date.
    pub fn close_room(&mut self)
        ensures
            *final(self) == (RoomsState {
                generation: next_generation(old(self).generation),
                open_key: None,
                open_room: None,
                transcript: final(self).transcript,
                ..*old(self)
            }),
            final(self).transcript@ == Seq::<RoomMessage>::empty(),
    {
        self.generation = self.generation.wrapping_add(1);
        self.open_key = None;
        self.open_room = None;
        self.transcript = Vec::new();
    }

    /// More was said in a room. Where that room is the open one, what is new is added;
    /// tells whether anything was.
    pub fn append_transcript_tail(&mut self, key: &str, tail: Vec<RoomMessage>) -> (r: bool)
        ensures
            opt_chars(old(self).open_key) != Some(key@) ==> !r && *final(self) == *old(self),
            opt_chars(old(self).open_key) == Some(key@) ==> {
                &&& *final(self) == (RoomsState { transcript: final(self).transcript, ..*old(self) })
                &&& final(self).transcript@ == with_tail(old(self).transcript@, tail@)
                &&& r == (final(self).transcript@.len() > old(self).transcript@.len())
            },
    {
        let is_open: bool = match &self.open_key {
            Some(open) => str_eq(open.as_str(), key),
            None => false,
        };
        if !is_open {
            return false;
        }
        let ghost start = self.transcript@;
        let ghost all = tail@;
        let mut appended: bool = false;
        assert(all.take(0) =~= Seq::empty());
        for message in it: tail
            invariant
                it.seq() == all,
                self.transcript@ == with_tail(start, all.take(it.index() as int)),
                *self == (RoomsState { transcript: self.transcript, ..*old(self) }),
                start == old(self).transcript@,
                self.transcript@.len() >= start.len(),
                appended == (self.transcript@.len() > start.len()),
        {
            let ghost i = it.index() as int;
            assert(all.take(i + 1).drop_last() =~= all.take(i));
            assert(all.take(i + 1).last() == message);
            if self.highest_seq() < message.seq {
                self.transcript.push(message);
                appended = true;
            }
        }
        assert(all.take(all.len() as int) =~= all);
        appended
    }

    /// The open room changed.
    pub fn set_open_room(&mut self, room: Option<Room>)
        ensures
            *final(self) == (RoomsState { open_room: room, ..*old(self) }),
    {
        self.open_room = room;
    }

    /// What stands above the panel.
    #[must_use]
    pub fn header_title(&self) -> (r: String)
        ensures
            r@ == match self.open_room {
                Some(room) => room.name@,
                None => "Rooms"@,
            },
    {
        match &self.open_room {
            Some(room) => room.name.clone(),
            None => copy_str("Rooms"),
        }
    }
}

/// Whether a character is an ASCII letter or digit.
pub open spec fn alphanumeric_ascii(c: char) -> bool {
    ||| 'a' <= c <= 'z'
    ||| 'A' <= c <= 'Z'
    ||| '0' <= c <= '9'
}

/// A slug after one more character of the name: letters and digits count, and all that
/// stands between them is one dash.
pub open spec fn slug_with(slug: Seq<char>, c: char) -> Seq<char> {
    if alphanumeric_ascii(c) {
        slug.push(ascii_lower(c))
    } else if slug.len() > 0 && slug.last() != '-' {
        slug.push('-')
    } else {
        slug
    }
}

/// The slug of a name, with a dash at the end where the name does not end in a letter or
/// digit.
pub open spec fn open_slug(name: Seq<char>) -> Seq<char>
    decreases name.len(),
{
    if name.len() == 0 {
        Seq::empty()
    } else {
        slug_with(open_slug(name.drop_last()), name.last())
    }
}

/// A slug without the dash at its end.
pub open spec fn closed_slug(slug: Seq<char>) -> Seq<char> {
    if slug.len() > 0 && slug.last() == '-' {
        slug.drop_last()
    } else {
        slug
    }
}

/// The slug of a name: its letters and digits in lower case, with one dash between
/// those that something else stands between.
pub open spec fn slug(name: Seq<char>) -> Seq<char> {
    closed_slug(open_slug(name))
}

/// The key that a room's name gives.
#[must_use]
pub fn slugify(name: &str) -> (r: String)
    ensures
        r@ == slug(name@),
{
    let chars = chars_of(name);
    let mut out: Vec<char> = Vec::new();
    let mut i: usize = 0;
    assert(name@.take(0) =~= Seq::empty());
    while i < chars.len()
        invariant
            chars@ == name@,
            i <= chars.len(),
            out@ == open_slug(name@.take(i as int)),
        decreases chars.len() - i,
    {
        let c = chars[i];
        assert(name@.take(i + 1).drop_last() =~= name@.take(i as int));
        assert(name@.take(i + 1).last() == c);
        if ('a' <= c && c <= 'z') || ('A' <= c && c <= 'Z') || ('0' <= c && c <= '9') {
            out.push(lower_char(c));
        } else if out.len() > 0 && out[out.len() - 1] != '-' {
            out.push('-');
        }
        i += 1;
    }
    assert(name@.take(i as int) =~= name@);
    let n: usize = out.len();
    let end: usize = if n > 0 && out[n - 1] == '-' {
        n - 1
    } else {
        n
    };
    assert(out@.subrange(0, end as int) =~= slug(name@));
    string_of_range(&out, 0, end)
}

/// The part of a text before the first point.
pub open spec fn before_point(s: Seq<char>) -> Seq<char>
    decreases s.len(),
{
    if s.len() == 0 || s[0] == '.' {
        Seq::empty()
    } else {
        seq![s[0]] + before_point(s.drop_first())
    }
}

/// A time stamp to the minute: the first sixteen characters before the point, with a
/// space for the letter between date and time.
pub open spec fn to_the_minute(ts: Seq<char>) -> Seq<char> {
    let stamp = before_point(ts);
    let n = if stamp.len() > 16 {
        16
    } else {
        stamp.len() as int
    };
    Seq::new(
        n as nat,
        |i: int|
            if stamp[i] == 'T' {
                ' '
            } else {
                stamp[i]
            },
    )
}

proof fn lemma_before_point(s: Seq<char>, n: int)
    requires
        0 <= n <= s.len(),
        forall|i: int| 0 <= i < n ==> s[i] != '.',
        n == s.len() || s[n] == '.',
    ensures
        before_point(s) == s.take(n),
    decreases s.len(),
{
    if n > 0 {
        let rest = s.drop_first();
        assert forall|i: int| 0 <= i < n - 1 implies rest[i] != '.' by {
            assert(s[i + 1] != '.');
        }
        lemma_before_point(rest, n - 1);
        assert(seq![s[0]] + rest.take(n - 1) =~= s.take(n));
    } else {
        assert(s.take(0) =~= Seq::empty());
    }
}

/// A time stamp, shortened to the minute.
#[must_use]
pub fn short_time(ts: &str) -> (r: String)
    ensures
        r@ == to_the_minute(ts@),
{
    let chars = chars_of(ts);
    let mut end: usize = 0;
    while end < chars.len() && chars[end] != '.'
        invariant
            chars@ == ts@,
            end <= chars.len(),
            forall|i: int| 0 <= i < end ==> ts@[i] != '.',
        decreases chars.len() - end,
    {
        end += 1;
    }
    proof {
        lemma_before_point(ts@, end as int);
    }
    let n: usize = if end > 16 {
        16
    } else {
        end
    };
    let mut out = String::new();
    let mut i: usize = 0;
    while i < n
        invariant
            chars@ == ts@,
            i <= n <= end <= chars.len(),
            before_point(ts@) == ts@.take(end as int),
            n == (if end > 16 {
                16
            } else {
                end as int
            }),
            out@ == to_the_minute(ts@).take(i as int),
        decreases n - i,
    {
        let c = chars[i];
        let ghost before = out@;
        if c == 'T' {
            out.push(' ');
        } else {
            out.push(c);
        }
        assert(out@ =~= to_the_minute(ts@).take(i + 1));
        i += 1;
    }
    assert(out@ =~= to_the_minute(ts@));
    out
}

/// How many participants there are, in words.
#[must_use]
pub fn participant_count_label(count: usize) -> (r: String)
    ensures
        r@ == if count == 1 {
            "1 participant"@
        } else {
            decimal(count as nat) + " participants"@
        },
{
    if count == 1 {
        copy_str("1 participant")
    } else {
        let number = decimal_usize(count);
        concat2(number.as_str(), " participants")
    }
}

/// Who said something: the mark of what they are and their id.
#[must_use]
pub fn author_label(author_id: &str, kind: RoomParticipantKind) -> (r: String)
    ensures
        r@ == glyph_of(kind) + " "@ + author_id@,
{
    concat3(kind.glyph(), " ", author_id)
}

/// Whether the numbers of a transcript ascend.
pub open spec fn ascending(transcript: Seq<RoomMessage>) -> bool {
    forall|i: int, j: int|
        0 <= i < j < transcript.len() ==> transcript[i].seq < transcript[j].seq
}

/// A transcript whose numbers ascend keeps doing so, and what it held stays in front.
pub proof fn law_transcript_stays_in_order(transcript: Seq<RoomMessage>, tail: Seq<RoomMessage>)
    requires
        ascending(transcript),
    ensures
        ascending(with_tail(transcript, tail)),
        transcript.is_prefix_of(with_tail(transcript, tail)),
    decreases tail.len(),
{
    if tail.len() > 0 {
        law_transcript_stays_in_order(transcript, tail.drop_last());
        let before = with_tail(transcript, tail.drop_last());
        if highest(before) < tail.last().seq {
            let after = before.push(tail.last());
            assert forall|i: int, j: int| 0 <= i < j < after.len() implies after[i].seq
                < after[j].seq by {
                if j == before.len() && i < before.len() - 1 {
                    assert(before[i].seq < before[before.len() - 1].seq);
                }
            }
        }
    }
}

proof fn lemma_tail_reaches(transcript: Seq<RoomMessage>, tail: Seq<RoomMessage>)
    ensures
        highest(transcript) <= highest(with_tail(transcript, tail)),
        forall|i: int|
            0 <= i < tail.len() ==> (#[trigger] tail[i]).seq <= highest(
                with_tail(transcript, tail),
            ),
    decreases tail.len(),
{
    if tail.len() > 0 {
        lemma_tail_reaches(transcript, tail.drop_last());
        assert forall|i: int| 0 <= i < tail.len() implies (#[trigger] tail[i]).seq <= highest(
            with_tail(transcript, tail),
        ) by {
            if i < tail.len() - 1 {
                assert(tail.drop_last()[i] == tail[i]);
            }
        }
    }
}

proof fn lemma_old_tail_adds_nothing(transcript: Seq<RoomMessage>, tail: Seq<RoomMessage>)
    requires
        forall|i: int| 0 <= i < tail.len() ==> (#[trigger] tail[i]).seq <= highest(transcript),
    ensures
        with_tail(transcript, tail) == transcript,
    decreases tail.len(),
{
    if tail.len() > 0 {
        assert forall|i: int| 0 <= i < tail.drop_last().len() implies (
        #[trigger] tail.drop_last()[i]).seq <= highest(transcript) by {
            assert(tail[i].seq <= highest(transcript));
        }
        lemma_old_tail_adds_nothing(transcript, tail.drop_last());
    }
}

/// What is already there is not added again: a tail that comes twice counts once.
pub proof fn law_tail_counts_once(transcript: Seq<RoomMessage>, tail: Seq<RoomMessage>)
    ensures
        with_tail(with_tail(transcript, tail), tail) == with_tail(transcript, tail),
{
    lemma_tail_reaches(transcript, tail);
    lemma_old_tail_adds_nothing(with_tail(transcript, tail), tail);
}

/// Whether a text is letters, digits and single dashes, and starts with no dash.
pub open spec fn is_open_slug(s: Seq<char>) -> bool {
    &&& forall|i: int|
        0 <= i < s.len() ==> {
            let c = #[trigger] s[i];
            'a' <= c <= 'z' || '0' <= c <= '9' || c == '-'
        }
    &&& forall|i: int| 0 < i < s.len() && #[trigger] s[i] == '-' ==> s[i - 1] != '-'
    &&& s.len() > 0 ==> s[0] != '-'
}

proof fn lemma_open_slug(name: Seq<char>)
    ensures
        is_open_slug(open_slug(name)),
    decreases name.len(),
{
    if name.len() > 0 {
        lemma_open_slug(name.drop_last());
    }
}

/// A slug is made of lower-case letters, digits and dashes; no dash starts it, ends it
/// or follows another.
pub proof fn law_slug_is_safe(name: Seq<char>)
    ensures
        is_open_slug(slug(name)),
        slug(name).len() > 0 ==> slug(name).last() != '-',
{
    lemma_open_slug(name);
    let s = open_slug(name);
    if s.len() > 0 && s.last() == '-' {
        assert(s[s.len() - 1] == '-');
        assert(s[s.len() - 2] != '-');
    }
}

proof fn lemma_open_slug_of_slug(s: Seq<char>)
    requires
        is_open_slug(s),
    ensures
        open_slug(s) == s,
    decreases s.len(),
{
    if s.len() > 0 {
        let init = s.drop_last();
        assert forall|i: int| 0 < i < init.len() && #[trigger] init[i] == '-' implies init[i - 1]
            != '-' by {
            assert(s[i] == '-');
        }
        assert forall|i: int| 0 <= i < init.len() implies ({
            let c = #[trigger] init[i];
            'a' <= c <= 'z' || '0' <= c <= '9' || c == '-'
        }) by {
            assert(init[i] == s[i]);
        }
        lemma_open_slug_of_slug(init);
        let c = s[s.len() - 1];
        assert(s =~= init.push(c));
    }
}

/// The slug of a slug is itself: a key names the same room again.
pub proof fn law_slug_of_slug(name: Seq<char>)
    ensures
        slug(slug(name)) == slug(name),
{
    law_slug_is_safe(name);
    lemma_open_slug_of_slug(slug(name));
}

proof fn lemma_generation_after(generation: u64, changes: nat)
    ensures
        generation_after(generation, changes) == (generation + changes) % 0x1_0000_0000_0000_0000,
    decreases changes,
{
    if changes > 0 {
        lemma_generation_after(generation, (changes - 1) as nat);
    }
}

/// An answer to what was asked before another room was chosen or the room was closed is out
/// of date: its generation is not the one that counts, however often the rooms change short
/// of as many times as there are generations.
pub proof fn law_late_answers_are_dropped(generation: u64, changes: nat)
    requires
        0 < changes < 0x1_0000_0000_0000_0000,
    ensures
        generation_after(generation, changes) != generation,
{
    lemma_generation_after(generation, changes);
}

/// The letters and digits of a text, in small letters.
pub open spec fn letters_of(s: Seq<char>) -> Seq<char>
    decreases s.len(),
{
    if s.len() == 0 {
        Seq::empty()
    } else {
        let c = s.last();
        if 'a' <= c <= 'z' || '0' <= c <= '9' {
            letters_of(s.drop_last()).push(c)
        } else if 'A' <= c <= 'Z' {
            letters_of(s.drop_last()).push((c as u32 + 32) as char)
        } else {
            letters_of(s.drop_last())
        }
    }
}

proof fn lemma_open_slug_letters(name: Seq<char>)
    ensures
        letters_of(open_slug(name)) == letters_of(name),
    decreases name.len(),
{
    if name.len() > 0 {
        let before = open_slug(name.drop_last());
        lemma_open_slug_letters(name.drop_last());
        let after = open_slug(name);
        if after.len() > before.len() {
            assert(after.drop_last() =~= before);
        }
    }
}

/// A slug has all letters and digits of the name, in order and in small letters, and no
/// others.
pub proof fn law_slug_keeps_the_letters(name: Seq<char>)
    ensures
        letters_of(slug(name)) == letters_of(name),
{
    lemma_open_slug_letters(name);
    let s = open_slug(name);
    if s.len() > 0 && s.last() == '-' {
        assert(letters_of(s) == letters_of(s.drop_last()));
    }
}

proof fn lemma_slug_behind(front: Seq<char>, c: char, name: Seq<char>)
    requires
        !('a' <= c <= 'z'),
        !('A' <= c <= 'Z'),
        !('0' <= c <= '9'),
        slug(front).len() > 0,
    ensures
        open_slug(front.push(c) + name) == slug(front).push('-') + open_slug(name),
    decreases name.len(),
{
    let head = front.push(c);
    if name.len() == 0 {
        assert(head + name =~= head);
        assert(head.drop_last() =~= front);
        let s = open_slug(front);
        law_slug_is_safe(front);
        if s.last() == '-' {
            assert(s =~= slug(front).push('-'));
        }
        assert(open_slug(head) =~= slug(front).push('-'));
        assert(slug(front).push('-') + open_slug(name) =~= slug(front).push('-'));
    } else {
        lemma_slug_behind(front, c, name.drop_last());
        assert((head + name).drop_last() =~= head + name.drop_last());
        assert((head + name).last() == name.last());
        let before = open_slug(name.drop_last());
        let joined = slug(front).push('-') + before;
        if before.len() == 0 {
            assert(joined.last() == '-');
            assert(joined =~= slug(front).push('-'));
        } else {
            assert(joined.last() == before.last());
        }
        assert(slug_with(joined, name.last()) =~= slug(front).push('-') + slug_with(
            before,
            name.last(),
        ));
    }
}

/// What parts two words of a name is a dash between them in its slug.
pub proof fn law_words_of_a_slug_are_parted_by_a_dash(
    front: Seq<char>,
    c: char,
    name: Seq<char>,
)
    requires
        !('a' <= c <= 'z'),
        !('A' <= c <= 'Z'),
        !('0' <= c <= '9'),
        slug(front).len() > 0,
        slug(name).len() > 0,
    ensures
        slug(front.push(c) + name) == slug(front).push('-') + slug(name),
{
    lemma_slug_behind(front, c, name);
    let all = open_slug(front.push(c) + name);
    let rest = open_slug(name);
    assert(all.last() == rest.last());
    assert(closed_slug(all) =~= slug(front).push('-') + closed_slug(rest));
}

/// A time stamp is shown up to its minute or to the point in it: its first characters, sixteen
/// at most, with a space for the letter between date and time.
pub proof fn law_time_is_shown_to_the_minute(ts: Seq<char>, i: int)
    ensures
        ({
            let shown = to_the_minute(ts);
            &&& shown.len() <= 16
            &&& shown.len() <= ts.len()
            &&& 0 <= i < shown.len() ==> ts[i] != '.' && (ts[i] == 'T' ==> shown[i] == ' ') && (
            ts[i] != 'T' ==> shown[i] == ts[i])
            &&& shown.len() < 16 && shown.len() < ts.len() ==> ts[shown.len() as int] == '.'
        }),
{
    lemma_stamp(ts);
}

proof fn lemma_stamp(s: Seq<char>)
    ensures
        before_point(s).len() <= s.len(),
        before_point(s) == s.take(before_point(s).len() as int),
        forall|i: int| 0 <= i < before_point(s).len() ==> #[trigger] s[i] != '.',
        before_point(s).len() < s.len() ==> s[before_point(s).len() as int] == '.',
    decreases s.len(),
{
    if s.len() > 0 && s[0] != '.' {
        let rest = s.drop_first();
        lemma_stamp(rest);
        let n = before_point(s).len() as int;
        assert(before_point(s) =~= s.take(n));
        assert forall|i: int| 0 <= i < n implies #[trigger] s[i] != '.' by {
            if i > 0 {
                assert(rest[i - 1] == s[i]);
            }
        }
    } else {
        assert(s.take(0) =~= Seq::empty());
    }
}

/// What a digit of a number to the base of sixteen stands for.
pub open spec fn digit_value(c: char) -> int {
    if '0' <= c <= '9' {
        c as int - 48
    } else {
        c as int - 87
    }
}

/// The number that is written to the base of sixteen.
pub open spec fn number_of(s: Seq<char>) -> int
    decreases s.len(),
{
    if s.len() == 0 {
        0
    } else {
        number_of(s.drop_last()) * 16 + digit_value(s.last())
    }
}

/// A number that is written to the base of sixteen reads as itself, in digits and small
/// letters.
pub proof fn law_hex_reads_as_its_number(n: nat)
    ensures
        number_of(hex(n)) == n,
        hex(n).len() > 0,
        forall|i: int|
            0 <= i < hex(n).len() ==> ('0' <= #[trigger] hex(n)[i] <= '9' || 'a' <= hex(n)[i]
                <= 'f'),
    decreases n,
{
    if n < 16 {
        let s = hex(n);
        assert(s.drop_last() =~= Seq::empty());
        assert(number_of(s.drop_last()) == 0);
    } else {
        law_hex_reads_as_its_number(n / 16);
        let s = hex(n);
        assert(s.drop_last() =~= hex(n / 16));
        assert forall|i: int| 0 <= i < s.len() implies ('0' <= #[trigger] s[i] <= '9' || 'a'
            <= s[i] <= 'f') by {
            if i < s.len() - 1 {
                assert(s[i] == hex(n / 16)[i]);
            }
        }
    }
}

/// New messages are all taken, in order, behind what is there.
pub proof fn law_new_messages_are_all_taken(transcript: Seq<RoomMessage>, tail: Seq<RoomMessage>)
    requires
        ascending(tail),
        tail.len() > 0 ==> highest(transcript) < tail[0].seq,
    ensures
        with_tail(transcript, tail) == transcript + tail,
    decreases tail.len(),
{
    if tail.len() > 0 {
        let front = tail.drop_last();
        assert forall|i: int, j: int| 0 <= i < j < front.len() implies front[i].seq
            < front[j].seq by {
            assert(tail[i].seq < tail[j].seq);
        }
        law_new_messages_are_all_taken(transcript, front);
        if front.len() > 0 {
            assert((transcript + front).last() == tail[tail.len() - 2]);
            assert(tail[tail.len() - 2].seq < tail[tail.len() - 1].seq);
        } else {
            assert(transcript + front =~= transcript);
        }
        assert((transcript + front).push(tail.last()) =~= transcript + tail);
    } else {
        assert(transcript + tail =~= transcript);
    }
}

/// Messages that are there already, or older, are left out.
pub proof fn law_old_messages_are_left_out(transcript: Seq<RoomMessage>, tail: Seq<RoomMessage>)
    requires
        forall|i: int| 0 <= i < tail.len() ==> (#[trigger] tail[i]).seq <= highest(transcript),
    ensures
        with_tail(transcript, tail) == transcript,
{
    lemma_old_tail_adds_nothing(transcript, tail);
}

/// An identity that was minted is a mark and a number to the base of sixteen. A clock that
/// cannot be read counts as zero.
pub proof fn law_minted_identity_is_marked(nanos: u64, i: int)
    ensures
        "gpui-"@.is_prefix_of(minted_id(nanos)),
        5 <= i < minted_id(nanos).len() ==> '0' <= minted_id(nanos)[i] <= '9' || 'a' <= minted_id(
            nanos,
        )[i] <= 'f',
        minted_id(nanos).len() > 5,
        clock_bits(None) == 0,
        clock_bits(Some(nanos as u128)) == nanos,
{
    reveal_strlit("gpui-");
    let n = (nanos.wrapping_mul(0x9E37_79B9_7F4A_7C15) >> 24) as nat;
    law_hex_reads_as_its_number(n);
    if 5 <= i < minted_id(nanos).len() {
        assert(minted_id(nanos)[i] == hex(n)[i - 5]);
    }
}

} // verus!
