//! Keeping a canvas on disk: where its files are, in which order they are written so
//! that nothing is lost, and how a ledger is put together again from them.

use vstd::prelude::*;

use crate::paths::join;
use crate::shell::canvas::ledger::{CanvasLedger, CanvasMode, Placement};
use crate::shell::canvas::patch::{CanvasId, ComponentId, LamportClock, SurfacePatchEnvelope};
use crate::text::{chars_of, concat2, parse_u64};

verus! {

broadcast use vstd::string::group_string_axioms;

use crate::paths::joined_path;
use crate::shell::canvas::ledger::{
    changed, fresh_ledger, law_replay_matches_local_apply, ledger_wf, lemma_changed_wf,
    lemma_recorded_wf, local_envelope, locally_applied, loses, patch_id_of, remotely_applied,
    touched_by, LedgerView,
};
use crate::shell::canvas::patch::{id_views, is_max_rev, ActorView, EnvelopeView, PatchView, Rect};
use crate::text::{decimal, is_digit, lemma_decimal_round_trip, parsed_u64};

/// How many patches lie between two snapshots.
pub const SNAPSHOT_EVERY_N_PATCHES: u64 = 16;

/// Where the files of one canvas are.
#[derive(Debug, PartialEq, Eq)]
pub struct CanvasStore {
    canvas_dir: String,
    canvas_id_file_stem: String,
}

/// Whether a character may stand in a file name here.
pub open spec fn safe_char(c: char) -> bool {
    ||| 'a' <= c <= 'z'
    ||| 'A' <= c <= 'Z'
    ||| '0' <= c <= '9'
    ||| c == '-' || c == '_' || c == '.'
}

/// An id as one part of a path: every other character gives way to `_`, and so does
/// the empty id.
pub open spec fn sanitized(s: Seq<char>) -> Seq<char> {
    if s.len() == 0 {
        seq!['_']
    } else {
        Seq::new(
            s.len(),
            |i: int|
                if safe_char(s[i]) {
                    s[i]
                } else {
                    '_'
                },
        )
    }
}

/// Makes an id fit for one part of a path.
pub fn sanitize_segment(s: &str) -> (r: String)
    ensures
        r@ == sanitized(s@),
{
    let chars = chars_of(s);
    let mut r = String::new();
    if chars.len() == 0 {
        r.push('_');
        assert(r@ =~= seq!['_']);
        return r;
    }
    let mut i: usize = 0;
    while i < chars.len()
        invariant
            i <= chars@.len(),
            chars@ == s@,
            chars@.len() > 0,
            r@ =~= sanitized(s@).take(i as int),
        decreases chars@.len() - i,
    {
        let c = chars[i];
        if (c >= 'a' && c <= 'z') || (c >= 'A' && c <= 'Z') || (c >= '0' && c <= '9') || c == '-'
            || c == '_' || c == '.' {
            r.push(c);
        } else {
            r.push('_');
        }
        i = i + 1;
    }
    assert(sanitized(s@).take(s@.len() as int) =~= sanitized(s@));
    r
}

impl CanvasStore {
    /// The directory of the canvas files.
    pub closed spec fn dir(self) -> Seq<char> {
        self.canvas_dir@
    }

    /// The name of the canvas files without their endings.
    pub closed spec fn stem(self) -> Seq<char> {
        self.canvas_id_file_stem@
    }

    /// The store of a canvas under a directory.
    pub fn with_root(root: &str, session_id: &str, canvas_id: &CanvasId) -> (r: Self)
        ensures
            r.dir() == joined_path(
                joined_path(joined_path(root@, "surfaces"@), sanitized(session_id@)),
                "canvas"@,
            ),
            r.stem() == sanitized(canvas_id@),
    {
        let surfaces = join(root, "surfaces");
        let session = join(surfaces.as_str(), sanitize_segment(session_id).as_str());
        CanvasStore {
            canvas_dir: join(session.as_str(), "canvas"),
            canvas_id_file_stem: sanitize_segment(canvas_id.as_str()),
        }
    }

    /// The store of a canvas under the `.ocean` directory of a home directory, where
    /// there is one.
    pub fn for_session(home: Option<&str>, session_id: &str, canvas_id: &CanvasId) -> (r: Option<
        Self,
    >)
        ensures
            r is Some <==> home is Some && home->0@.len() > 0,
            r matches Some(store) ==> {
                &&& store.dir() == joined_path(
                    joined_path(
                        joined_path(joined_path(home->0@, ".ocean"@), "surfaces"@),
                        sanitized(session_id@),
                    ),
                    "canvas"@,
                )
                &&& store.stem() == sanitized(canvas_id@)
            },
    {
        match home {
            Some(home) => if home.is_empty() {
                None
            } else {
                let root = join(home, ".ocean");
                Some(CanvasStore::with_root(root.as_str(), session_id, canvas_id))
            },
            None => None,
        }
    }

    /// The directory of the canvas files.
    pub fn canvas_dir(&self) -> (r: &str)
        ensures
            r@ == self.dir(),
    {
        self.canvas_dir.as_str()
    }

    /// The file of the snapshot.
    pub fn snapshot_path(&self) -> (r: String)
        ensures
            r@ == joined_path(self.dir(), self.stem() + ".json"@),
    {
        join(
            self.canvas_dir.as_str(),
            concat2(self.canvas_id_file_stem.as_str(), ".json").as_str(),
        )
    }

    /// The file of the patch log.
    pub fn patch_log_path(&self) -> (r: String)
        ensures
            r@ == joined_path(self.dir(), self.stem() + ".patches.jsonl"@),
    {
        join(
            self.canvas_dir.as_str(),
            concat2(self.canvas_id_file_stem.as_str(), ".patches.jsonl").as_str(),
        )
    }
}

/// One step of writing a canvas to disk.
#[derive(Clone, Copy, Debug, PartialEq, Eq, Structural)]
pub enum PersistStep {
    /// Add the new patches to the log.
    Append,
    /// Write the whole ledger as the snapshot.
    Snapshot,
    /// Empty the log.
    Truncate,
}

/// Whether a revision is one to take a snapshot at.
pub open spec fn at_boundary(revision: u64) -> bool {
    revision > 0 && revision % SNAPSHOT_EVERY_N_PATCHES == 0
}

/// The steps of writing a canvas to disk. At a boundary the log takes the patches
/// first, then comes the snapshot, and only then is the log emptied. Between
/// boundaries there is a snapshot only where there was none.
pub open spec fn persist_steps(revision: u64, snapshot_exists: bool) -> Seq<PersistStep> {
    if at_boundary(revision) {
        seq![PersistStep::Append, PersistStep::Snapshot, PersistStep::Truncate]
    } else if snapshot_exists {
        seq![PersistStep::Append]
    } else {
        seq![PersistStep::Append, PersistStep::Snapshot]
    }
}

/// The steps to take, in order, after the ledger reached a revision.
pub fn persist_plan(revision: u64, snapshot_exists: bool) -> (r: Vec<PersistStep>)
    ensures
        r@ == persist_steps(revision, snapshot_exists),
{
    let mut r: Vec<PersistStep> = Vec::new();
    r.push(PersistStep::Append);
    if revision > 0 && revision % SNAPSHOT_EVERY_N_PATCHES == 0 {
        r.push(PersistStep::Snapshot);
        r.push(PersistStep::Truncate);
    } else if !snapshot_exists {
        r.push(PersistStep::Snapshot);
    }
    assert(r@ =~= persist_steps(revision, snapshot_exists));
    r
}

/// What stands behind the last `@` of a text.
pub open spec fn after_last_at(s: Seq<char>) -> Option<Seq<char>>
    decreases s.len(),
{
    if s.len() == 0 {
        None
    } else if s.last() == '@' {
        Some(Seq::empty())
    } else {
        match after_last_at(s.drop_last()) {
            Some(t) => Some(t.push(s.last())),
            None => None,
        }
    }
}

/// The revision that a patch id names.
pub open spec fn revision_named(patch_id: Seq<char>) -> Option<u64> {
    match after_last_at(patch_id) {
        Some(t) => parsed_u64(t),
        None => None,
    }
}

proof fn lemma_after_last_at(s: Seq<char>, at: int)
    requires
        0 <= at < s.len(),
        s[at] == '@',
        forall|i: int| at < i < s.len() ==> s[i] != '@',
    ensures
        after_last_at(s) == Some(s.skip(at + 1)),
    decreases s.len(),
{
    if at == s.len() - 1 {
        assert(s.skip(at + 1) =~= Seq::empty());
    } else {
        assert(s.last() != '@');
        lemma_after_last_at(s.drop_last(), at);
        assert(s.drop_last().skip(at + 1).push(s.last()) =~= s.skip(at + 1));
    }
}

proof fn lemma_no_at(s: Seq<char>)
    requires
        forall|i: int| 0 <= i < s.len() ==> s[i] != '@',
    ensures
        after_last_at(s) is None,
    decreases s.len(),
{
    if s.len() > 0 {
        assert(s.last() != '@');
        lemma_no_at(s.drop_last());
    }
}

/// The revision that a patch id names: the number behind its last `@`.
pub fn revision_from_patch_id(patch_id: &str) -> (r: Option<u64>)
    ensures
        r == revision_named(patch_id@),
{
    let chars = chars_of(patch_id);
    let mut n: usize = chars.len();
    while n > 0
        invariant
            n <= chars@.len(),
            chars@ == patch_id@,
            forall|i: int| n <= i < chars@.len() ==> chars@[i] != '@',
        decreases n,
    {
        if chars[n - 1] == '@' {
            proof {
                lemma_after_last_at(chars@, n - 1);
            }
            return parse_u64(&chars, n);
        }
        n = n - 1;
    }
    proof {
        lemma_no_at(chars@);
    }
    None
}

/// A patch id names the revision it was made for.
pub proof fn law_patch_id_names_revision(canvas_id: Seq<char>, revision: u64)
    ensures
        revision_named(patch_id_of(canvas_id, revision as nat)) == Some(revision),
{
    let digits = decimal(revision as nat);
    lemma_decimal_round_trip(revision as nat);
    let id = patch_id_of(canvas_id, revision as nat);
    let at = canvas_id.len() as int;
    assert forall|i: int| at < i < id.len() implies id[i] != '@' by {
        assert(id[i] == digits[i - at - 1]);
        assert(is_digit(digits[i - at - 1]));
    }
    lemma_after_last_at(id, at);
    assert(id.skip(at + 1) =~= digits);
}

/// Whether a log entry is already part of a ledger: its id names a revision that the
/// ledger has reached.
pub open spec fn already_in(v: LedgerView, env: EnvelopeView) -> bool {
    revision_named(env.patch_id) matches Some(rev) && rev <= v.revision
}

/// Whether a log entry is still to be replayed onto a ledger.
pub fn is_newer(ledger: &CanvasLedger, env: &SurfacePatchEnvelope) -> (r: bool)
    ensures
        r == !already_in(ledger@, env@),
{
    match revision_from_patch_id(env.patch_id.as_str()) {
        Some(rev) => rev > ledger.revision,
        None => true,
    }
}

/// A ledger after one log entry: skipped where the ledger holds it already, applied
/// with its own version otherwise.
pub open spec fn replayed_one(
    v: LedgerView,
    env: EnvelopeView,
    slot: Rect,
    rects: Seq<Rect>,
) -> LedgerView {
    if already_in(v, env) {
        v
    } else {
        remotely_applied(v, env, slot, rects)
    }
}

/// Replays one log entry.
pub fn replay_entry(
    ledger: &mut CanvasLedger,
    env: SurfacePatchEnvelope,
    placement: &Placement,
) -> (touched: Vec<ComponentId>)
    requires
        old(ledger).wf(),
        old(ledger).revision < u64::MAX,
        old(ledger)@.clock < u64::MAX,
    ensures
        final(ledger).wf(),
        final(ledger)@ == replayed_one(
            old(ledger)@,
            env@,
            placement.slot,
            placement.rects@,
        ),
        id_views(touched@) == if already_in(old(ledger)@, env@) || loses(old(ledger)@, env@) {
            Seq::<Seq<char>>::empty()
        } else {
            touched_by(old(ledger)@, env@.patch, placement.rects@)
        },
{
    if is_newer(ledger, &env) {
        ledger.apply_remote_patch(env, placement)
    } else {
        let touched: Vec<ComponentId> = Vec::new();
        assert(id_views(touched@) =~= Seq::empty());
        touched
    }
}

/// The ledger to start the replay from: the snapshot; without one, an empty ledger
/// for the canvas of the first log entry; nothing where there is neither.
pub fn starting_ledger(snapshot: Option<CanvasLedger>, entries: &Vec<SurfacePatchEnvelope>) -> (r:
    Option<CanvasLedger>)
    ensures
        match snapshot {
            Some(ledger) => r == Some(ledger),
            None => if entries@.len() > 0 {
                &&& r matches Some(ledger)
                &&& ledger.wf()
                &&& ledger@ == fresh_ledger(
                    entries@[0]@.canvas_id,
                    entries@[0]@.session_id,
                    CanvasMode::Freeform,
                )
            } else {
                r is None
            },
        },
{
    match snapshot {
        Some(ledger) => Some(ledger),
        None => if entries.len() > 0 {
            Some(
                CanvasLedger::new(
                    entries[0].canvas_id.as_str(),
                    entries[0].session_id.as_str(),
                    CanvasMode::default(),
                ),
            )
        } else {
            None
        },
    }
}

/// Sets the clock past every version in the ledger.
pub fn seed_clock(ledger: &mut CanvasLedger)
    requires
        old(ledger).components.wf(),
        old(ledger).edges.wf(),
        old(ledger).merge_state.wf(),
    ensures
        final(ledger).components.wf(),
        final(ledger).edges.wf(),
        final(ledger).merge_state.wf(),
        final(ledger)@ == (LedgerView { clock: final(ledger)@.clock, ..old(ledger)@ }),
        final(ledger)@.clock >= old(ledger)@.clock,
        final(ledger)@.clock == old(ledger)@.clock || is_max_rev(
            old(ledger)@.merge_state,
            final(ledger)@.clock,
        ),
        forall|id: Seq<char>| #[trigger]
            old(ledger)@.merge_state.contains_key(id) ==> old(ledger)@.merge_state[id].rev
                <= final(ledger)@.clock,
        old(ledger).wf() ==> final(ledger).wf() && final(ledger)@ == old(ledger)@,
{
    let max: u64 = ledger.merge_state.max_rev();
    let now: u64 = ledger.clock.now();
    let seed: u64 = if max >= now {
        max
    } else {
        now
    };
    proof {
        if ledger.wf() && max > now {
            let id = choose|id: Seq<char>| #[trigger]
                ledger@.merge_state.contains_key(id) && ledger@.merge_state[id].rev == max;
            assert(false);
        }
    }
    ledger.clock = LamportClock::at(seed);
}

/// What came of reading one line of a patch log.
#[derive(Debug, PartialEq, Eq)]
pub enum LogLine {
    /// The line could not be read.
    Unreadable,
    /// The line is white space.
    Blank,
    /// The line is no patch.
    Corrupt,
    /// A patch.
    Entry(SurfacePatchEnvelope),
}

/// The patches among the first `n` lines, in order.
pub open spec fn entries_among(lines: Seq<LogLine>, n: int) -> Seq<SurfacePatchEnvelope>
    decreases n,
{
    if n <= 0 {
        Seq::empty()
    } else {
        match lines[n - 1] {
            LogLine::Entry(env) => entries_among(lines, n - 1).push(env),
            _ => entries_among(lines, n - 1),
        }
    }
}

/// The numbers, from one, of those among the first `n` lines to warn about.
pub open spec fn bad_among(lines: Seq<LogLine>, n: int) -> Seq<usize>
    decreases n,
{
    if n <= 0 {
        Seq::empty()
    } else {
        match lines[n - 1] {
            LogLine::Unreadable => bad_among(lines, n - 1).push(n as usize),
            LogLine::Corrupt => bad_among(lines, n - 1).push(n as usize),
            _ => bad_among(lines, n - 1),
        }
    }
}

/// The patches of a log, and the numbers of the lines to warn about. A bad line costs
/// no more than itself.
pub fn collect_log(lines: Vec<LogLine>) -> (r: (Vec<SurfacePatchEnvelope>, Vec<usize>))
    requires
        lines@.len() < usize::MAX,
    ensures
        r.0@ == entries_among(lines@, lines@.len() as int),
        r.1@ == bad_among(lines@, lines@.len() as int),
{
    let ghost all = lines@;
    let mut entries: Vec<SurfacePatchEnvelope> = Vec::new();
    let mut bad: Vec<usize> = Vec::new();
    let mut n: usize = 0;
    for line in it: lines
        invariant
            it.seq() == all,
            n == it.index(),
            all.len() < usize::MAX,
            entries@ == entries_among(all, n as int),
            bad@ == bad_among(all, n as int),
    {
        n = n + 1;
        match line {
            LogLine::Unreadable => {
                bad.push(n);
            },
            LogLine::Blank => {},
            LogLine::Corrupt => {
                bad.push(n);
            },
            LogLine::Entry(env) => {
                entries.push(env);
            },
        }
    }
    (entries, bad)
}

/// Where the app puts what a patch leaves open, as a function of the ledger and the
/// patch alone.
pub type Placing = spec_fn(LedgerView, PatchView) -> (Rect, Seq<Rect>);

/// A ledger after a list of log entries.
pub open spec fn replayed(v: LedgerView, log: Seq<EnvelopeView>, place: Placing) -> LedgerView
    decreases log.len(),
{
    if log.len() == 0 {
        v
    } else {
        let before = replayed(v, log.drop_last(), place);
        let (slot, rects) = place(before, log.last().patch);
        replayed_one(before, log.last(), slot, rects)
    }
}

/// What is on disk: a snapshot, where one was written, and the log.
pub struct DiskView {
    pub snapshot: Option<LedgerView>,
    pub log: Seq<EnvelopeView>,
}

/// What is on disk after one step of writing.
pub open spec fn stepped(
    disk: DiskView,
    step: PersistStep,
    ledger: LedgerView,
    env: EnvelopeView,
) -> DiskView {
    match step {
        PersistStep::Append => DiskView { log: disk.log.push(env), ..disk },
        PersistStep::Snapshot => DiskView { snapshot: Some(ledger), ..disk },
        PersistStep::Truncate => DiskView { log: Seq::empty(), ..disk },
    }
}

/// What is on disk after the first `n` steps.
pub open spec fn stepped_through(
    disk: DiskView,
    steps: Seq<PersistStep>,
    n: int,
    ledger: LedgerView,
    env: EnvelopeView,
) -> DiskView
    decreases n,
{
    if n <= 0 {
        disk
    } else {
        stepped(stepped_through(disk, steps, n - 1, ledger, env), steps[n - 1], ledger, env)
    }
}

/// Whether every entry of a log names a revision that a ledger has reached.
pub open spec fn log_within(log: Seq<EnvelopeView>, revision: u64) -> bool {
    forall|i: int|
        0 <= i < log.len() ==> (revision_named((#[trigger] log[i]).patch_id) matches Some(rev)
            && rev <= revision)
}

proof fn lemma_replay_of_old_log(v: LedgerView, log: Seq<EnvelopeView>, place: Placing)
    requires
        log_within(log, v.revision),
    ensures
        replayed(v, log, place) == v,
    decreases log.len(),
{
    if log.len() > 0 {
        let init = log.drop_last();
        assert forall|i: int| 0 <= i < init.len() implies (revision_named(
            (#[trigger] init[i]).patch_id,
        ) matches Some(rev) && rev <= v.revision) by {
            assert(init[i] == log[i]);
        }
        lemma_replay_of_old_log(v, init, place);
        assert(revision_named(log[log.len() - 1].patch_id) is Some);
    }
}

/// The ledger that what is on disk leads back to: the snapshot with the log replayed onto
/// it; without a snapshot, the log replayed onto an empty ledger for the canvas of its
/// first entry; nothing where there is neither.
pub open spec fn loaded(disk: DiskView, place: Placing) -> Option<LedgerView> {
    match disk.snapshot {
        Some(snapshot) => Some(replayed(snapshot, disk.log, place)),
        None => if disk.log.len() > 0 {
            Some(
                replayed(
                    fresh_ledger(
                        disk.log[0].canvas_id,
                        disk.log[0].session_id,
                        CanvasMode::Freeform,
                    ),
                    disk.log,
                    place,
                ),
            )
        } else {
            None
        },
    }
}

/// Whether what is on disk stands for a ledger: it leads back to it, or there is nothing on
/// disk and nothing has happened on the canvas.
pub open spec fn stands_for(disk: DiskView, v: LedgerView, place: Placing) -> bool {
    ||| loaded(disk, place) == Some(v)
    ||| disk.snapshot is None && disk.log.len() == 0 && v == fresh_ledger(
        v.canvas_id,
        v.session_id,
        CanvasMode::Freeform,
    )
}

/// A crash loses nothing that was appended: once a new patch is in the log, what is on
/// disk leads back to the ledger with that patch, whichever of the later steps were
/// still taken. So it does from the first patch on, and where the snapshot is lost.
pub proof fn law_no_patch_is_lost(
    disk: DiskView,
    v: LedgerView,
    patch: PatchView,
    actor: ActorView,
    now: i64,
    place: Placing,
    n: int,
)
    requires
        ledger_wf(v),
        v.revision < u64::MAX,
        v.clock < u64::MAX,
        stands_for(disk, v, place),
        log_within(disk.log, v.revision),
        1 <= n <= persist_steps((v.revision + 1) as u64, disk.snapshot is Some).len(),
    ensures
        ({
            let (slot, rects) = place(v, patch);
            let ledger = locally_applied(v, patch, actor, now, slot, rects);
            let env = local_envelope(v, patch, actor, now);
            let steps = persist_steps(ledger.revision, disk.snapshot is Some);
            let after = stepped_through(disk, steps, n, ledger, env);
            &&& loaded(after, place) == Some(ledger)
            &&& log_within(after.log, ledger.revision)
        }),
{
    let (slot, rects) = place(v, patch);
    let ledger = locally_applied(v, patch, actor, now, slot, rects);
    let env = local_envelope(v, patch, actor, now);
    let steps = persist_steps(ledger.revision, disk.snapshot is Some);
    let log = disk.log.push(env);
    law_replay_matches_local_apply(v, patch, actor, now, slot, rects);
    law_patch_id_names_revision(v.canvas_id, (v.revision + 1) as u64);
    assert(log.drop_last() =~= disk.log);
    assert(log.last() == env);
    let start = match disk.snapshot {
        Some(snapshot) => snapshot,
        None => fresh_ledger(log[0].canvas_id, log[0].session_id, CanvasMode::Freeform),
    };
    assert(replayed(start, disk.log, place) == v) by {
        if disk.log.len() > 0 {
            assert(log[0] == disk.log[0]);
        }
    }
    assert(replayed(start, log, place) == ledger);
    assert forall|i: int| 0 <= i < log.len() implies (revision_named(
        (#[trigger] log[i]).patch_id,
    ) matches Some(rev) && rev <= ledger.revision) by {
        if i < disk.log.len() {
            assert(log[i] == disk.log[i]);
        }
    }
    lemma_replay_of_old_log(ledger, log, place);
    reveal_with_fuel(stepped_through, 4);
    assert(stepped_through(disk, steps, 1, ledger, env).log == log);
    assert(replayed(ledger, Seq::empty(), place) == ledger);
}

/// A patch made here, by whom and when.
pub struct ChangeView {
    pub patch: PatchView,
    pub actor: ActorView,
    pub now: i64,
}

/// The ledger after the first `k` of some patches made here.
pub open spec fn after_changes(
    v: LedgerView,
    changes: Seq<ChangeView>,
    k: int,
    place: Placing,
) -> LedgerView
    decreases k,
{
    if k <= 0 {
        v
    } else {
        let before = after_changes(v, changes, k - 1, place);
        let c = changes[k - 1];
        let (slot, rects) = place(before, c.patch);
        locally_applied(before, c.patch, c.actor, c.now, slot, rects)
    }
}

/// What is on disk once the first `k` of some patches made here are in the log.
pub open spec fn appended(
    disk: DiskView,
    v: LedgerView,
    changes: Seq<ChangeView>,
    k: int,
    place: Placing,
) -> DiskView
    decreases k,
{
    if k <= 0 {
        disk
    } else {
        let before = appended(disk, v, changes, k - 1, place);
        let c = changes[k - 1];
        let ledger = after_changes(v, changes, k - 1, place);
        DiskView { log: before.log.push(local_envelope(ledger, c.patch, c.actor, c.now)), ..before }
    }
}

proof fn lemma_changes_count(v: LedgerView, changes: Seq<ChangeView>, k: int, place: Placing)
    requires
        ledger_wf(v),
        0 <= k <= changes.len(),
        v.revision + changes.len() <= u64::MAX,
        v.clock + changes.len() <= u64::MAX,
    ensures
        ({
            let ledger = after_changes(v, changes, k, place);
            &&& ledger_wf(ledger)
            &&& ledger.revision == v.revision + k
            &&& ledger.clock <= v.clock + k
        }),
    decreases k,
{
    if k > 0 {
        lemma_changes_count(v, changes, k - 1, place);
        let before = after_changes(v, changes, k - 1, place);
        let c = changes[k - 1];
        let (slot, rects) = place(before, c.patch);
        lemma_changed_wf(before, c.patch, c.actor, c.now, slot, rects);
        lemma_recorded_wf(
            changed(before, c.patch, c.actor, c.now, slot, rects),
            local_envelope(before, c.patch, c.actor, c.now),
        );
    }
}

/// A crash in the middle of writing several patches loses none of those that were appended:
/// with the first `k` of them in the log, what is on disk leads back to the ledger with those
/// `k`; with all of them, so it does once the snapshot is written, and once the log is
/// emptied after it.
pub proof fn law_no_patch_of_a_batch_is_lost(
    disk: DiskView,
    v: LedgerView,
    changes: Seq<ChangeView>,
    k: int,
    place: Placing,
)
    requires
        ledger_wf(v),
        0 < k <= changes.len(),
        v.revision + changes.len() <= u64::MAX,
        v.clock + changes.len() <= u64::MAX,
        stands_for(disk, v, place),
        log_within(disk.log, v.revision),
    ensures
        ({
            let ledger = after_changes(v, changes, k, place);
            let written = appended(disk, v, changes, k, place);
            let snapped = DiskView { snapshot: Some(ledger), ..written };
            &&& loaded(written, place) == Some(ledger)
            &&& log_within(written.log, ledger.revision)
            &&& loaded(snapped, place) == Some(ledger)
            &&& loaded(DiskView { log: Seq::empty(), ..snapped }, place) == Some(ledger)
        }),
    decreases k,
{
    let before = after_changes(v, changes, k - 1, place);
    let disk_before = appended(disk, v, changes, k - 1, place);
    let c = changes[k - 1];
    lemma_changes_count(v, changes, k - 1, place);
    lemma_changes_count(v, changes, k, place);
    if k > 1 {
        law_no_patch_of_a_batch_is_lost(disk, v, changes, k - 1, place);
    }
    law_no_patch_is_lost(disk_before, before, c.patch, c.actor, c.now, place, 1);
    let ledger = after_changes(v, changes, k, place);
    let written = appended(disk, v, changes, k, place);
    let env = local_envelope(before, c.patch, c.actor, c.now);
    let steps = persist_steps(ledger.revision, disk_before.snapshot is Some);
    reveal_with_fuel(stepped_through, 2);
    assert(steps[0] == PersistStep::Append);
    assert(written == stepped_through(disk_before, steps, 1, ledger, env));
    lemma_replay_of_old_log(ledger, written.log, place);
    assert(replayed(ledger, Seq::empty(), place) == ledger);
}

/// The log never holds more entries than there are patches between two snapshots: it
/// grows by one per patch and starts anew at every boundary.
pub proof fn law_log_stays_short(
    disk: DiskView,
    ledger: LedgerView,
    env: EnvelopeView,
    snapshot_exists: bool,
)
    requires
        ledger.revision > 0,
        disk.log.len() == (ledger.revision - 1) as u64 % SNAPSHOT_EVERY_N_PATCHES,
    ensures
        ({
            let steps = persist_steps(ledger.revision, snapshot_exists);
            let after = stepped_through(disk, steps, steps.len() as int, ledger, env);
            &&& after.log.len() == ledger.revision % SNAPSHOT_EVERY_N_PATCHES
            &&& after.log.len() < SNAPSHOT_EVERY_N_PATCHES
        }),
{
    reveal_with_fuel(stepped_through, 4);
    let steps = persist_steps(ledger.revision, snapshot_exists);
    assert(stepped_through(disk, steps, 1, ledger, env).log == disk.log.push(env));
}

/// A sanitized id is never empty and holds no character that is not safe.
pub proof fn law_sanitized_is_safe(s: Seq<char>)
    ensures
        sanitized(s).len() > 0,
        forall|i: int| 0 <= i < sanitized(s).len() ==> safe_char(#[trigger] sanitized(s)[i]),
{
}

/// An id keeps its letters, digits, dashes, underscores and dots in a file name, each in its
/// place; every other character is an underscore there.
pub proof fn law_safe_characters_stay_in_place(s: Seq<char>, i: int)
    requires
        0 <= i < s.len(),
    ensures
        sanitized(s).len() == s.len(),
        'a' <= s[i] <= 'z' || 'A' <= s[i] <= 'Z' || '0' <= s[i] <= '9' ==> sanitized(s)[i] == s[i],
        s[i] == '-' || s[i] == '_' || s[i] == '.' ==> sanitized(s)[i] == s[i],
        s[i] == '/' || s[i] == '\\' || s[i] == ' ' || s[i] == '~' || s[i] == ':' ==> sanitized(s)[i]
            == '_',
        sanitized(s)[i] == s[i] || sanitized(s)[i] == '_',
        sanitized(sanitized(s)) == sanitized(s),
{
    assert(sanitized(sanitized(s)) =~= sanitized(s));
}

/// Every patch of a log is taken, behind those that stand before it; nothing else is.
pub proof fn law_every_patch_of_the_log_is_taken(lines: Seq<LogLine>, i: int)
    requires
        0 <= i < lines.len(),
    ensures
        ({
            let before = entries_among(lines, i);
            let all = entries_among(lines, lines.len() as int);
            &&& before.is_prefix_of(all)
            &&& lines[i] matches LogLine::Entry(env) ==> before.len() < all.len()
                && all[before.len() as int] == env
            &&& lines[i] !is Entry ==> entries_among(lines, i + 1) == before
            &&& entries_among(lines, 0).len() == 0
        }),
{
    lemma_entries_grow(lines, i, lines.len() as int);
    lemma_entries_grow(lines, i + 1, lines.len() as int);
    let before = entries_among(lines, i);
    let with = entries_among(lines, i + 1);
    let all = entries_among(lines, lines.len() as int);
    if with.len() > before.len() {
        assert(with == before.push(with.last()));
        assert(with[before.len() as int] == all.subrange(0, with.len() as int)[before.len() as int]);
    }
}

proof fn lemma_entries_grow(lines: Seq<LogLine>, i: int, n: int)
    requires
        0 <= i <= n <= lines.len(),
    ensures
        entries_among(lines, i).is_prefix_of(entries_among(lines, n)),
    decreases n,
{
    if i < n {
        lemma_entries_grow(lines, i, n - 1);
    }
}

/// Warnings name just the lines that could not be read or are no patch, counted from one.
pub proof fn law_warnings_name_the_bad_lines(lines: Seq<LogLine>, n: int, number: usize)
    requires
        0 <= n <= lines.len(),
        n < usize::MAX,
    ensures
        bad_among(lines, n).contains(number) <==> 1 <= number <= n && (lines[number - 1]
            is Unreadable || lines[number - 1] is Corrupt),
    decreases n,
{
    if n > 0 {
        law_warnings_name_the_bad_lines(lines, n - 1, number);
        let before = bad_among(lines, n - 1);
        let all = bad_among(lines, n);
        if lines[n - 1] is Unreadable || lines[n - 1] is Corrupt {
            assert(all == before.push(n as usize));
            if before.contains(number) {
                let k = choose|k: int| 0 <= k < before.len() && before[k] == number;
                assert(all[k] == number);
            }
            if number == n {
                assert(all[before.len() as int] == number);
            }
            if all.contains(number) {
                let k = choose|k: int| 0 <= k < all.len() && all[k] == number;
                if k < before.len() {
                    assert(before[k] == number);
                }
            }
        }
    }
}

/// Patches are always appended first. The log is emptied after every sixteenth patch, and only
/// behind a snapshot; a first snapshot is written whenever there is none.
pub proof fn law_log_is_emptied_behind_a_snapshot(revision: u64, snapshot_exists: bool)
    ensures
        ({
            let steps = persist_steps(revision, snapshot_exists);
            let empties = exists|i: int| 0 <= i < steps.len() && #[trigger] steps[i] is Truncate;
            let snaps = exists|i: int| 0 <= i < steps.len() && #[trigger] steps[i] is Snapshot;
            &&& steps.len() > 0 && steps[0] is Append
            &&& forall|i: int| 0 < i < steps.len() ==> !(#[trigger] steps[i] is Append)
            &&& empties <==> revision > 0 && revision % 16 == 0
            &&& snaps <==> !snapshot_exists || revision > 0 && revision % 16 == 0
            &&& forall|i: int|
                0 <= i < steps.len() && #[trigger] steps[i] is Truncate ==> i > 0 && steps[i - 1]
                    is Snapshot
        }),
{
    let steps = persist_steps(revision, snapshot_exists);
    if revision > 0 && revision % 16 == 0 {
        assert(steps[1] is Snapshot);
        assert(steps[2] is Truncate);
    } else if !snapshot_exists {
        assert(steps[1] is Snapshot);
    }
}

/// A log entry is skipped just where its id names a revision that the ledger has reached;
/// every other entry is applied.
pub proof fn law_newer_entries_are_applied(
    v: LedgerView,
    env: EnvelopeView,
    slot: Rect,
    rects: Seq<Rect>,
)
    ensures
        match revision_named(env.patch_id) {
            Some(rev) => if rev <= v.revision {
                replayed_one(v, env, slot, rects) == v
            } else {
                replayed_one(v, env, slot, rects) == remotely_applied(v, env, slot, rects)
            },
            None => replayed_one(v, env, slot, rects) == remotely_applied(v, env, slot, rects),
        },
{
}

} // verus!
