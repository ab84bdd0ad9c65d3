//! What is written of a canvas, and what is read back.

use ocean_gui::json::Json;
use ocean_gui::shell::canvas::ledger::{CanvasLedger, CanvasMode, Placement};
use ocean_gui::shell::canvas::patch::{
    ActorRef, CanvasComponentPatch, CanvasId, ComponentId, Coord, PatchId, Rect, SurfaceId,
    SurfacePatch, SurfacePatchEnvelope,
};
use ocean_gui::shell::canvas::persistence::{
    collect_log, is_newer, persist_plan, replay_entry, revision_from_patch_id, sanitize_segment,
    seed_clock, starting_ledger, CanvasStore, LogLine, PersistStep, SNAPSHOT_EVERY_N_PATCHES,
};

fn square() -> Rect {
    let (zero, side) = (Coord(0.0f32.to_bits()), Coord(100.0f32.to_bits()));
    Rect::new(zero, zero, side, side)
}

fn anywhere() -> Placement {
    Placement { slot: square(), rects: Vec::new() }
}

fn upsert(id: &str) -> SurfacePatch {
    SurfacePatch::UpsertComponent {
        component: CanvasComponentPatch {
            id: ComponentId::new(id),
            kind: String::from("card"),
            rect: Some(square()),
            z_index: None,
            content: Json::Object(vec![(String::from("title"), Json::Text(String::from(id)))]),
            metadata: Json::Null,
        },
    }
}

/// The ledger after an upsert of each id.
fn ledger_of(ids: &[&str]) -> CanvasLedger {
    let mut ledger = CanvasLedger::new("canvas:main", "sess:1", CanvasMode::Freeform);
    for id in ids {
        let ms = ledger.revision as i64;
        ledger.apply_patch(upsert(id), ActorRef::system(), ms, &anywhere());
    }
    ledger
}

/// The envelopes of the patches from a revision on.
fn envelopes(ids: &[&str], past: usize) -> Vec<SurfacePatchEnvelope> {
    ledger_of(ids).patch_log.into_iter().skip(past).collect()
}

/// What a disk holds, by the number of patches it covers: the snapshot's, and the patches
/// in the log.
#[derive(Debug, PartialEq)]
struct Disk {
    snapshot: Option<usize>,
    log_from: usize,
    log_to: usize,
}

impl Disk {
    fn empty() -> Disk {
        Disk { snapshot: None, log_from: 0, log_to: 0 }
    }

    /// Writes the last patch of a ledger with `count` patches, `steps` steps at most.
    fn persist(&mut self, count: usize, steps: usize) {
        let plan = persist_plan(count as u64, self.snapshot.is_some());
        for step in plan.iter().take(steps) {
            match step {
                PersistStep::Append => self.log_to = count,
                PersistStep::Snapshot => self.snapshot = Some(count),
                PersistStep::Truncate => self.log_from = count,
            }
        }
    }

    fn log_len(&self) -> usize {
        self.log_to - self.log_from
    }

    fn load(&self, ids: &[&str]) -> Option<CanvasLedger> {
        let snapshot = self.snapshot.map(|count| ledger_of(&ids[..count]));
        let entries = envelopes(&ids[..self.log_to], self.log_from);
        replay(snapshot, entries)
    }
}

fn replay(
    snapshot: Option<CanvasLedger>,
    entries: Vec<SurfacePatchEnvelope>,
) -> Option<CanvasLedger> {
    let mut ledger = starting_ledger(snapshot, &entries)?;
    for env in entries {
        replay_entry(&mut ledger, env, &anywhere());
    }
    seed_clock(&mut ledger);
    Some(ledger)
}

fn assert_same(a: &CanvasLedger, b: &CanvasLedger) {
    assert_eq!(a.revision, b.revision);
    assert_eq!(a.canvas_id, b.canvas_id);
    assert_eq!(a.session_id, b.session_id);
    assert_eq!(a.components.values(), b.components.values());
    assert_eq!(a.edges.values(), b.edges.values());
    assert_eq!(a.patch_log, b.patch_log);
    assert_eq!(a.clock, b.clock);
}

fn names(count: usize) -> Vec<String> {
    (0..count).map(|i| format!("c{i}")).collect()
}

#[test]
fn mutating_writes_snapshot_and_log() {
    let mut disk = Disk::empty();
    disk.persist(1, 9);

    assert_eq!(disk.snapshot, Some(1), "snapshot should be written");
    assert_eq!(disk.log_len(), 1);
}

#[test]
fn load_reconstructs_identical_ledger() {
    let ids = ["a", "b", "c"];
    let mut disk = Disk::empty();
    for count in 1..=3 {
        disk.persist(count, 9);
    }

    let loaded = disk.load(&ids).expect("should load a persisted ledger");
    assert_same(&loaded, &ledger_of(&ids));
}

#[test]
fn snapshot_plus_newer_patches_replay_correctly() {
    let snapshot = ledger_of(&["a"]);
    let entries = envelopes(&["a", "b"], 0);
    assert!(!is_newer(&snapshot, &entries[0]));
    assert!(is_newer(&snapshot, &entries[1]));

    let loaded = replay(Some(snapshot), entries).expect("load");
    assert_eq!(loaded.revision, 2, "should end at revision 2, not 3");
    assert!(loaded.component(&ComponentId::new("a")).is_some());
    assert!(loaded.component(&ComponentId::new("b")).is_some());
    assert_eq!(loaded.components.len(), 2);
}

#[test]
fn missing_files_load_to_none_no_panic() {
    assert!(replay(None, Vec::new()).is_none(), "nothing persisted → None, no panic");
}

#[test]
fn lost_snapshot_is_rebuilt_from_the_log() {
    let loaded = replay(None, envelopes(&["a", "b"], 0)).expect("load");
    assert_eq!(loaded.canvas_id, CanvasId::new("canvas:main"));
    assert_eq!(loaded.session_id, "sess:1");
    assert_eq!(loaded.components.len(), 2);
}

#[test]
fn corrupt_log_line_is_skipped_not_fatal() {
    let mut lines = vec![LogLine::Blank, LogLine::Corrupt];
    lines.extend(envelopes(&["a"], 0).into_iter().map(LogLine::Entry));
    lines.push(LogLine::Unreadable);

    let (log, bad) = collect_log(lines);
    assert_eq!(log.len(), 1, "garbage line skipped, valid line kept");
    assert_eq!(bad, vec![2, 4]);

    let loaded = replay(Some(ledger_of(&["a"])), log).expect("still loads");
    assert!(loaded.component(&ComponentId::new("a")).is_some());
    assert_eq!(loaded.revision, 1);
}

#[test]
fn log_rotates_after_snapshot_boundary() {
    let total = SNAPSHOT_EVERY_N_PATCHES as usize;
    let all = names(total + 1);
    let ids: Vec<&str> = all.iter().map(|s| s.as_str()).collect();
    let mut disk = Disk::empty();
    for count in 1..=total {
        disk.persist(count, 9);
    }

    assert_eq!(disk.log_len(), 0, "log should be truncated at snapshot boundary");
    let loaded = disk.load(&ids[..total]).expect("load after rotation");
    assert_eq!(loaded.revision, SNAPSHOT_EVERY_N_PATCHES);
    assert_eq!(loaded.components.len() as u64, SNAPSHOT_EVERY_N_PATCHES);
    assert_same(&loaded, &ledger_of(&ids[..total]));

    disk.persist(total + 1, 9);
    assert_eq!(disk.log_len(), 1, "post-boundary patch appended to fresh log");
    assert_same(&disk.load(&ids).unwrap(), &ledger_of(&ids));
}

#[test]
fn boundary_patch_recovered_when_snapshot_write_crashes() {
    let total = SNAPSHOT_EVERY_N_PATCHES as usize;
    let all = names(total);
    let ids: Vec<&str> = all.iter().map(|s| s.as_str()).collect();
    for steps in 1..=3 {
        let mut disk = Disk::empty();
        for count in 1..total {
            disk.persist(count, 9);
        }
        disk.persist(total, steps);

        let recovered = disk.load(&ids).expect("load after simulated boundary crash");
        assert_eq!(
            recovered.revision, SNAPSHOT_EVERY_N_PATCHES,
            "recovered ledger must reach the boundary revision, not N-1"
        );
        assert!(recovered.component(&ComponentId::new(ids[total - 1])).is_some());
        assert_same(&recovered, &ledger_of(&ids));
    }
}

#[test]
fn patch_ids_name_their_revision() {
    assert_eq!(revision_from_patch_id("canvas:main@12"), Some(12));
    assert_eq!(revision_from_patch_id("a@b@7"), Some(7));
    assert_eq!(revision_from_patch_id("canvas:main"), None);
    assert_eq!(revision_from_patch_id("canvas:main@"), None);
    assert_eq!(revision_from_patch_id("canvas:main@x1"), None);

    let odd = SurfacePatchEnvelope {
        patch_id: PatchId::new("no-revision"),
        session_id: String::from("sess:1"),
        surface_id: SurfaceId::new("gpui:local"),
        canvas_id: CanvasId::new("canvas:main"),
        actor: ActorRef::system(),
        created_at_ms: 0,
        patch: upsert("z"),
        version: None,
    };
    assert!(is_newer(&ledger_of(&["a"]), &odd));
}

#[test]
fn sanitizes_ids_into_safe_path_segments() {
    let s = CanvasStore::with_root("/tmp/root", "sess/with:colon", &CanvasId::new("canvas:main"));
    let snap = s.snapshot_path();
    assert!(snap.contains("sess_with_colon"));
    assert!(snap.ends_with("canvas_main.json"));
    assert!(!snap.contains(':'), "colons must be sanitized out");
    assert_eq!(snap, "/tmp/root/surfaces/sess_with_colon/canvas/canvas_main.json");
    assert_eq!(
        s.patch_log_path(),
        "/tmp/root/surfaces/sess_with_colon/canvas/canvas_main.patches.jsonl"
    );
    assert_eq!(sanitize_segment(""), "_");
    assert_eq!(sanitize_segment("a é.b"), "a__.b");
}

#[test]
fn no_home_means_nothing_is_kept() {
    let id = CanvasId::new("canvas:main");
    assert!(CanvasStore::for_session(None, "s", &id).is_none());
    assert!(CanvasStore::for_session(Some(""), "s", &id).is_none());
    let store = CanvasStore::for_session(Some("/home/me"), "s", &id).expect("a store");
    assert_eq!(store.canvas_dir(), "/home/me/.ocean/surfaces/s/canvas");
}

#[test]
fn a_crash_amid_several_patches_loses_none_that_was_appended() {
    let ids = ["a", "b", "c", "d"];
    for appended in 1..=4 {
        let entries = envelopes(&ids[..appended], 0);
        for snapshot in [None, Some(1), Some(appended)] {
            let snapshot = snapshot.map(|count| ledger_of(&ids[..count]));
            let loaded = replay(snapshot, entries.clone()).expect("load");
            assert_same(&loaded, &ledger_of(&ids[..appended]));
        }
        let loaded = replay(Some(ledger_of(&ids[..appended])), Vec::new()).expect("load");
        assert_same(&loaded, &ledger_of(&ids[..appended]));
    }
}
