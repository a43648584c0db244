//! The metadata store through its operations.
use std::cell::RefCell;

use voloph::analysis::{Analysis, AnalysisFile, Publication};
use voloph::annotations::{
    add_annotation, aspect_vocabulary, delete_annotation, filter_moments, recording_annotations,
    update_annotation,
};
use voloph::bundle::{
    build_session_bundle, bundle_file_name, BundleAnnotation, BundleRecording, SessionBundle,
    BUNDLE_FORMAT, BUNDLE_VERSION,
};
use voloph::capture_day::{derive_capture_day, refine_capture_day};
use voloph::carry::{carry_offers, carry_review};
use voloph::disk::{DiskEntry, FileMeta};
use voloph::fingerprint::quick_hash;
use voloph::library::{
    active_kind, designate_library, library_path, library_path_of, library_state, set_active_kind,
};
use voloph::media::CaptureDate;
use voloph::offers::{BundleFile, FileStamp};
use voloph::path::absolute;
use voloph::receive::{receive_session_bundle, resolve_bundle_conflict};
use voloph::scan::{delete_recording, list_sessions, scan_library, ScanResult};
use voloph::schema::{upgrade, OldRally, OldRecording, OldSession, OldStore};
use voloph::segment::Rally;
use voloph::store::{LibraryRow, RallyRow, RecordingRow, SessionRow, Store};
use voloph::timeline::{
    add_rally, delete_rally, recording_id, recording_timeline, set_rally_flag, update_rally,
};
use voloph::work::{active_mount, pending_analysis, save_rallies, set_probe_result};

/// Confidence as the store keeps it.
fn billionths(confidence: f64) -> i64 {
    (confidence * 1e9).round() as i64
}

fn draft(start_ms: i64, end_ms: i64, confidence: f64) -> Rally {
    Rally {
        start_ms,
        end_ms,
        confidence: billionths(confidence),
    }
}

fn peaks(texts: &[&str]) -> Vec<String> {
    texts.iter().map(|t| t.to_string()).collect()
}

/// Designates an empty-string library, so that absolute paths are their own keys.
fn set_test_library(conn: &mut Store) {
    if conn.libraries.iter().all(|l| l.kind != "local") {
        let id = conn.libraries.last().map_or(1, |l| l.id + 1);
        conn.libraries.push(LibraryRow {
            id,
            path: String::new(),
            kind: "local".to_string(),
            mount: "local".to_string(),
        });
    }
}

/// The session of a day in the local library, created where it is not there.
fn insert_session(conn: &mut Store, day: &str) -> i64 {
    if let Some(s) = conn.sessions.iter().find(|s| s.capture_day == day) {
        return s.id;
    }
    let id = conn.sessions.last().map_or(1, |s| s.id + 1);
    conn.sessions.push(SessionRow {
        id,
        capture_day: day.to_string(),
        library: "local".to_string(),
    });
    id
}

fn insert_row(conn: &mut Store, session_id: i64, path: &str, day: &str, state: &str) -> i64 {
    let id = conn.recordings.last().map_or(1, |r| r.id + 1);
    conn.recordings.push(RecordingRow {
        id,
        session_id,
        path: path.to_string(),
        library: "local".to_string(),
        file_size: 0,
        quick_hash: String::new(),
        capture_day: day.to_string(),
        probe_state: state.to_string(),
        segment_state: state.to_string(),
        date_state: "unknown".to_string(),
        duration_ms: if state == "ready" { Some(100_000) } else { None },
        waveform: None,
        segmenter_version: None,
        outside: false,
    });
    id
}

/// Inserts a recording on `day` under a session for that day, returning its id.
fn insert_recording(conn: &mut Store, path: &str, day: &str) -> i64 {
    set_test_library(conn);
    let session_id = insert_session(conn, day);
    insert_row(conn, session_id, path, day, "unknown")
}

fn insert_rally(
    conn: &mut Store,
    recording_id: i64,
    start_ms: i64,
    end_ms: i64,
    confidence: f64,
    flagged: bool,
) {
    let id = conn.rallies.last().map_or(1, |r| r.id + 1);
    conn.rallies.push(RallyRow {
        id,
        recording_id,
        start_ms,
        end_ms,
        confidence: billionths(confidence),
        flagged,
    });
}

/// A store with one segmented recording carrying the given rally intervals.
fn db_with_rallies(path: &str, intervals: &[(i64, i64)]) -> (Store, i64) {
    let mut conn = Store::new();
    set_test_library(&mut conn);
    let session = insert_session(&mut conn, "2026-01-01");
    insert_row(&mut conn, session, path, "2026-01-01", "ready");
    let rallies: Vec<Rally> = intervals
        .iter()
        .map(|&(start_ms, end_ms)| draft(start_ms, end_ms, 0.3))
        .collect();
    save_rallies(&mut conn, 1, 100_000, &rallies, &peaks(&[])).unwrap();
    (conn, 1)
}

fn intervals(conn: &Store, path: &str) -> Vec<(i64, i64, f64)> {
    recording_timeline(conn, path)
        .unwrap()
        .rallies
        .into_iter()
        .map(|r| (r.start_ms, r.end_ms, r.confidence as f64 / 1e9))
        .collect()
}

fn flags(conn: &Store, path: &str) -> Vec<bool> {
    recording_timeline(conn, path)
        .unwrap()
        .rallies
        .into_iter()
        .map(|r| r.flagged)
        .collect()
}

fn verdicts(conn: &Store, path: &str) -> Vec<(i64, String)> {
    recording_annotations(conn, path)
        .into_iter()
        .map(|a| (a.time_ms, a.verdict))
        .collect()
}

fn row(conn: &mut Store, id: i64) -> &mut RecordingRow {
    conn.recordings.iter_mut().find(|r| r.id == id).unwrap()
}

/// The stored key of the recording with an id.
fn stored_path(conn: &Store, id: i64) -> String {
    let at = conn.recordings.iter().find(|r| r.id == id).unwrap();
    at.path.clone()
}

fn day_of(conn: &Store, path: &str) -> String {
    let at = conn.recordings.iter().find(|r| r.path == path).unwrap();
    at.capture_day.clone()
}

/// A library folder kept in memory: files, shared bundles and published Analyses.
struct TempLib {
    root: String,
    files: RefCell<Vec<(String, Vec<u8>)>>,
    bundles: RefCell<Vec<(String, FileStamp, SessionBundle)>>,
    analyses: RefCell<Vec<(String, Option<Analysis>)>>,
}

impl TempLib {
    fn new(name: &str) -> Self {
        TempLib {
            root: format!("/media/{name}"),
            files: RefCell::new(Vec::new()),
            bundles: RefCell::new(Vec::new()),
            analyses: RefCell::new(Vec::new()),
        }
    }

    /// Writes a file, returning its absolute path.
    fn write(&self, rel: &str, contents: &[u8]) -> String {
        self.remove(rel);
        self.files
            .borrow_mut()
            .push((rel.to_string(), contents.to_vec()));
        absolute(&self.root, rel)
    }

    fn remove(&self, rel: &str) {
        self.files.borrow_mut().retain(|f| f.0 != rel);
    }

    fn rename(&self, from: &str, to: &str) {
        for f in self.files.borrow_mut().iter_mut() {
            if f.0 == from {
                f.0 = to.to_string();
            }
        }
    }

    fn hash(&self, abs: &str) -> (String, i64) {
        let files = self.files.borrow();
        let file = files
            .iter()
            .find(|f| absolute(&self.root, &f.0) == abs)
            .unwrap();
        let size = file.1.len();
        (quick_hash(size as u64, &file.1), size as i64)
    }

    fn entries(&self) -> Vec<DiskEntry> {
        let mut out = Vec::new();
        for (rel, bytes) in self.files.borrow().iter() {
            out.push(DiskEntry {
                path: absolute(&self.root, rel),
                is_file: true,
                meta: Some(FileMeta {
                    size: bytes.len() as u64,
                    modified: 1_767_225_600,
                    head: Some(bytes.clone()),
                }),
            });
        }
        out
    }

    fn analysis_files(&self) -> Vec<AnalysisFile> {
        let all = self.analyses.borrow();
        all.iter()
            .map(|(name, content)| AnalysisFile {
                name: name.clone(),
                content: content.as_ref().map(copy_analysis),
            })
            .collect()
    }

    fn bundle_files(&self) -> Vec<BundleFile> {
        let all = self.bundles.borrow();
        all.iter()
            .map(|(name, stamp, bundle)| BundleFile {
                path: absolute(&self.root, name),
                stamp: Some(*stamp),
                content: Some(copy_bundle(bundle)),
            })
            .collect()
    }

    fn stamp_of(&self, path: &str) -> Option<FileStamp> {
        let all = self.bundles.borrow();
        all.iter()
            .find(|b| absolute(&self.root, &b.0) == path)
            .map(|b| b.1)
    }

    fn put_analysis(&self, name: &str, content: Option<Analysis>) {
        let mut all = self.analyses.borrow_mut();
        all.retain(|a| a.0 != name);
        all.push((name.to_string(), content));
    }

    fn publish(&self, publication: Option<Publication>) {
        if let Some(p) = publication {
            assert_eq!(p.dir, format!("{}/.voloph/analysis", self.root));
            self.put_analysis(&p.name, Some(p.analysis));
        }
    }
}

fn copy_analysis(a: &Analysis) -> Analysis {
    Analysis {
        format: a.format.clone(),
        version: a.version,
        segmenter_version: a.segmenter_version,
        capture_day: a.capture_day.clone(),
        duration_ms: a.duration_ms,
        waveform: a.waveform.clone(),
        rallies: a.rallies.clone(),
    }
}

fn copy_bundle(b: &SessionBundle) -> SessionBundle {
    SessionBundle {
        format: b.format.clone(),
        version: b.version,
        capture_day: b.capture_day.clone(),
        sharer_label: b.sharer_label.clone(),
        recordings: b
            .recordings
            .iter()
            .map(|r| BundleRecording {
                path: r.path.clone(),
                quick_hash: r.quick_hash.clone(),
                file_size: r.file_size,
                capture_day: r.capture_day.clone(),
                duration_ms: r.duration_ms,
                waveform: r.waveform.clone(),
                rallies: r.rallies.clone(),
                annotations: r
                    .annotations
                    .iter()
                    .map(|a| BundleAnnotation {
                        time_ms: a.time_ms,
                        verdict: a.verdict.clone(),
                        aspect: a.aspect.clone(),
                        note: a.note.clone(),
                    })
                    .collect(),
            })
            .collect(),
    }
}

fn disk_of(libs: &[&TempLib]) -> Vec<DiskEntry> {
    libs.iter().flat_map(|l| l.entries()).collect()
}

/// Scans the active library with the given folders on disk, and writes out what
/// the scan publishes.
fn scan(conn: &mut Store, libs: &[&TempLib]) -> ScanResult {
    let active = library_path(conn);
    let mut walk = Vec::new();
    for lib in libs {
        if let Some(folder) = &active {
            if lib.root == *folder || folder.starts_with(&format!("{}/", lib.root)) {
                walk.extend(lib.entries().into_iter().filter(|e| {
                    e.path.starts_with(&format!("{folder}/"))
                }));
            }
        }
    }
    let shared = library_path_of(conn, "shared");
    let home = libs.iter().find(|l| Some(&l.root) == shared.as_ref());
    let files = home.map_or(Vec::new(), |l| l.analysis_files());
    let (result, publications) = scan_library(conn, &disk_of(libs), &walk, &files).unwrap();
    for p in publications {
        home.unwrap().publish(Some(p));
    }
    result
}

/// Flags a rally of the recording, so that it counts as hand-touched.
fn flag_first_rally(conn: &mut Store, abs: &str) {
    let id = recording_id(conn, abs).unwrap();
    insert_rally(conn, id, 0, 5000, 0.3, true);
}

/// A sharer's bundle over two recordings of the shared library, the first flagged
/// and annotated.
fn shared_bundle(lib: &TempLib) -> SessionBundle {
    lib.write("a.mp4", b"aaaa");
    lib.write("b.mp4", b"bbbb");
    let mut conn = Store::new();
    designate_library(&mut conn, "shared", &lib.root, "network").unwrap();
    assert_eq!(scan(&mut conn, &[lib]).registered, 2);
    let a_abs = absolute(&lib.root, "a.mp4");
    let a_id = recording_id(&conn, &a_abs).unwrap();
    insert_rally(&mut conn, a_id, 1000, 5000, 0.4, true);
    insert_rally(&mut conn, a_id, 8000, 9000, 0.3, false);
    row(&mut conn, a_id).segment_state = "ready".to_string();
    row(&mut conn, a_id).duration_ms = Some(60000);
    add_annotation(&mut conn, &a_abs, 2000, "good");
    let note = recording_annotations(&conn, &a_abs)[0].id;
    update_annotation(&mut conn, &a_abs, note, "good", Some("serve-toss"), None);
    let session_id = row(&mut conn, a_id).session_id;
    for r in conn.recordings.iter_mut() {
        if r.library == "shared" {
            r.session_id = session_id;
        }
    }
    build_session_bundle(&conn, session_id, "alice").unwrap()
}

fn recipient_db(lib: &TempLib) -> Store {
    let mut conn = Store::new();
    designate_library(&mut conn, "shared", &lib.root, "network").unwrap();
    conn
}

#[test]
fn db_adjust_moves_a_boundary_and_marks_it_certain() {
    let (mut conn, _) = db_with_rallies("/r.mp4", &[(1000, 5000)]);
    let id = recording_timeline(&conn, "/r.mp4").unwrap().rallies[0].id;
    assert!(update_rally(&mut conn, "/r.mp4", id, 2000, 6000));
    assert_eq!(intervals(&conn, "/r.mp4"), vec![(2000, 6000, 1.0)]);
}

#[test]
fn db_add_creates_a_rally_over_a_missed_span() {
    let (mut conn, _) = db_with_rallies("/r.mp4", &[(1000, 5000)]);
    let new_id = add_rally(&mut conn, "/r.mp4", 8000, 12000).unwrap();
    assert!(new_id > 0);
    assert_eq!(
        intervals(&conn, "/r.mp4"),
        vec![(1000, 5000, 0.3), (8000, 12000, 1.0)]
    );
}

#[test]
fn db_delete_removes_a_false_rally() {
    let (mut conn, _) = db_with_rallies("/r.mp4", &[(1000, 5000), (8000, 12000)]);
    let id = recording_timeline(&conn, "/r.mp4").unwrap().rallies[0].id;
    assert!(delete_rally(&mut conn, "/r.mp4", id));
    assert_eq!(intervals(&conn, "/r.mp4"), vec![(8000, 12000, 0.3)]);
}

#[test]
fn db_split_is_update_plus_add() {
    let (mut conn, _) = db_with_rallies("/r.mp4", &[(1000, 9000)]);
    let id = recording_timeline(&conn, "/r.mp4").unwrap().rallies[0].id;
    update_rally(&mut conn, "/r.mp4", id, 1000, 5000);
    add_rally(&mut conn, "/r.mp4", 5000, 9000);
    assert_eq!(
        intervals(&conn, "/r.mp4"),
        vec![(1000, 5000, 1.0), (5000, 9000, 1.0)]
    );
}

#[test]
fn db_merge_is_update_plus_delete() {
    let (mut conn, _) = db_with_rallies("/r.mp4", &[(1000, 5000), (8000, 12000)]);
    let tl = recording_timeline(&conn, "/r.mp4").unwrap();
    let (first, second) = (tl.rallies[0].id, tl.rallies[1].id);
    update_rally(&mut conn, "/r.mp4", first, 1000, 12000);
    delete_rally(&mut conn, "/r.mp4", second);
    assert_eq!(intervals(&conn, "/r.mp4"), vec![(1000, 12000, 1.0)]);
}

#[test]
fn db_reversed_drag_is_normalized() {
    let (mut conn, _) = db_with_rallies("/r.mp4", &[(1000, 5000)]);
    let id = recording_timeline(&conn, "/r.mp4").unwrap().rallies[0].id;
    update_rally(&mut conn, "/r.mp4", id, 7000, 3000);
    assert_eq!(intervals(&conn, "/r.mp4"), vec![(3000, 7000, 1.0)]);
}

#[test]
fn db_edits_are_scoped_to_their_recording() {
    let (mut conn, _) = db_with_rallies("/a.mp4", &[(1000, 5000)]);
    insert_row(&mut conn, 1, "/b.mp4", "2026-01-01", "ready");
    let a_id = recording_timeline(&conn, "/a.mp4").unwrap().rallies[0].id;
    assert!(!update_rally(&mut conn, "/b.mp4", a_id, 0, 1));
    assert!(!delete_rally(&mut conn, "/b.mp4", a_id));
    assert_eq!(intervals(&conn, "/a.mp4"), vec![(1000, 5000, 0.3)]);
}

#[test]
fn db_edits_on_an_unregistered_path_are_no_ops() {
    let (mut conn, _) = db_with_rallies("/r.mp4", &[(1000, 5000)]);
    assert!(!update_rally(&mut conn, "/missing.mp4", 1, 0, 1));
    assert!(add_rally(&mut conn, "/missing.mp4", 0, 1).is_none());
    assert!(!delete_rally(&mut conn, "/missing.mp4", 1));
}

#[test]
fn db_flag_toggles_and_persists() {
    let (mut conn, _) = db_with_rallies("/r.mp4", &[(1000, 5000), (8000, 12000)]);
    let id = recording_timeline(&conn, "/r.mp4").unwrap().rallies[0].id;
    assert_eq!(flags(&conn, "/r.mp4"), vec![false, false]);
    assert!(set_rally_flag(&mut conn, "/r.mp4", id, true));
    assert_eq!(flags(&conn, "/r.mp4"), vec![true, false]);
    assert!(set_rally_flag(&mut conn, "/r.mp4", id, false));
    assert_eq!(flags(&conn, "/r.mp4"), vec![false, false]);
}

#[test]
fn db_flag_is_scoped_to_its_recording() {
    let (mut conn, _) = db_with_rallies("/a.mp4", &[(1000, 5000)]);
    insert_row(&mut conn, 1, "/b.mp4", "2026-01-01", "ready");
    let a_id = recording_timeline(&conn, "/a.mp4").unwrap().rallies[0].id;
    assert!(!set_rally_flag(&mut conn, "/b.mp4", a_id, true));
    assert!(!set_rally_flag(&mut conn, "/missing.mp4", a_id, true));
    assert!(!set_rally_flag(&mut conn, "/a.mp4", 9999, true));
    assert_eq!(flags(&conn, "/a.mp4"), vec![false]);
}

#[test]
fn db_filter_moments_combines_across_sessions() {
    let (mut conn, _) = db_with_rallies("/a.mp4", &[(0, 20_000), (30_000, 33_000)]);
    let second = insert_session(&mut conn, "2026-02-02");
    assert_eq!(second, 2);
    insert_row(&mut conn, 2, "/b.mp4", "2026-02-02", "ready");
    save_rallies(&mut conn, 2, 100_000, &vec![draft(0, 5_000, 1.0)], &peaks(&[])).unwrap();

    let a_long = recording_timeline(&conn, "/a.mp4").unwrap().rallies[0].id;
    let a_short = recording_timeline(&conn, "/a.mp4").unwrap().rallies[1].id;
    set_rally_flag(&mut conn, "/a.mp4", a_long, true);
    let m1 = add_annotation(&mut conn, "/a.mp4", 1_000, "mistake").unwrap();
    update_annotation(&mut conn, "/a.mp4", m1, "mistake", Some("execution"), None);
    add_annotation(&mut conn, "/a.mp4", 31_000, "good");
    add_annotation(&mut conn, "/b.mp4", 500, "mistake");

    // No filter: every rally, newest session first, no attached annotations.
    let all = filter_moments(&conn, None, None, None, None);
    assert_eq!(all.len(), 3);
    assert_eq!(all[0].capture_day, "2026-02-02");
    assert!(all.iter().all(|r| r.annotations.is_empty()));

    // The length is derived from duration.
    let long = filter_moments(&conn, None, None, Some(true), None);
    assert_eq!(long.len(), 1);
    assert_eq!(long[0].rally_id, a_long);
    assert!(long[0].long && long[0].flagged);

    let flagged = filter_moments(&conn, None, None, None, Some(true));
    assert_eq!(flagged.len(), 1);
    assert_eq!(flagged[0].rally_id, a_long);

    // Two rallies, each with its mistake attached.
    let mistakes = filter_moments(&conn, Some("mistake"), None, None, None);
    assert_eq!(mistakes.len(), 2);
    assert!(mistakes
        .iter()
        .all(|r| r.annotations.len() == 1 && r.annotations[0].verdict == "mistake"));
    assert_ne!(mistakes[0].rally_id, a_short);

    let combo = filter_moments(&conn, Some("mistake"), Some("execution"), None, None);
    assert_eq!(combo.len(), 1);
    assert_eq!(combo[0].rally_id, a_long);
    assert_eq!(combo[0].annotations[0].aspect.as_deref(), Some("execution"));

    let combo2 = filter_moments(&conn, Some("mistake"), None, Some(true), None);
    assert_eq!(combo2.len(), 1);
    assert_eq!(combo2[0].rally_id, a_long);
}

#[test]
fn db_designate_adopts_by_prefix_and_drops_outsiders() {
    let mut conn = Store::new();
    // Designating before any recordings exist is safe.
    designate_library(&mut conn, "local", "/lib", "local").unwrap();
    assert!(list_sessions(&conn).is_empty());

    // Recordings stored by absolute path, one under the library and one outside.
    conn.libraries.clear();
    let inside = insert_recording(&mut conn, "/lib/day1/game.mp4", "2026-01-01");
    conn.libraries.clear();
    let outside = insert_recording(&mut conn, "/elsewhere/other.mp4", "2026-01-02");
    conn.libraries.clear();
    insert_rally(&mut conn, inside, 0, 5000, 1.0, true);

    designate_library(&mut conn, "local", "/lib", "local").unwrap();

    assert_eq!(stored_path(&conn, inside), "day1/game.mp4");
    assert_eq!(stored_path(&conn, outside), "/elsewhere/other.mp4");

    let sessions = list_sessions(&conn);
    assert_eq!(sessions.len(), 1);
    let recs = &sessions[0].recordings;
    assert_eq!(recs.len(), 1);
    assert_eq!(recs[0].path, "/lib/day1/game.mp4");
    assert_eq!(recs[0].rally_count, 1);

    assert!(recording_timeline(&conn, "/lib/day1/game.mp4").is_some());
    assert!(set_rally_flag(&mut conn, "/lib/day1/game.mp4", 1, false));

    // Re-designating the same folder is idempotent.
    designate_library(&mut conn, "local", "/lib", "local").unwrap();
    assert_eq!(stored_path(&conn, inside), "day1/game.mp4");
}

#[test]
fn db_redesignate_readopts_from_previous_library() {
    let mut conn = Store::new();
    designate_library(&mut conn, "local", "/lib/a", "local").unwrap();
    let session = insert_session(&mut conn, "2026-01-01");
    insert_row(&mut conn, session, "sub/game.mp4", "2026-01-01", "unknown");
    designate_library(&mut conn, "local", "/lib", "local").unwrap();
    let recs = &list_sessions(&conn)[0].recordings;
    assert_eq!(recs[0].path, "/lib/a/sub/game.mp4");
}

#[test]
fn db_open_migrates_pre_library_column_db() {
    let before = OldStore {
        sessions: vec![OldSession {
            id: 1,
            capture_day: "2026-01-01".to_string(),
            library: None,
        }],
        recordings: vec![OldRecording {
            id: 7,
            session_id: 1,
            path: "day1/game.mp4".to_string(),
            library: None,
            file_size: 0,
            quick_hash: String::new(),
            capture_day: "2026-01-01".to_string(),
            probe_state: Some("unknown".to_string()),
            transcode_state: None,
            segment_state: Some("unknown".to_string()),
            date_state: Some("unknown".to_string()),
            duration_ms: None,
            waveform: None,
            segmenter_version: None,
            outside: None,
        }],
        rallies: vec![OldRally {
            id: 1,
            recording_id: 7,
            start_ms: 0,
            end_ms: 5000,
            confidence: billionths(1.0),
            flagged: Some(true),
        }],
        annotations: vec![],
        libraries: vec![],
        meta: vec![],
    };
    let conn = upgrade(&before);
    let at = conn
        .recordings
        .iter()
        .find(|r| r.path == "day1/game.mp4")
        .unwrap();
    assert_eq!(at.id, 7);
    assert_eq!(at.library, "local");
    assert_eq!(conn.sessions[0].library, "local");
    let rally = conn.rallies.iter().find(|r| r.recording_id == 7).unwrap();
    assert!(rally.flagged);
}

#[test]
fn db_two_libraries_switch_and_scope() {
    let local = TempLib::new("local");
    let shared = TempLib::new("shared");
    local.write("day1/game.mp4", b"local-bytes");
    shared.write("day1/game.mp4", b"shared-bytes");
    let mut conn = Store::new();

    designate_library(&mut conn, "local", &local.root, "local").unwrap();
    assert_eq!(scan(&mut conn, &[&local, &shared]).registered, 1);
    assert_eq!(active_kind(&conn), "local");

    designate_library(&mut conn, "shared", &shared.root, "network").unwrap();
    assert_eq!(active_kind(&conn), "shared");
    assert_eq!(scan(&mut conn, &[&local, &shared]).registered, 1);
    let shared_abs = absolute(&shared.root, "day1/game.mp4");
    assert_eq!(list_sessions(&conn)[0].recordings[0].path, shared_abs);

    let (libs, active) = library_state(&conn);
    assert_eq!(active, "shared");
    assert_eq!(libs.len(), 2);
    let mount_of = |k: &str| libs.iter().find(|l| l.kind == k).unwrap().mount.clone();
    assert_eq!(mount_of("local"), "local");
    assert_eq!(mount_of("shared"), "network");

    let shared_rally = add_rally(&mut conn, &shared_abs, 0, 5000).unwrap();
    assert!(set_rally_flag(&mut conn, &shared_abs, shared_rally, true));

    set_active_kind(&mut conn, "local");
    let local_abs = absolute(&local.root, "day1/game.mp4");
    assert_eq!(list_sessions(&conn)[0].recordings[0].path, local_abs);
    assert!(recording_timeline(&conn, &local_abs)
        .unwrap()
        .rallies
        .is_empty());

    set_active_kind(&mut conn, "shared");
    assert_eq!(
        recording_timeline(&conn, &shared_abs).unwrap().rallies[0].flagged,
        true
    );
}

#[test]
fn db_active_mount_and_pending_analysis_drive_staging() {
    let local = TempLib::new("local");
    let shared = TempLib::new("shared");
    local.write("a.mp4", b"local-a");
    shared.write("s1.mp4", b"shared-1");
    shared.write("s2.mp4", b"shared-2");
    let mut conn = Store::new();

    designate_library(&mut conn, "local", &local.root, "local").unwrap();
    scan(&mut conn, &[&local, &shared]);
    assert_eq!(active_mount(&conn).as_deref(), Some("local"));

    designate_library(&mut conn, "shared", &shared.root, "network").unwrap();
    scan(&mut conn, &[&local, &shared]);
    assert_eq!(active_mount(&conn).as_deref(), Some("network"));
    let pending = pending_analysis(&conn, &shared.bundle_files());
    assert_eq!(pending.len(), 2);
    assert!(pending.iter().all(|p| p.needs_probe && p.needs_segment));
    assert!(pending.iter().all(|p| p.path.starts_with(&shared.root)));

    set_probe_result(&mut conn, pending[0].id, "ready");
    let after_probe = pending_analysis(&conn, &shared.bundle_files());
    let first = after_probe.iter().find(|p| p.id == pending[0].id).unwrap();
    assert!(!first.needs_probe && first.needs_segment);

    save_rallies(&mut conn, pending[0].id, 1000, &vec![], &peaks(&[])).unwrap();
    let remaining = pending_analysis(&conn, &shared.bundle_files());
    assert_eq!(remaining.len(), 1);
    assert_eq!(remaining[0].id, pending[1].id);
}

#[test]
fn db_scan_relocates_by_hash_and_reports_unresolved() {
    let lib = TempLib::new("local");
    lib.write("day1/game.mp4", b"aaaa");
    lib.write("day1/other.mp4", b"bbbb");
    let mut conn = Store::new();

    designate_library(&mut conn, "local", &lib.root, "local").unwrap();
    assert_eq!(scan(&mut conn, &[&lib]).registered, 2);
    assert_eq!(scan(&mut conn, &[&lib]).registered, 0);
    let game_abs = absolute(&lib.root, "day1/game.mp4");
    let game_id = recording_id(&conn, &game_abs).unwrap();
    insert_rally(&mut conn, game_id, 0, 5000, 1.0, true);

    lib.rename("day1/game.mp4", "moved/renamed.mp4");
    lib.remove("day1/other.mp4");

    let result = scan(&mut conn, &[&lib]);
    assert_eq!(result.relocated, 1);
    assert_eq!(result.registered, 0);
    assert_eq!(stored_path(&conn, game_id), "moved/renamed.mp4");
    let moved_abs = absolute(&lib.root, "moved/renamed.mp4");
    assert_eq!(
        recording_timeline(&conn, &moved_abs).unwrap().rallies[0].flagged,
        true
    );
    let other_abs = absolute(&lib.root, "day1/other.mp4");
    assert_eq!(result.unresolved, vec![other_abs.clone()]);
    assert!(recording_id(&conn, &other_abs).is_some());

    lib.write("archive/other.mp4", b"bbbb");
    let result = scan(&mut conn, &[&lib]);
    assert_eq!(result.relocated, 1);
    assert!(result.unresolved.is_empty());
    assert_eq!(result.registered, 0);

    // Re-designating a subfolder adopts again.
    let sub = absolute(&lib.root, "moved");
    designate_library(&mut conn, "local", &sub, "local").unwrap();
    let result = scan(&mut conn, &[&lib]);
    assert!(stored_path(&conn, game_id) == "renamed.mp4");
    assert!(!result.unresolved.contains(&moved_abs));
}

#[test]
fn db_cross_library_rehome_follows_a_moved_recording() {
    let local = TempLib::new("local");
    let shared = TempLib::new("shared");
    let mut conn = Store::new();

    local.write("day1/game.mp4", b"the-bytes");
    designate_library(&mut conn, "local", &local.root, "local").unwrap();
    assert_eq!(scan(&mut conn, &[&local, &shared]).registered, 1);
    let local_abs = absolute(&local.root, "day1/game.mp4");
    flag_first_rally(&mut conn, &local_abs);
    let rec_id = recording_id(&conn, &local_abs).unwrap();

    designate_library(&mut conn, "shared", &shared.root, "network").unwrap();
    local.remove("day1/game.mp4");
    shared.write("archive/game.mp4", b"the-bytes");

    let result = scan(&mut conn, &[&local, &shared]);
    assert_eq!(result.registered, 0);
    assert_eq!(result.relocated, 1);

    let shared_abs = absolute(&shared.root, "archive/game.mp4");
    assert_eq!(rec_id, recording_id(&conn, &shared_abs).unwrap());
    assert_eq!(row(&mut conn, rec_id).library, "shared");
    assert!(recording_timeline(&conn, &shared_abs).unwrap().rallies[0].flagged);
    assert!(!list_sessions(&conn).is_empty());
    set_active_kind(&mut conn, "local");
    assert!(list_sessions(&conn).is_empty());

    // And back.
    shared.remove("archive/game.mp4");
    local.write("back/game.mp4", b"the-bytes");
    let result = scan(&mut conn, &[&local, &shared]);
    assert_eq!(result.relocated, 1);
    assert_eq!(result.registered, 0);
    let back_abs = absolute(&local.root, "back/game.mp4");
    assert_eq!(rec_id, recording_id(&conn, &back_abs).unwrap());
    assert!(recording_timeline(&conn, &back_abs).unwrap().rallies[0].flagged);
}

#[test]
fn db_copy_present_in_both_is_not_rehomed() {
    let local = TempLib::new("local");
    let shared = TempLib::new("shared");
    let mut conn = Store::new();

    local.write("game.mp4", b"same");
    designate_library(&mut conn, "local", &local.root, "local").unwrap();
    scan(&mut conn, &[&local, &shared]);
    let local_id = recording_id(&conn, &absolute(&local.root, "game.mp4")).unwrap();

    designate_library(&mut conn, "shared", &shared.root, "network").unwrap();
    shared.write("game.mp4", b"same");
    let result = scan(&mut conn, &[&local, &shared]);
    assert_eq!(result.registered, 1);
    assert_eq!(result.relocated, 0);
    let shared_id = recording_id(&conn, &absolute(&shared.root, "game.mp4")).unwrap();
    assert_ne!(local_id, shared_id);
}

#[test]
fn db_carry_offer_and_apply() {
    let local = TempLib::new("local");
    let shared = TempLib::new("shared");
    let mut conn = Store::new();

    local.write("game.mp4", b"same");
    designate_library(&mut conn, "local", &local.root, "local").unwrap();
    scan(&mut conn, &[&local, &shared]);
    let local_abs = absolute(&local.root, "game.mp4");
    flag_first_rally(&mut conn, &local_abs);
    add_annotation(&mut conn, &local_abs, 1000, "mistake");

    designate_library(&mut conn, "shared", &shared.root, "network").unwrap();
    shared.write("game.mp4", b"same");
    scan(&mut conn, &[&local, &shared]);
    let shared_abs = absolute(&shared.root, "game.mp4");

    let disk = disk_of(&[&local, &shared]);
    let offers = carry_offers(&conn, &disk);
    assert_eq!(offers.len(), 1);
    assert_eq!(offers[0].from_path, local_abs);
    assert_eq!(offers[0].to_path, shared_abs);
    assert_eq!(offers[0].to_kind, "shared");

    // Not accepting leaves the copy untouched.
    set_active_kind(&mut conn, "shared");
    assert!(recording_timeline(&conn, &shared_abs)
        .unwrap()
        .rallies
        .is_empty());
    assert!(recording_annotations(&conn, &shared_abs).is_empty());

    assert!(carry_review(&mut conn, &offers[0].from_path, &offers[0].to_path));
    assert!(recording_timeline(&conn, &shared_abs).unwrap().rallies[0].flagged);
    assert_eq!(recording_annotations(&conn, &shared_abs)[0].verdict, "mistake");

    // Both sides are hand-touched now.
    assert!(carry_offers(&conn, &disk).is_empty());
}

#[test]
fn db_capture_day_prefers_quicktime_local_day() {
    let embedded = CaptureDate {
        quicktime_creationdate: Some("2024-03-16T00:30:00+0800".to_string()),
        creation_time: Some("2024-03-15T16:30:00.000000Z".to_string()),
    };
    assert_eq!(derive_capture_day(&embedded, 0), "2024-03-16");
}

#[test]
fn db_capture_day_falls_back_through_sources() {
    let creation_only = CaptureDate {
        quicktime_creationdate: None,
        creation_time: Some("2024-03-15T16:30:00.000000Z".to_string()),
    };
    assert_eq!(derive_capture_day(&creation_only, 0), "2024-03-15");
    assert_eq!(derive_capture_day(&CaptureDate::default(), 0), "1970-01-01");
}

#[test]
fn db_capture_day_skips_implausible_embedded_dates() {
    let junk = CaptureDate {
        quicktime_creationdate: Some("0000-00-00T00:00:00Z".to_string()),
        creation_time: Some("1899-12-31T00:00:00Z".to_string()),
    };
    assert_eq!(derive_capture_day(&junk, 0), "1970-01-01");
}

#[test]
fn db_refine_rehomes_and_gcs_emptied_session() {
    let mut conn = Store::new();
    let id = insert_recording(&mut conn, "/r.mp4", "2026-01-01");
    let embedded = CaptureDate {
        quicktime_creationdate: Some("2024-03-15T21:00:00+0800".to_string()),
        creation_time: None,
    };
    refine_capture_day(&mut conn, id, &embedded, 0);

    assert_eq!(day_of(&conn, "/r.mp4"), "2024-03-15");
    assert_eq!(conn.sessions.len(), 1);
    assert_eq!(conn.sessions[0].capture_day, "2024-03-15");
}

#[test]
fn db_refine_keeps_session_shared_by_others() {
    let mut conn = Store::new();
    let a = insert_recording(&mut conn, "/a.mp4", "2026-01-01");
    insert_recording(&mut conn, "/b.mp4", "2026-01-01");
    let embedded = CaptureDate {
        quicktime_creationdate: Some("2024-03-15T10:00:00+0800".to_string()),
        creation_time: None,
    };
    refine_capture_day(&mut conn, a, &embedded, 0);

    assert_eq!(day_of(&conn, "/a.mp4"), "2024-03-15");
    assert_eq!(day_of(&conn, "/b.mp4"), "2026-01-01");
    assert_eq!(conn.sessions.len(), 2);
}

#[test]
fn db_refine_is_idempotent_on_correct_day() {
    let mut conn = Store::new();
    let embedded = CaptureDate {
        quicktime_creationdate: Some("2024-03-15T10:00:00+0800".to_string()),
        creation_time: None,
    };
    let id = insert_recording(&mut conn, "/r.mp4", "2024-03-15");
    refine_capture_day(&mut conn, id, &embedded, 0);
    refine_capture_day(&mut conn, id, &embedded, 0);
    assert_eq!(day_of(&conn, "/r.mp4"), "2024-03-15");
    assert_eq!(conn.sessions.len(), 1);
}

#[test]
fn db_annotation_persists_at_its_timestamp() {
    let (mut conn, _) = db_with_rallies("/r.mp4", &[(1000, 5000)]);
    add_annotation(&mut conn, "/r.mp4", 3200, "mistake");
    add_annotation(&mut conn, "/r.mp4", 1500, "good");
    assert_eq!(
        verdicts(&conn, "/r.mp4"),
        vec![(1500, "good".to_string()), (3200, "mistake".to_string())]
    );
}

#[test]
fn db_annotations_can_share_a_timestamp() {
    let (mut conn, _) = db_with_rallies("/r.mp4", &[(1000, 5000)]);
    add_annotation(&mut conn, "/r.mp4", 2000, "good");
    add_annotation(&mut conn, "/r.mp4", 2000, "mistake");
    assert_eq!(
        verdicts(&conn, "/r.mp4"),
        vec![(2000, "good".to_string()), (2000, "mistake".to_string())]
    );
}

#[test]
fn db_annotations_are_scoped_to_their_recording() {
    let (mut conn, _) = db_with_rallies("/a.mp4", &[(1000, 5000)]);
    insert_row(&mut conn, 1, "/b.mp4", "2026-01-01", "ready");
    add_annotation(&mut conn, "/a.mp4", 2000, "bad");
    assert!(add_annotation(&mut conn, "/missing.mp4", 2000, "bad").is_none());
    assert_eq!(verdicts(&conn, "/a.mp4"), vec![(2000, "bad".to_string())]);
    assert!(verdicts(&conn, "/b.mp4").is_empty());
    assert!(recording_annotations(&conn, "/missing.mp4").is_empty());
}

#[test]
fn db_deleting_a_recording_cascades_to_its_annotations() {
    let (mut conn, _) = db_with_rallies("/r.mp4", &[(1000, 5000)]);
    add_annotation(&mut conn, "/r.mp4", 2000, "good");
    assert!(delete_recording(&mut conn, "/r.mp4"));
    assert_eq!(conn.annotations.len(), 0);
}

#[test]
fn db_annotation_enriches_and_clears() {
    let (mut conn, _) = db_with_rallies("/r.mp4", &[(1000, 5000)]);
    let id = add_annotation(&mut conn, "/r.mp4", 2000, "bad").unwrap();
    assert!(update_annotation(
        &mut conn,
        "/r.mp4",
        id,
        "mistake",
        Some("execution"),
        Some("late smash into the net"),
    ));
    let a = &recording_annotations(&conn, "/r.mp4")[0];
    assert_eq!(a.verdict, "mistake");
    assert_eq!(a.aspect.as_deref(), Some("execution"));
    assert_eq!(a.note.as_deref(), Some("late smash into the net"));

    update_annotation(&mut conn, "/r.mp4", id, "mistake", None, None);
    let a = &recording_annotations(&conn, "/r.mp4")[0];
    assert_eq!(a.aspect, None);
    assert_eq!(a.note, None);
}

#[test]
fn db_annotation_update_and_delete_are_scoped() {
    let (mut conn, _) = db_with_rallies("/r.mp4", &[(1000, 5000)]);
    let a = add_annotation(&mut conn, "/r.mp4", 2000, "good").unwrap();
    let b = add_annotation(&mut conn, "/r.mp4", 3000, "bad").unwrap();

    assert!(!update_annotation(&mut conn, "/missing.mp4", a, "good", None, None));
    assert!(!delete_annotation(&mut conn, "/missing.mp4", a));
    assert!(!delete_annotation(&mut conn, "/r.mp4", 9999));
    assert_eq!(verdicts(&conn, "/r.mp4").len(), 2);

    assert!(delete_annotation(&mut conn, "/r.mp4", a));
    assert_eq!(verdicts(&conn, "/r.mp4"), vec![(3000, "bad".to_string())]);
    assert_eq!(recording_annotations(&conn, "/r.mp4")[0].id, b);
}

#[test]
fn db_bundle_carries_a_session_review() {
    let (mut conn, _) = db_with_rallies("r.mp4", &[(1000, 5000), (8000, 12000)]);
    let tl = recording_timeline(&conn, "r.mp4").unwrap();
    set_rally_flag(&mut conn, "r.mp4", tl.rallies[0].id, true);
    add_annotation(&mut conn, "r.mp4", 2000, "good");

    let bundle = build_session_bundle(&conn, 1, "alice").unwrap();
    assert_eq!(bundle.format, BUNDLE_FORMAT);
    assert_eq!(bundle.version, BUNDLE_VERSION);
    assert_eq!(bundle.capture_day, "2026-01-01");
    assert_eq!(bundle.sharer_label, "alice");
    assert_eq!(bundle.recordings.len(), 1);
    let rec = &bundle.recordings[0];
    assert_eq!(rec.path, "r.mp4");
    assert_eq!(rec.rallies.len(), 2);
    assert!(rec.rallies[0].flagged);
    assert!(!rec.rallies[1].flagged);
    assert_eq!(rec.annotations.len(), 1);
    assert_eq!(rec.annotations[0].verdict, "good");
    assert_eq!(rec.duration_ms, Some(100_000));
    assert_eq!(bundle.format, "voloph-session-bundle");

    assert!(build_session_bundle(&conn, 999, "alice").is_none());
}

#[test]
fn db_bundle_file_name_keys_on_day_and_sharer() {
    assert_eq!(
        bundle_file_name("2026-01-01", "alice"),
        "2026-01-01__alice.vbundle"
    );
    assert_eq!(
        bundle_file_name("2026-01-01", "Bob's phone"),
        "2026-01-01__Bob-s-phone.vbundle"
    );
    assert_ne!(
        bundle_file_name("2026-01-01", "alice"),
        bundle_file_name("2026-01-01", "bob")
    );
    assert_eq!(
        bundle_file_name("2026-01-01", "///"),
        "2026-01-01__unnamed.vbundle"
    );
}

#[test]
fn db_receive_registers_and_applies_on_a_fresh_device() {
    let lib = TempLib::new("shared");
    let bundle = shared_bundle(&lib);
    let mut conn = recipient_db(&lib);

    let result = receive_session_bundle(&mut conn, &bundle, &lib.entries()).unwrap();
    assert_eq!(result.applied, 2);
    assert!(result.refused.is_empty());
    assert!(result.conflicts.is_empty());

    let a_abs = absolute(&lib.root, "a.mp4");
    let tl = recording_timeline(&conn, &a_abs).unwrap();
    assert_eq!(tl.rallies.len(), 2);
    assert!(tl.rallies[0].flagged);
    let anns = recording_annotations(&conn, &a_abs);
    assert_eq!(anns.len(), 1);
    assert_eq!(anns[0].aspect.as_deref(), Some("serve-toss"));
    let at = conn
        .recordings
        .iter()
        .find(|r| r.library == "shared" && r.path == "a.mp4")
        .unwrap();
    assert_eq!(at.probe_state, "ready");
    assert_eq!(at.segment_state, "ready");
    assert_eq!(at.duration_ms, Some(60000));
    assert!(aspect_vocabulary(&conn).contains(&"serve-toss".to_string()));

    let again = receive_session_bundle(&mut conn, &bundle, &lib.entries()).unwrap();
    assert_eq!(again.applied, 0);
    assert!(again.refused.is_empty());
    assert!(again.conflicts.is_empty());
}

#[test]
fn db_receive_refuses_a_mismatched_file_and_applies_the_rest() {
    let lib = TempLib::new("shared");
    let bundle = shared_bundle(&lib);
    lib.write("a.mp4", b"tampered-different-length");
    let mut conn = recipient_db(&lib);

    let result = receive_session_bundle(&mut conn, &bundle, &lib.entries()).unwrap();
    assert_eq!(result.applied, 1);
    assert_eq!(result.refused.len(), 1);
    assert!(result.refused[0].path.ends_with("a.mp4"));
    assert!(recording_id(&conn, &absolute(&lib.root, "a.mp4")).is_none());
}

#[test]
fn db_receive_replaces_machine_state_and_offers_conflict_on_hand_touched() {
    let lib = TempLib::new("shared");
    let bundle = shared_bundle(&lib);
    let mut conn = recipient_db(&lib);
    assert_eq!(scan(&mut conn, &[&lib]).registered, 2);
    let a_abs = absolute(&lib.root, "a.mp4");
    let b_abs = absolute(&lib.root, "b.mp4");
    // A machine-only draft on the one, an annotation on the other.
    let b_id = recording_id(&conn, &b_abs).unwrap();
    insert_rally(&mut conn, b_id, 0, 1000, 0.2, false);
    add_annotation(&mut conn, &a_abs, 500, "bad");

    let disk = lib.entries();
    let result = receive_session_bundle(&mut conn, &bundle, &disk).unwrap();
    assert_eq!(result.applied, 1);
    assert_eq!(result.conflicts, vec!["a.mp4".to_string()]);
    assert!(recording_timeline(&conn, &a_abs).unwrap().rallies.is_empty());
    assert_eq!(recording_annotations(&conn, &a_abs).len(), 1);
    assert!(recording_timeline(&conn, &b_abs).unwrap().rallies.is_empty());

    // Keep mine.
    assert!(!resolve_bundle_conflict(&mut conn, &bundle, &disk, "a.mp4", false).unwrap());
    assert_eq!(recording_annotations(&conn, &a_abs).len(), 1);

    // Take theirs.
    assert!(resolve_bundle_conflict(&mut conn, &bundle, &disk, "a.mp4", true).unwrap());
    let tl = recording_timeline(&conn, &a_abs).unwrap();
    assert_eq!(tl.rallies.len(), 2);
    assert!(tl.rallies[0].flagged);
    let anns = recording_annotations(&conn, &a_abs);
    assert_eq!(anns.len(), 1);
    assert_eq!(anns[0].aspect.as_deref(), Some("serve-toss"));
}

#[test]
fn db_receive_rejects_a_non_bundle_and_newer_version() {
    let lib = TempLib::new("shared");
    let mut conn = recipient_db(&lib);
    let nope = SessionBundle {
        format: "nope".to_string(),
        version: 1,
        capture_day: String::new(),
        sharer_label: String::new(),
        recordings: vec![],
    };
    assert!(receive_session_bundle(&mut conn, &nope, &lib.entries()).is_err());
    let newer = SessionBundle {
        format: BUNDLE_FORMAT.to_string(),
        version: BUNDLE_VERSION + 1,
        capture_day: String::new(),
        sharer_label: String::new(),
        recordings: vec![],
    };
    assert!(receive_session_bundle(&mut conn, &newer, &lib.entries()).is_err());
}
