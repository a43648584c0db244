//! Texts, paths, days, fingerprints, ledgers, errors, and what holds across calls.
use voloph::analysis::{analysis_folder, analysis_key_prefix, read_best_analysis};
use voloph::analysis::{Analysis, AnalysisFile, ANALYSIS_FORMAT, ANALYSIS_VERSION};
use voloph::annotations::{add_annotation, aspect_vocabulary, delete_annotation};
use voloph::annotations::{filter_moments, recording_annotations, update_annotation};
use voloph::bundle::{build_session_bundle, bundle_file_name, state_matches_bundle};
use voloph::bundle::{BundleRecording, SessionBundle, BUNDLE_FORMAT, BUNDLE_VERSION};
use voloph::capture_day::{capture_day, day_from_iso, days_to_ymd, refine_capture_day};
use voloph::carry::{carry_key, carry_review, dismiss_carry, dismissed_carries};
use voloph::detect::resolve_from_db;
use voloph::disk::{hash_file, is_present, verify_bundle_file, DiskEntry, FileMeta};
use voloph::export::{rally_cuts, session_cuts};
use voloph::fingerprint::quick_hash;
use voloph::harness::{corpus_library, gather_corpus};
use voloph::ledger::{is_member, look_up, map_with, parse_map, parse_set, set_with};
use voloph::library::{active_kind, designate_library, library_path, meta_get, meta_set};
use voloph::library::{set_active_kind, stored_key, StoreError};
use voloph::media::CaptureDate;
use voloph::numerals::{parse_signed, parse_unsigned};
use voloph::offers::{
    bundle_signature, decline_bundle, declined_bundles, discover_bundles, list_bundles,
};
use voloph::offers::{pending_bundle_paths, BundleFile, FileStamp};
use voloph::path::{absolute, extension, file_name, is_absolute, relative};
use voloph::receive::{may_receive, receive_session_bundle, resolve_bundle_conflict};
use voloph::scan::{cross_library_missing, delete_recording, list_sessions, missing_in_library};
use voloph::scan::{register_recording, rehome_recording, scan_library};
use voloph::schema::{is_video, upgrade, OldLibrary, OldRecording, OldStore};
use voloph::segment::Rally;
use voloph::share::{external_navigation, save_session_bundle_as, share_session_bundle, Navigation};
use voloph::store::{LibraryRow, MetaRow, RallyRow, RecordingRow, SessionRow, Store};
use voloph::text::{contains_text, decimal_text, signed_decimal_text, trim};
use voloph::timeline::{add_rally, delete_rally, is_hand_touched, ordered, recording_id};
use voloph::timeline::{recording_timeline, set_rally_flag, timeline_or_unknown, update_rally};
use voloph::waveform::{parse_waveform, waveform_to_json};
use voloph::work::{reset_all_segmentation, reset_segmentation, save_rallies, MediaWork};
use voloph::work::{next_media_work, set_segment_state, PendingAnalysis};
use voloph::worker::{is_network_mount, record_probe, record_staging_failure, reports_progress};
use voloph::worker::{segments_staged, worker_action, WorkerAction};

const LIB: &str = "/media/shared";

fn file(path: &str, bytes: &[u8]) -> DiskEntry {
    DiskEntry {
        path: path.to_string(),
        is_file: true,
        meta: Some(FileMeta {
            size: bytes.len() as u64,
            modified: 86_400,
            head: Some(bytes.to_vec()),
        }),
    }
}

/// A store whose shared library holds the given files, scanned.
fn scanned(files: &[(&str, &[u8])]) -> (Store, Vec<DiskEntry>) {
    let mut conn = Store::new();
    designate_library(&mut conn, "shared", LIB, "network").unwrap();
    let disk: Vec<DiskEntry> = files
        .iter()
        .map(|(rel, bytes)| file(&absolute(LIB, rel), bytes))
        .collect();
    scan_library(&mut conn, &disk, &disk, &vec![]).unwrap();
    (conn, disk)
}

/// Everything a store holds, as text.
fn snapshot(conn: &Store) -> String {
    let mut out = String::new();
    for SessionRow {
        id,
        capture_day,
        library,
    } in &conn.sessions
    {
        out += &format!("s {id} {capture_day} {library}\n");
    }
    for r in &conn.recordings {
        out += &format!(
            "r {} {} {} {} {} {} {} {} {} {} {:?} {:?} {:?} {}\n",
            r.id,
            r.session_id,
            r.path,
            r.library,
            r.file_size,
            r.quick_hash,
            r.capture_day,
            r.probe_state,
            r.segment_state,
            r.date_state,
            r.duration_ms,
            r.waveform,
            r.segmenter_version,
            r.outside
        );
    }
    for RallyRow {
        id,
        recording_id,
        start_ms,
        end_ms,
        confidence,
        flagged,
    } in &conn.rallies
    {
        out += &format!("x {id} {recording_id} {start_ms} {end_ms} {confidence} {flagged}\n");
    }
    for a in &conn.annotations {
        out += &format!(
            "a {} {} {} {} {:?} {:?}\n",
            a.id, a.recording_id, a.time_ms, a.verdict, a.aspect, a.note
        );
    }
    for LibraryRow {
        id,
        path,
        kind,
        mount,
    } in &conn.libraries
    {
        out += &format!("l {id} {path} {kind} {mount}\n");
    }
    for MetaRow { key, value } in &conn.meta {
        out += &format!("m {key} {value}\n");
    }
    out
}

#[test]
fn numerals_and_texts() {
    assert_eq!(decimal_text(0), "0");
    assert_eq!(decimal_text(1_234_567_890), "1234567890");
    assert_eq!(signed_decimal_text(-42), "-42");
    assert_eq!(signed_decimal_text(i64::MIN), "-9223372036854775808");
    assert_eq!(parse_unsigned("+7", 10), Some(7));
    assert_eq!(parse_unsigned("11", 10), None);
    assert_eq!(parse_unsigned("", 10), None);
    assert_eq!(parse_signed("-9"), Some(-9));
    assert_eq!(parse_signed("9x"), None);
    assert!(contains_text("day1/game.mp4", "1/g"));
    assert!(!contains_text("day1", "day12"));
    assert_eq!(trim(" \t\u{2003}ann b\u{a0}\r\n"), "ann b");
    assert_eq!(trim("\u{200b}"), "\u{200b}");
}

#[test]
fn labels_keep_letters_of_any_script() {
    assert_eq!(bundle_file_name("d", "Zo\u{eb} \u{f1}_1"), "d__Zo\u{eb}-\u{f1}_1.vbundle");
    assert_eq!(bundle_file_name("d", "--a--"), "d__a.vbundle");
}

#[test]
fn paths_join_and_come_apart() {
    assert_eq!(absolute("/lib", "day1/a.mp4"), "/lib/day1/a.mp4");
    assert_eq!(absolute("/lib/", "a.mp4"), "/lib/a.mp4");
    assert_eq!(absolute("/lib", "/other/a.mp4"), "/other/a.mp4");
    assert_eq!(relative("/lib", "/lib/day1/a.mp4").as_deref(), Some("day1/a.mp4"));
    assert_eq!(relative("/lib/", "/lib//day1/./a.mp4").as_deref(), Some("day1/./a.mp4"));
    assert_eq!(relative("/lib", "/library/a.mp4"), None);
    assert_eq!(relative("", "/r.mp4").as_deref(), Some("/r.mp4"));
    for key in ["a.mp4", "day1/a.mp4", "d/.hidden", "a b/c"] {
        assert_eq!(relative("/lib", &absolute("/lib", key)).as_deref(), Some(key));
    }
    assert!(is_absolute("/a") && !is_absolute("a/b"));
    assert_eq!(file_name("/lib/a.vbundle").as_deref(), Some("a.vbundle"));
    assert_eq!(file_name("/"), None);
    assert_eq!(file_name("/lib/.."), None);
    assert_eq!(extension("/lib/a.tar.gz").as_deref(), Some("gz"));
    assert_eq!(extension("/lib/.hidden"), None);
    assert!(is_video("/lib/A.MP4") && is_video("b.mov"));
    assert!(!is_video("/lib/notes.txt") && !is_video("/lib/mp4"));
}

#[test]
fn days_are_counted() {
    assert_eq!(days_to_ymd(0), "1970-01-01");
    assert_eq!(days_to_ymd(-1), "1969-12-31");
    assert_eq!(days_to_ymd(19_782), "2024-02-29");
    assert_eq!(days_to_ymd(11_016), "2000-02-29");
    assert_eq!(capture_day(86_399), "1970-01-01");
    assert_eq!(capture_day(86_400), "1970-01-02");
    assert_eq!(day_from_iso("2024-03-16T00:30:00+0800").as_deref(), Some("2024-03-16"));
    assert_eq!(day_from_iso("2024-13-01T00:00:00Z"), None);
    assert_eq!(day_from_iso("1899-12-31"), None);
    assert_eq!(day_from_iso("2024-3-16"), None);
}

#[test]
fn fingerprints_are_sha256_of_size_and_head() {
    assert_eq!(
        quick_hash(4, &b"aaaa".to_vec()),
        "66701314c834f13a2e923c2ea8f18fe72088b1271485d4698b4fd50ede230314"
    );
    // Only the leading 64 KiB count.
    let long = "9058c7f60b171aca43b936ef6b4613c490742686aa55fffa4b61948be31ed8fb";
    assert_eq!(quick_hash(70_000, &vec![b'x'; 65_536]), long);
    assert_eq!(quick_hash(70_000, &vec![b'x'; 70_000]), long);
}

#[test]
fn files_are_verified_by_fingerprint_and_size() {
    let disk = vec![file("/lib/a.mp4", b"aaaa")];
    let hash = quick_hash(4, &b"aaaa".to_vec());
    assert!(is_present(&disk, "/lib/a.mp4") && !is_present(&disk, "/lib/b.mp4"));
    assert!(verify_bundle_file(&disk, "/lib/a.mp4", &hash, 4));
    assert!(!verify_bundle_file(&disk, "/lib/a.mp4", &hash, 5));
    assert!(!verify_bundle_file(&disk, "/lib/a.mp4", "00", 4));
    assert!(!verify_bundle_file(&disk, "/lib/b.mp4", &hash, 4));
    let meta = FileMeta {
        size: 4,
        modified: 0,
        head: None,
    };
    assert_eq!(hash_file(&meta), None);
}

#[test]
fn ledgers_are_json() {
    let text = map_with(vec![], "b.vbundle".to_string(), "5:7".to_string());
    assert_eq!(text, "{\"b.vbundle\":\"5:7\"}");
    let more = map_with(parse_map(&Some(text)), "a \"q\"".to_string(), "1:2".to_string());
    assert_eq!(more, "{\"a \\\"q\\\"\":\"1:2\",\"b.vbundle\":\"5:7\"}");
    let entries = parse_map(&Some(more));
    assert_eq!(look_up(&entries, "a \"q\"").as_deref(), Some("1:2"));
    assert_eq!(look_up(&entries, "b.vbundle").as_deref(), Some("5:7"));
    assert_eq!(look_up(&entries, "c"), None);
    assert!(parse_map(&Some("not json".to_string())).is_empty());
    assert!(parse_map(&None).is_empty());

    let set = set_with(parse_set(&None), "shared:ff".to_string());
    assert_eq!(set, "[\"shared:ff\"]");
    let set = set_with(parse_set(&Some(set)), "local:00".to_string());
    assert_eq!(set, "[\"local:00\",\"shared:ff\"]");
    assert!(is_member(&parse_set(&Some(set)), "shared:ff"));
    assert!(parse_set(&Some("{}".to_string())).is_empty());
}

#[test]
fn declining_is_remembered_by_signature() {
    let mut conn = Store::new();
    let stamp = FileStamp {
        size: 5,
        modified_nanos: 7,
    };
    assert_eq!(bundle_signature(&stamp), "5:7");
    assert_eq!(
        decline_bundle(&mut conn, "/lib/a.vbundle", None).unwrap_err(),
        "bundle file could not be read"
    );
    assert_eq!(
        decline_bundle(&mut conn, "/", Some(stamp)).unwrap_err(),
        "bad bundle path"
    );
    decline_bundle(&mut conn, "/lib/a.vbundle", Some(stamp)).unwrap();
    assert_eq!(
        meta_get(&conn, "declined_bundles").as_deref(),
        Some("{\"a.vbundle\":\"5:7\"}")
    );
    assert_eq!(
        declined_bundles(&conn),
        vec![("a.vbundle".to_string(), "5:7".to_string())]
    );
}

#[test]
fn bundles_are_listed_with_what_they_carry() {
    let (mut conn, _) = scanned(&[("a.mp4", b"aaaa")]);
    let rec = BundleRecording {
        path: "a.mp4".to_string(),
        quick_hash: String::new(),
        file_size: 4,
        capture_day: "2026-01-01".to_string(),
        duration_ms: None,
        waveform: vec![],
        rallies: vec![],
        annotations: vec![],
    };
    let files = vec![BundleFile {
        path: absolute(LIB, "2026-01-01__bob.vbundle"),
        stamp: Some(FileStamp {
            size: 1,
            modified_nanos: 2,
        }),
        content: Some(SessionBundle {
            format: BUNDLE_FORMAT.to_string(),
            version: BUNDLE_VERSION,
            capture_day: "2026-01-01".to_string(),
            sharer_label: "bob".to_string(),
            recordings: vec![rec],
        }),
    }];
    let list = list_bundles(&conn, &files);
    assert_eq!(list.len(), 1);
    assert_eq!((list[0].recording_count, list[0].rally_count), (1, 0));
    assert!(!list[0].seen);
    assert_eq!(pending_bundle_paths(&conn, &files), vec!["a.mp4".to_string()]);
    decline_bundle(&mut conn, &files[0].path, files[0].stamp).unwrap();
    assert!(list_bundles(&conn, &files)[0].seen);
    assert!(pending_bundle_paths(&conn, &files).is_empty());
    // Under another library nothing is held back.
    set_active_kind(&mut conn, "local");
    assert!(pending_bundle_paths(&conn, &files).is_empty());
}

#[test]
fn days_are_read_from_well_formed_dates_only() {
    let day = day_from_iso("2024-03-15T00:00:00Z");
    assert_eq!(day, Some("2024-03-15".to_string()));
    for garbage in ["2024-+3-15T00:00:00Z", "2024-03-+5", "+024-03-15", "2024-3-015", "2024-03-1"] {
        assert_eq!(day_from_iso(garbage), None);
    }
}

#[test]
fn waveforms_are_read_back() {
    let peaks: Vec<String> = ["0.10", "1", "-2.5e3", "0.00"].iter().map(|p| p.to_string()).collect();
    assert_eq!(waveform_to_json(&peaks), "[0.10,1,-2.5e3,0.00]");
    assert_eq!(parse_waveform(Some(&waveform_to_json(&peaks))), peaks);
    assert_eq!(waveform_to_json(&vec![]), "[]");
    assert!(parse_waveform(Some("[]")).is_empty());
    assert!(parse_waveform(None).is_empty());
    assert_eq!(parse_waveform(Some(" [0.5, 0.7] ")), vec!["0.5", "0.7"]);
    for malformed in ["[0.5, oops, 0.7]", "1,x", "0.5,0.7", "[0.5", "[[0.5]]", "[0.5,]", "]["] {
        assert!(parse_waveform(Some(malformed)).is_empty());
    }
}

#[test]
fn designating_refuses_two_recordings_under_one_key() {
    let (mut conn, _) = scanned(&[("a.mp4", b"aaaa")]);
    let mut twin_id = 0;
    for r in &conn.recordings {
        twin_id = r.id + 1;
    }
    let session_id = conn.recordings[0].session_id;
    conn.recordings.push(RecordingRow {
        id: twin_id,
        session_id,
        path: format!("{LIB}/a.mp4"),
        library: "shared".to_string(),
        file_size: 0,
        quick_hash: String::new(),
        capture_day: "1970-01-02".to_string(),
        probe_state: "unknown".to_string(),
        segment_state: "unknown".to_string(),
        date_state: "unknown".to_string(),
        duration_ms: None,
        waveform: None,
        segmenter_version: None,
        outside: false,
    });
    let before = snapshot(&conn);
    assert_eq!(
        designate_library(&mut conn, "shared", LIB, "network"),
        Err(StoreError::DuplicatePath)
    );
    assert_eq!(snapshot(&conn), before);
}

#[test]
fn refusals_of_the_store_have_a_text() {
    assert_eq!(
        StoreError::DuplicatePath.message(),
        "UNIQUE constraint failed: recordings.library, recordings.path"
    );
    assert_eq!(
        StoreError::UnknownRecording.message(),
        "FOREIGN KEY constraint failed"
    );
}

#[test]
fn drafts_of_unknown_recordings_are_refused() {
    let mut conn = Store::new();
    let rally = Rally {
        start_ms: 0,
        end_ms: 1,
        confidence: 0,
    };
    assert_eq!(
        save_rallies(&mut conn, 9, 1, &vec![rally], &vec![]),
        Err(StoreError::UnknownRecording)
    );
    assert_eq!(save_rallies(&mut conn, 9, 1, &vec![], &vec![]), Ok(()));
}

#[test]
fn designating_again_and_switching_back_change_nothing() {
    let (mut conn, _) = scanned(&[("a.mp4", b"aaaa"), ("d/b.mov", b"bbbb")]);
    let before = snapshot(&conn);
    designate_library(&mut conn, "shared", LIB, "network").unwrap();
    assert_eq!(snapshot(&conn), before);
    set_active_kind(&mut conn, "local");
    assert_eq!(active_kind(&conn), "local");
    assert_eq!(library_path(&conn), None);
    set_active_kind(&mut conn, "shared");
    assert_eq!(snapshot(&conn), before);
    assert_eq!(
        stored_key(&conn, "/media/shared/d/b.mov"),
        Some(("shared".to_string(), "d/b.mov".to_string()))
    );
    assert_eq!(stored_key(&conn, "/elsewhere/b.mov"), None);
}

#[test]
fn scanning_again_changes_nothing() {
    let (mut conn, disk) = scanned(&[("a.mp4", b"aaaa"), ("b.txt", b"bbbb")]);
    let before = snapshot(&conn);
    let (again, published) = scan_library(&mut conn, &disk, &disk, &vec![]).unwrap();
    assert_eq!((again.registered, again.skipped, again.relocated), (0, 1, 0));
    assert!(again.unresolved.is_empty() && published.is_empty());
    assert_eq!(snapshot(&conn), before);
    assert_eq!(list_sessions(&conn)[0].capture_day, "1970-01-02");
}

#[test]
fn lost_recordings_are_told_apart() {
    let (mut conn, disk) = scanned(&[("a.mp4", b"aaaa"), ("b.mp4", b"bbbb")]);
    assert!(missing_in_library(&conn, "shared", LIB, &disk).is_empty());
    let lost = missing_in_library(&conn, "shared", LIB, &vec![]);
    assert_eq!(lost.len(), 2);
    assert!(cross_library_missing(&conn, "shared", &vec![]).is_empty());
    assert_eq!(cross_library_missing(&conn, "local", &vec![]).len(), 2);
    rehome_recording(&mut conn, lost[0].id, "local", "a.mp4");
    assert_eq!(conn.recordings[0].library, "local");
    assert_eq!(conn.sessions.len(), 2);
    register_recording(&mut conn, "local", "c.mp4", 7, "ff", 0);
    let last = conn.recordings.last().unwrap();
    assert_eq!((last.path.as_str(), last.file_size), ("c.mp4", 7));
    assert_eq!(last.capture_day, "1970-01-01");
}

#[test]
fn edits_are_undone_and_count_as_touch() {
    let (mut conn, _) = scanned(&[("a.mp4", b"aaaa"), ("b.mp4", b"bbbb")]);
    let a = absolute(LIB, "a.mp4");
    let id = recording_id(&conn, &a).unwrap();
    let other = recording_id(&conn, &absolute(LIB, "b.mp4")).unwrap();
    let before = snapshot(&conn);

    let rally = add_rally(&mut conn, &a, 9, 3).unwrap();
    assert!(is_hand_touched(&conn, id) && !is_hand_touched(&conn, other));
    assert!(delete_rally(&mut conn, &a, rally));
    assert_eq!(snapshot(&conn), before);

    let note = add_annotation(&mut conn, &a, -5, "good").unwrap();
    assert_eq!(recording_annotations(&conn, &a)[0].time_ms, 0);
    assert!(is_hand_touched(&conn, id));
    assert!(update_annotation(&mut conn, &a, note, "bad", Some("footwork"), None));
    assert!(aspect_vocabulary(&conn).contains(&"footwork".to_string()));
    assert!(delete_annotation(&mut conn, &a, note));
    assert_eq!(snapshot(&conn), before);

    // A refused edit changes nothing.
    assert!(!update_rally(&mut conn, &a, 77, 0, 1));
    assert!(!set_rally_flag(&mut conn, &a, 77, true));
    assert_eq!(snapshot(&conn), before);
    assert_eq!(ordered(7, 3), (3, 7));
}

#[test]
fn drafts_are_dropped_on_request() {
    let (mut conn, _) = scanned(&[("a.mp4", b"aaaa"), ("b.mp4", b"bbbb")]);
    let (a, b) = (absolute(LIB, "a.mp4"), absolute(LIB, "b.mp4"));
    let rally = Rally {
        start_ms: 0,
        end_ms: 10,
        confidence: 1,
    };
    for path in [&a, &b] {
        let id = recording_id(&conn, path).unwrap();
        save_rallies(&mut conn, id, 10, &vec![rally], &vec![]).unwrap();
    }
    reset_segmentation(&mut conn, &a);
    assert_eq!(recording_timeline(&conn, &a).unwrap().segment_state, "unknown");
    assert!(recording_timeline(&conn, &a).unwrap().rallies.is_empty());
    assert_eq!(recording_timeline(&conn, &b).unwrap().rallies.len(), 1);
    reset_all_segmentation(&mut conn);
    assert!(recording_timeline(&conn, &b).unwrap().rallies.is_empty());
}

#[test]
fn received_reviews_are_read_back() {
    let (mut sharer, disk) = scanned(&[("a.mp4", b"aaaa"), ("b.mp4", b"bbbb")]);
    let a = absolute(LIB, "a.mp4");
    add_rally(&mut sharer, &a, 500, 900);
    add_rally(&mut sharer, &a, 100, 200);
    add_annotation(&mut sharer, &a, 150, "good");
    let bundle = build_session_bundle(&sharer, 1, "ann").unwrap();

    let mut conn = Store::new();
    designate_library(&mut conn, "shared", LIB, "network").unwrap();
    let first = receive_session_bundle(&mut conn, &bundle, &disk).unwrap();
    assert_eq!((first.applied, first.conflicts.len()), (2, 0));
    let id = recording_id(&conn, &a).unwrap();
    assert!(state_matches_bundle(&conn, id, &bundle.recordings[0]));
    let spans: Vec<(i64, i64)> = recording_timeline(&conn, &a)
        .unwrap()
        .rallies
        .iter()
        .map(|r| (r.start_ms, r.end_ms))
        .collect();
    assert_eq!(spans, vec![(100, 200), (500, 900)]);
    let after = snapshot(&conn);
    let again = receive_session_bundle(&mut conn, &bundle, &disk).unwrap();
    assert_eq!((again.applied, again.conflicts.len()), (0, 0));
    assert_eq!(snapshot(&conn), after);

    // The recipient's own work is never overwritten unasked.
    add_annotation(&mut conn, &a, 700, "mine");
    let touched = snapshot(&conn);
    let third = receive_session_bundle(&mut conn, &bundle, &disk).unwrap();
    assert_eq!(third.conflicts, vec!["a.mp4".to_string()]);
    assert_eq!(snapshot(&conn), touched);
}

#[test]
fn refused_bundles_say_why() {
    let (mut conn, disk) = scanned(&[("a.mp4", b"aaaa")]);
    let bundle = |format: &str, version: u32| SessionBundle {
        format: format.to_string(),
        version,
        capture_day: String::new(),
        sharer_label: String::new(),
        recordings: vec![],
    };
    assert_eq!(
        receive_session_bundle(&mut conn, &bundle("x", 1), &disk).unwrap_err(),
        "this file is not a Voloph session bundle"
    );
    assert_eq!(
        receive_session_bundle(&mut conn, &bundle(BUNDLE_FORMAT, 12), &disk).unwrap_err(),
        "this bundle is from a newer version of Voloph (format v12)"
    );
    let empty = bundle(BUNDLE_FORMAT, 1);
    assert_eq!(
        receive_session_bundle(&mut Store::new(), &empty, &disk).unwrap_err(),
        "designate the shared library before receiving a bundle"
    );
    assert_eq!(
        resolve_bundle_conflict(&mut conn, &empty, &disk, "a.mp4", true).unwrap_err(),
        "recording not in bundle"
    );

    let own = build_session_bundle(&conn, 1, "ann").unwrap();
    assert_eq!(
        resolve_bundle_conflict(&mut Store::new(), &own, &disk, "a.mp4", true).unwrap_err(),
        "the shared library is not designated"
    );
    assert_eq!(
        resolve_bundle_conflict(&mut conn, &own, &vec![], "a.mp4", true).unwrap_err(),
        "file does not match the bundle: /media/shared/a.mp4"
    );
    let mut fresh = Store::new();
    designate_library(&mut fresh, "shared", LIB, "network").unwrap();
    assert_eq!(
        resolve_bundle_conflict(&mut fresh, &own, &disk, "a.mp4", true).unwrap_err(),
        "Query returned no rows"
    );
    let refused = receive_session_bundle(&mut fresh, &own, &vec![]).unwrap();
    assert_eq!(refused.refused[0].path, "/media/shared/a.mp4");
    assert_eq!(
        refused.refused[0].reason,
        "file does not match the bundle (missing, or different content)"
    );
}

#[test]
fn sharing_names_its_file_and_its_refusals() {
    let (mut conn, _) = scanned(&[("a.mp4", b"aaaa")]);
    let (bundle, path) = share_session_bundle(&mut conn, 1, " Ann ").unwrap();
    assert_eq!(bundle.sharer_label, "Ann");
    assert_eq!(path, "/media/shared/1970-01-02__Ann.vbundle");
    assert_eq!(meta_get(&conn, "sharer_label").as_deref(), Some("Ann"));
    let err = |r: Result<(SessionBundle, String), String>| r.unwrap_err();
    assert_eq!(
        err(share_session_bundle(&mut conn, 1, "  ")),
        "please enter a name to share under"
    );
    assert_eq!(err(share_session_bundle(&mut conn, 9, "Ann")), "session not found");
    set_active_kind(&mut conn, "local");
    assert_eq!(
        err(share_session_bundle(&mut conn, 1, "Ann")),
        "switch to the shared library to share a session"
    );
    assert!(save_session_bundle_as(&mut conn, 1, "Ann").is_ok());
    let mut none = Store::new();
    meta_set(&mut none, "active_library", "shared");
    assert_eq!(
        err(share_session_bundle(&mut none, 1, "Ann")),
        "the shared library is not designated"
    );
}

#[test]
fn links_leave_the_application() {
    let host = |h: &str| Some(h.to_string());
    assert_eq!(external_navigation("https", &host("example.org")), Navigation::Outside);
    assert_eq!(external_navigation("mailto", &None), Navigation::Outside);
    assert_eq!(external_navigation("http", &host("localhost")), Navigation::Inside);
    assert_eq!(external_navigation("tauri", &host("example.org")), Navigation::Inside);
    assert_eq!(external_navigation("asset", &None), Navigation::Inside);
}

#[test]
fn reviews_are_carried_and_dismissals_kept() {
    let (mut conn, _) = scanned(&[("a.mp4", b"aaaa"), ("b.mp4", b"aaaa")]);
    let (a, b) = (absolute(LIB, "a.mp4"), absolute(LIB, "b.mp4"));
    add_rally(&mut conn, &a, 0, 5);
    assert!(carry_review(&mut conn, &a, &b));
    let id = recording_id(&conn, &b).unwrap();
    assert!(is_hand_touched(&conn, id));
    assert!(!carry_review(&mut conn, &a, "/elsewhere.mp4"));
    dismiss_carry(&mut conn, &b);
    let key = carry_key("shared", &quick_hash(4, &b"aaaa".to_vec()));
    assert_eq!(dismissed_carries(&conn), vec![key]);
    let before = snapshot(&conn);
    dismiss_carry(&mut conn, "/elsewhere.mp4");
    assert_eq!(snapshot(&conn), before);
}

#[test]
fn the_highest_readable_analysis_is_best() {
    let analysis = |version: u32, segmenter_version: u32| Analysis {
        format: ANALYSIS_FORMAT.to_string(),
        version,
        segmenter_version,
        capture_day: String::new(),
        duration_ms: None,
        waveform: vec![],
        rallies: vec![],
    };
    let named = |name: &str, content: Option<Analysis>| AnalysisFile {
        name: name.to_string(),
        content,
    };
    let files = vec![
        named("ff_4.vanalysis", Some(analysis(ANALYSIS_VERSION, 1))),
        named("ff_4_s3.vanalysis", Some(analysis(ANALYSIS_VERSION, 3))),
        named("ff_4_s9.vanalysis", Some(analysis(ANALYSIS_VERSION + 1, 9))),
        named("ff_4_s8.vanalysis", None),
        named("ff_42.vanalysis", Some(analysis(ANALYSIS_VERSION, 7))),
    ];
    assert_eq!(read_best_analysis(&files, "ff", 4), Some(1));
    assert_eq!(read_best_analysis(&files, "ff", 42), Some(4));
    assert_eq!(read_best_analysis(&files, "fe", 4), None);
    assert_eq!(analysis_key_prefix("ff", 4), "ff_4");
    assert_eq!(analysis_folder("/lib"), "/lib/.voloph/analysis");
}

#[test]
fn the_worker_takes_work_in_order() {
    let (mut conn, _) = scanned(&[("a.mp4", b"aaaa")]);
    let path = absolute(LIB, "a.mp4");
    assert_eq!(
        next_media_work(&conn, &vec![]),
        Some(MediaWork::CaptureDate(1, path.clone()))
    );
    conn.recordings[0].date_state = "refined".to_string();
    let probe = next_media_work(&conn, &vec![]);
    assert_eq!(probe, Some(MediaWork::Probe(1, path.clone())));
    assert!(matches!(worker_action(probe, true), WorkerAction::StageBatch));
    assert!(record_probe(&mut conn, 1, true));
    let segment = next_media_work(&conn, &vec![]);
    assert!(matches!(worker_action(segment, false), WorkerAction::Segment(1, _)));
    set_segment_state(&mut conn, 1, "failed");
    assert!(matches!(
        worker_action(next_media_work(&conn, &vec![]), false),
        WorkerAction::Stop
    ));
    assert!(is_network_mount(&Some("network".to_string())));
    assert!(!is_network_mount(&None));
    let item = PendingAnalysis {
        id: 1,
        path,
        needs_probe: true,
        needs_segment: true,
    };
    assert!(segments_staged(&item, true) && !segments_staged(&item, false));
    record_staging_failure(&mut conn, &item);
    assert_eq!(conn.recordings[0].probe_state, "failed");
    assert!(!record_probe(&mut conn, 1, false));
    assert!(reports_progress(500) && !reports_progress(499));
}

#[test]
fn cuts_come_from_timelines() {
    let (mut conn, _) = scanned(&[("a.mp4", b"aaaa"), ("b.mp4", b"bbbb")]);
    let (a, b) = (absolute(LIB, "a.mp4"), absolute(LIB, "b.mp4"));
    add_rally(&mut conn, &a, 500, 900);
    let first = add_rally(&mut conn, &a, 100, 200).unwrap();
    add_rally(&mut conn, &b, 0, 50);
    let cuts = rally_cuts(&conn, &a, None).unwrap();
    let spans: Vec<(usize, i64, i64)> = cuts.iter().map(|c| (c.src, c.start_ms, c.end_ms)).collect();
    assert_eq!(spans, vec![(0, 100, 200), (0, 500, 900)]);
    let one = rally_cuts(&conn, &a, Some(&vec![first])).unwrap();
    assert_eq!(one.len(), 1);
    assert!(rally_cuts(&conn, "/elsewhere.mp4", None).is_err());
    let all = session_cuts(&conn, &vec![b, a], None).unwrap();
    let spans: Vec<(usize, i64)> = all.iter().map(|c| (c.src, c.start_ms)).collect();
    assert_eq!(spans, vec![(0, 0), (1, 100), (1, 500)]);
}

#[test]
fn the_corpus_and_dumps_read_the_store() {
    let (mut conn, _) = scanned(&[("b.mp4", b"bbbb"), ("a.mp4", b"aaaa")]);
    add_rally(&mut conn, &absolute(LIB, "a.mp4"), 1, 2);
    let all = gather_corpus(&conn, "shared", LIB);
    assert_eq!(all.len(), 2);
    assert!(all.iter().any(|c| c.rel_path == "a.mp4" && c.hand_corrected));
    let shared = Some("shared".to_string());
    let dumped = resolve_from_db(&conn, &shared, &None, "x.db").unwrap();
    assert_eq!(dumped, ("/media/shared/a.mp4".to_string(), None));
    let err = |kind: &str, filter: Option<&str>| {
        let filter = filter.map(|f| f.to_string());
        resolve_from_db(&conn, &Some(kind.to_string()), &filter, "x.db").unwrap_err()
    };
    assert_eq!(err("local", None), "the 'local' library is not designated in x.db");
    assert_eq!(err("shared", Some("z")), "no recording in 'shared' matched \"z\"");
    let mut empty = Store::new();
    designate_library(&mut empty, "local", "/lib", "local").unwrap();
    assert_eq!(
        resolve_from_db(&empty, &None, &None, "x.db").unwrap_err(),
        "the 'local' library has no recordings"
    );
}

#[test]
fn old_stores_keep_what_they_know() {
    let before = OldStore {
        sessions: vec![],
        recordings: vec![OldRecording {
            id: 3,
            session_id: 1,
            path: "/v/a.mp4".to_string(),
            library: None,
            file_size: 9,
            quick_hash: "ff".to_string(),
            capture_day: "2020-01-01".to_string(),
            probe_state: None,
            transcode_state: Some("failed".to_string()),
            segment_state: None,
            date_state: None,
            duration_ms: Some(7),
            waveform: Some("[1]".to_string()),
            segmenter_version: Some(Some(4)),
            outside: Some(true),
        }],
        rallies: vec![],
        annotations: vec![],
        libraries: vec![OldLibrary {
            id: 1,
            path: "/v".to_string(),
            kind: "local".to_string(),
            mount: None,
        }],
        meta: vec![],
    };
    let after = upgrade(&before);
    let r = &after.recordings[0];
    assert_eq!(r.probe_state, "failed");
    assert_eq!(r.segment_state, "unknown");
    assert_eq!(r.date_state, "unknown");
    assert_eq!((r.duration_ms, r.segmenter_version), (Some(7), Some(4)));
    assert!(r.outside);
    assert_eq!(r.waveform.as_deref(), Some("[1]"));
    assert_eq!(after.libraries[0].mount, "local");
}

#[test]
fn bundles_are_received_in_the_shared_library_only() {
    let (mut conn, _) = scanned(&[]);
    assert_eq!(may_receive(&conn), Ok(()));
    set_active_kind(&mut conn, "local");
    assert_eq!(
        may_receive(&conn).unwrap_err(),
        "switch to the shared library to receive a bundle"
    );
}

#[test]
fn an_unregistered_recording_has_an_unknown_timeline() {
    let (conn, _) = scanned(&[("a.mp4", b"a")]);
    let t = timeline_or_unknown(&conn, "/elsewhere/b.mp4");
    assert_eq!(t.segment_state, "unknown");
    assert_eq!(t.duration_ms, None);
    assert!(t.rallies.is_empty() && t.waveform.is_empty());
    let known = timeline_or_unknown(&conn, &absolute(LIB, "a.mp4"));
    let same = recording_timeline(&conn, &absolute(LIB, "a.mp4")).unwrap();
    assert_eq!(known.segment_state, same.segment_state);
}

#[test]
fn the_corpus_comes_from_a_designated_library() {
    let (conn, _) = scanned(&[]);
    let found = corpus_library(&conn, &None, "x.db").unwrap();
    assert_eq!(found, ("shared".to_string(), LIB.to_string()));
    assert_eq!(
        corpus_library(&conn, &Some("local".to_string()), "x.db").unwrap_err(),
        "the 'local' library is not designated in x.db"
    );
}

#[test]
fn the_queue_drains_whatever_the_outcomes() {
    let files: Vec<(&str, &[u8])> = vec![("a.mp4", b"a"), ("b.mp4", b"b"), ("c.mp4", b"c")];
    let (mut conn, _) = scanned(&files);
    let mut steps = Vec::new();
    while let Some(work) = next_media_work(&conn, &vec![]) {
        match work {
            MediaWork::CaptureDate(id, _) => {
                refine_capture_day(&mut conn, id, &CaptureDate::default(), 0);
                steps.push(format!("date {id}"));
            }
            MediaWork::Probe(id, _) => {
                record_probe(&mut conn, id, id != 2);
                steps.push(format!("probe {id}"));
            }
            MediaWork::Segment(id, _) => {
                if id == 1 {
                    save_rallies(&mut conn, id, 1000, &vec![], &vec![]).unwrap();
                } else {
                    set_segment_state(&mut conn, id, "failed");
                }
                steps.push(format!("segment {id}"));
            }
        }
    }
    let expected = vec![
        "date 1", "date 2", "date 3", "probe 1", "probe 2", "probe 3", "segment 1", "segment 3",
    ];
    assert_eq!(steps, expected);
}

#[test]
fn the_last_edit_stays() {
    let (mut conn, _) = scanned(&[("a.mp4", b"a")]);
    let path = absolute(LIB, "a.mp4");
    let id = add_rally(&mut conn, &path, 0, 1000).unwrap();
    update_rally(&mut conn, &path, id, 100, 900);
    update_rally(&mut conn, &path, id, 700, 200);
    set_rally_flag(&mut conn, &path, id, false);
    set_rally_flag(&mut conn, &path, id, true);
    let once = snapshot(&conn);
    assert!(update_rally(&mut conn, &path, id, 200, 700));
    assert!(set_rally_flag(&mut conn, &path, id, true));
    assert_eq!(snapshot(&conn), once);
}

#[test]
fn filters_combine_and_tell_newest_first() {
    let (mut conn, _) = scanned(&[("a.mp4", b"a"), ("b.mp4", b"b")]);
    for r in &mut conn.recordings {
        r.date_state = "unknown".to_string();
    }
    let day = |text: &str| CaptureDate {
        quicktime_creationdate: None,
        creation_time: Some(text.to_string()),
    };
    refine_capture_day(&mut conn, 1, &day("2026-01-01T10:00:00Z"), 0);
    refine_capture_day(&mut conn, 2, &day("2026-02-01T10:00:00Z"), 0);
    let (a, b) = (absolute(LIB, "a.mp4"), absolute(LIB, "b.mp4"));
    add_rally(&mut conn, &a, 0, 20_000).unwrap();
    let late = add_rally(&mut conn, &b, 30_000, 50_000).unwrap();
    let early = add_rally(&mut conn, &b, 0, 5_000).unwrap();
    set_rally_flag(&mut conn, &b, late, true);
    add_annotation(&mut conn, &b, 1000, "good").unwrap();
    let ids = |found: Vec<voloph::annotations::FilteredRally>| -> Vec<i64> {
        found.iter().map(|r| r.rally_id).collect()
    };
    let all = ids(filter_moments(&conn, None, None, None, None));
    assert_eq!(all, vec![early, late, 1]);
    let long = ids(filter_moments(&conn, None, None, Some(true), None));
    assert_eq!(long, vec![late, 1]);
    let both = ids(filter_moments(&conn, None, None, Some(true), Some(true)));
    assert_eq!(both, vec![late]);
    let good = ids(filter_moments(&conn, Some("good"), None, None, None));
    assert_eq!(good, vec![early]);
    assert!(filter_moments(&conn, Some("good"), None, Some(true), None).is_empty());
}

#[test]
fn scanning_needs_a_designated_library() {
    let mut conn = Store::new();
    let refused = scan_library(&mut conn, &vec![], &vec![], &vec![]);
    assert_eq!(refused.err(), Some(StoreError::NoLibrary));
    assert_eq!(snapshot(&conn), snapshot(&Store::new()));
    designate_library(&mut conn, "shared", LIB, "network").unwrap();
    set_active_kind(&mut conn, "local");
    assert!(scan_library(&mut conn, &vec![], &vec![], &vec![]).is_err());
    assert_eq!(StoreError::NoLibrary.message(), "no library has been designated");
}

#[test]
fn outsiders_of_a_new_folder_stop_appearing_and_come_back() {
    let (mut conn, disk) = scanned(&[("sub/game.mp4", b"game")]);
    let path = absolute(LIB, "sub/game.mp4");
    add_rally(&mut conn, &path, 0, 1000).unwrap();
    let before = snapshot(&conn);
    designate_library(&mut conn, "shared", "/other", "network").unwrap();
    assert!(list_sessions(&conn).is_empty());
    assert_eq!(conn.recordings[0].path, "sub/game.mp4");
    let once = snapshot(&conn);
    designate_library(&mut conn, "shared", "/other", "network").unwrap();
    assert_eq!(snapshot(&conn), once);
    // The old file is still there, but not under the new folder.
    let result = scan_library(&mut conn, &disk, &vec![], &vec![]).unwrap().0;
    assert_eq!(result.unresolved, vec!["/other/sub/game.mp4"]);
    assert!(list_sessions(&conn).is_empty());
    designate_library(&mut conn, "shared", LIB, "network").unwrap();
    let back = scan_library(&mut conn, &disk, &disk, &vec![]).unwrap().0;
    assert_eq!((back.registered, back.skipped, back.relocated), (0, 1, 0));
    assert!(back.unresolved.is_empty());
    assert_eq!(snapshot(&conn), before);
    assert_eq!(list_sessions(&conn)[0].recordings[0].path, path);
}

#[test]
fn a_moved_library_keeps_its_reviews() {
    let (mut conn, _) = scanned(&[("sub/game.mp4", b"game")]);
    add_rally(&mut conn, &absolute(LIB, "sub/game.mp4"), 0, 1000).unwrap();
    designate_library(&mut conn, "shared", "/other", "network").unwrap();
    let nothing = scan_library(&mut conn, &vec![], &vec![], &vec![]).unwrap().0;
    assert_eq!(nothing.unresolved, vec!["/other/sub/game.mp4"]);
    assert!(list_sessions(&conn).is_empty());
    let moved = vec![file("/other/sub/game.mp4", b"game")];
    let result = scan_library(&mut conn, &moved, &moved, &vec![]).unwrap().0;
    assert_eq!((result.registered, result.skipped, result.relocated), (0, 1, 0));
    assert!(result.unresolved.is_empty());
    let sessions = list_sessions(&conn);
    assert_eq!(sessions[0].recordings[0].path, "/other/sub/game.mp4");
    assert_eq!(sessions[0].recordings[0].rally_count, 1);
}

#[test]
fn a_folder_narrowed_and_widened_again_keeps_every_review() {
    let files: [(&str, &[u8]); 2] = [("archive/other.mp4", b"bbbb"), ("moved/game.mp4", b"aaaa")];
    let (mut conn, disk) = scanned(&files);
    let (game, other) = (absolute(LIB, "moved/game.mp4"), absolute(LIB, "archive/other.mp4"));
    add_rally(&mut conn, &game, 0, 1000).unwrap();
    add_rally(&mut conn, &other, 0, 2000).unwrap();
    let before = snapshot(&conn);
    let inner = absolute(LIB, "moved");
    designate_library(&mut conn, "shared", &inner, "network").unwrap();
    let walk = vec![file(&game, b"aaaa")];
    let narrowed = scan_library(&mut conn, &disk, &walk, &vec![]).unwrap().0;
    assert_eq!((narrowed.registered, narrowed.skipped), (0, 1));
    assert_eq!(narrowed.unresolved, vec![absolute(&inner, "archive/other.mp4")]);
    let listed = list_sessions(&conn);
    assert_eq!((listed.len(), listed[0].recordings.len()), (1, 1));
    assert_eq!(listed[0].recordings[0].path, game);
    designate_library(&mut conn, "shared", LIB, "network").unwrap();
    let widened = scan_library(&mut conn, &disk, &disk, &vec![]).unwrap().0;
    assert_eq!((widened.registered, widened.relocated), (0, 1));
    assert!(widened.unresolved.is_empty());
    assert_eq!(snapshot(&conn), before);
}

#[test]
fn a_copy_in_a_new_folder_takes_the_review_along() {
    let (mut conn, mut disk) = scanned(&[("sub/game.mp4", b"game")]);
    add_rally(&mut conn, &absolute(LIB, "sub/game.mp4"), 0, 1000).unwrap();
    designate_library(&mut conn, "shared", "/other", "network").unwrap();
    let walk = vec![file("/other/new/name.mp4", b"game")];
    disk.push(file("/other/new/name.mp4", b"game"));
    let result = scan_library(&mut conn, &disk, &walk, &vec![]).unwrap().0;
    assert_eq!((result.registered, result.relocated), (0, 1));
    assert!(result.unresolved.is_empty());
    let sessions = list_sessions(&conn);
    assert_eq!(sessions[0].recordings[0].path, "/other/new/name.mp4");
    assert_eq!(sessions[0].recordings[0].rally_count, 1);
}

#[test]
fn outsiders_under_absolute_keys_are_passed_over() {
    let (mut conn, disk) = scanned(&[("a.mp4", b"aaaa")]);
    conn.recordings[0].path = "/elsewhere/other.mp4".to_string();
    let nothing = scan_library(&mut conn, &vec![], &vec![], &vec![]).unwrap().0;
    assert!(nothing.unresolved.is_empty());
    let result = scan_library(&mut conn, &disk, &disk, &vec![]).unwrap().0;
    assert_eq!((result.registered, result.relocated), (1, 0));
    assert_eq!(conn.recordings[0].path, "/elsewhere/other.mp4");
    // Nor does a scan of the other library take one over.
    designate_library(&mut conn, "local", "/mine", "local").unwrap();
    let mine = vec![file("/mine/a.mp4", b"aaaa")];
    let both = vec![file("/mine/a.mp4", b"aaaa"), file(&absolute(LIB, "a.mp4"), b"aaaa")];
    let result = scan_library(&mut conn, &both, &mine, &vec![]).unwrap().0;
    assert_eq!((result.registered, result.relocated), (1, 0));
    assert_eq!(conn.recordings[0].path, "/elsewhere/other.mp4");
}

#[test]
fn what_is_reported_lost_can_be_forgotten() {
    let (mut conn, _) = scanned(&[("a.mp4", b"aaaa"), ("b.mp4", b"bbbb")]);
    designate_library(&mut conn, "shared", "/other", "network").unwrap();
    let lost = scan_library(&mut conn, &vec![], &vec![], &vec![]).unwrap().0.unresolved;
    assert_eq!(lost, vec!["/other/a.mp4", "/other/b.mp4"]);
    assert!(delete_recording(&mut conn, &lost[0]));
    let left = scan_library(&mut conn, &vec![], &vec![], &vec![]).unwrap().0.unresolved;
    assert_eq!(left, vec!["/other/b.mp4"]);
}

#[test]
fn bundles_listed_out_of_order_are_received_once() {
    let (mut conn, disk) = scanned(&[("a.mp4", b"aaaa")]);
    add_rally(&mut conn, &absolute(LIB, "a.mp4"), 0, 1000).unwrap();
    add_rally(&mut conn, &absolute(LIB, "a.mp4"), 5000, 6000).unwrap();
    add_annotation(&mut conn, &absolute(LIB, "a.mp4"), 100, "good").unwrap();
    add_annotation(&mut conn, &absolute(LIB, "a.mp4"), 200, "bad").unwrap();
    let session = conn.sessions[0].id;
    let mut bundle = build_session_bundle(&conn, session, "Sam").unwrap();
    bundle.recordings[0].rallies.reverse();
    bundle.recordings[0].annotations.reverse();
    let mut fresh = Store::new();
    designate_library(&mut fresh, "shared", LIB, "network").unwrap();
    let first = receive_session_bundle(&mut fresh, &bundle, &disk).unwrap();
    assert_eq!(first.applied, 1);
    let once = snapshot(&fresh);
    let again = receive_session_bundle(&mut fresh, &bundle, &disk).unwrap();
    assert_eq!((again.applied, again.conflicts.len(), again.refused.len()), (0, 0, 0));
    assert_eq!(snapshot(&fresh), once);
}

#[test]
fn a_second_scan_skips_what_the_first_one_counted() {
    let (mut conn, _) = scanned(&[("a.mp4", b"aaaa"), ("b.mp4", b"bbbb"), ("c.mp4", b"cccc")]);
    let path = |rel: &str| absolute(LIB, rel);
    let disk = vec![
        file(&path("a.mp4"), b"aaaa"),
        file(&path("moved/b.mp4"), b"bbbb"),
        file(&path("new.mp4"), b"dddd"),
    ];
    let first = scan_library(&mut conn, &disk, &disk, &vec![]).unwrap().0;
    assert_eq!((first.registered, first.skipped, first.relocated), (1, 1, 1));
    assert_eq!(first.unresolved, vec![path("c.mp4")]);
    let places: Vec<String> = conn.recordings.iter().map(|r| r.path.clone()).collect();
    let again = scan_library(&mut conn, &disk, &disk, &vec![]).unwrap().0;
    assert_eq!((again.registered, again.skipped, again.relocated), (0, 3, 0));
    assert_eq!(again.unresolved, first.unresolved);
    let after: Vec<String> = conn.recordings.iter().map(|r| r.path.clone()).collect();
    assert_eq!(after, places);
}

#[test]
fn a_bundle_built_by_its_receiver_is_the_one_sent() {
    let (mut conn, disk) = scanned(&[("b.mp4", b"bbbb"), ("a.mp4", b"aaaa")]);
    add_rally(&mut conn, &absolute(LIB, "a.mp4"), 5000, 9000).unwrap();
    let id = add_rally(&mut conn, &absolute(LIB, "a.mp4"), 0, 1000).unwrap();
    set_rally_flag(&mut conn, &absolute(LIB, "a.mp4"), id, true);
    add_annotation(&mut conn, &absolute(LIB, "b.mp4"), 100, "mistake").unwrap();
    let sent = build_session_bundle(&conn, conn.sessions[0].id, "Sam").unwrap();
    let mut fresh = Store::new();
    designate_library(&mut fresh, "shared", LIB, "network").unwrap();
    let received = receive_session_bundle(&mut fresh, &sent, &disk).unwrap();
    assert_eq!(received.applied, 2);
    let back = build_session_bundle(&fresh, fresh.sessions[0].id, "Sam").unwrap();
    assert_eq!(format!("{back:?}"), format!("{sent:?}"));
}

#[test]
fn taking_theirs_ends_the_conflict() {
    let (mut conn, disk) = scanned(&[("a.mp4", b"aaaa")]);
    let path = absolute(LIB, "a.mp4");
    add_rally(&mut conn, &path, 0, 1000).unwrap();
    let theirs = build_session_bundle(&conn, conn.sessions[0].id, "Sam").unwrap();
    let mut mine = scanned(&[("a.mp4", b"aaaa")]).0;
    add_rally(&mut mine, &path, 7000, 8000).unwrap();
    let conflict = receive_session_bundle(&mut mine, &theirs, &disk).unwrap();
    assert_eq!(conflict.conflicts, vec!["a.mp4"]);
    assert!(resolve_bundle_conflict(&mut mine, &theirs, &disk, "a.mp4", true).unwrap());
    let told = recording_timeline(&mine, &path).unwrap().rallies;
    assert_eq!((told.len(), told[0].start_ms, told[0].end_ms), (1, 0, 1000));
    let again = receive_session_bundle(&mut mine, &theirs, &disk).unwrap();
    assert!(again.conflicts.is_empty());
    assert_eq!(again.applied, 0);
}

#[test]
fn redating_moves_a_recording_and_collects_its_session() {
    let (mut conn, _) = scanned(&[("a.mp4", b"aaaa"), ("b.mp4", b"bbbb")]);
    let day = |text: &str| CaptureDate {
        quicktime_creationdate: None,
        creation_time: Some(text.to_string()),
    };
    let days = |conn: &Store| -> Vec<String> {
        conn.sessions.iter().map(|s| s.capture_day.clone()).collect()
    };
    refine_capture_day(&mut conn, 1, &day("2026-01-05T00:00:00Z"), 0);
    assert_eq!(days(&conn), vec!["1970-01-02", "2026-01-05"]);
    refine_capture_day(&mut conn, 2, &day("2026-01-05T00:00:00Z"), 0);
    assert_eq!(days(&conn), vec!["2026-01-05"]);
    assert!(conn.recordings.iter().all(|r| r.session_id == conn.sessions[0].id));
}

#[test]
fn days_follow_each_other_and_ascend() {
    assert_eq!(days_to_ymd(59), "1970-03-01");
    assert_eq!(days_to_ymd(58), "1970-02-28");
    assert_eq!(days_to_ymd(11_016), "2000-02-29");
    assert_eq!(days_to_ymd(11_017), "2000-03-01");
    assert_eq!(days_to_ymd(364), "1970-12-31");
    assert_eq!(days_to_ymd(365), "1971-01-01");
    for n in -1000..20_000 {
        assert!(days_to_ymd(n) < days_to_ymd(n + 1));
    }
}

#[test]
fn bundle_stems_name_themselves() {
    for label in ["Sam Smith!", "--x--", "---", "", "a_b-c"] {
        let name = bundle_file_name("2026-01-05", label);
        let stem = name.strip_prefix("2026-01-05__").unwrap();
        let stem = stem.strip_suffix(".vbundle").unwrap();
        assert!(!stem.starts_with('-') && !stem.ends_with('-'));
        assert_eq!(bundle_file_name("2026-01-05", stem), name);
    }
    assert_eq!(bundle_file_name("d", "Sam Smith!"), "d__Sam-Smith.vbundle");
}

#[test]
fn stripped_keys_lead_back() {
    for path in ["/lib//a/./b.mp4", "/lib/x/", "/lib"] {
        let key = relative("/lib/", path).unwrap();
        let back = absolute("/lib/", &key);
        let parts = |p: &str| -> Vec<String> {
            std::path::Path::new(p).components().map(|c| format!("{c:?}")).collect()
        };
        assert_eq!(parts(&back), parts(path));
    }
}

#[test]
fn declining_one_offer_leaves_the_others() {
    let (mut conn, _) = scanned(&[]);
    let offered = |name: &str, day: &str, label: &str| BundleFile {
        path: absolute(LIB, name),
        stamp: Some(FileStamp {
            size: 1,
            modified_nanos: 2,
        }),
        content: Some(SessionBundle {
            format: BUNDLE_FORMAT.to_string(),
            version: BUNDLE_VERSION,
            capture_day: day.to_string(),
            sharer_label: label.to_string(),
            recordings: vec![],
        }),
    };
    let files = vec![
        offered("c.vbundle", "2026-01-03", "Kim"),
        offered("b.vbundle", "2026-01-01", "Lee"),
        offered("a.vbundle", "2026-01-01", "Ann"),
    ];
    let paths = |conn: &Store| -> Vec<String> {
        let offers = discover_bundles(conn, &files);
        offers.iter().map(|o| o.bundle_path.clone()).collect()
    };
    let [a, b, c] = ["a.vbundle", "b.vbundle", "c.vbundle"].map(|n| absolute(LIB, n));
    assert_eq!(paths(&conn), vec![a.clone(), b.clone(), c.clone()]);
    decline_bundle(&mut conn, &b, files[1].stamp).unwrap();
    assert_eq!(paths(&conn), vec![a, c]);
}

#[test]
fn the_local_library_is_always_mounted_locally() {
    let mut conn = Store::new();
    designate_library(&mut conn, "local", "/lib", "network").unwrap();
    designate_library(&mut conn, "shared", LIB, "network").unwrap();
    let mounts: Vec<&str> = conn.libraries.iter().map(|l| l.mount.as_str()).collect();
    assert_eq!(mounts, vec!["local", "network"]);
}

#[test]
fn a_review_carried_onto_itself_stays() {
    let (mut conn, _) = scanned(&[("a.mp4", b"aaaa")]);
    let path = absolute(LIB, "a.mp4");
    add_rally(&mut conn, &path, 0, 1000).unwrap();
    add_annotation(&mut conn, &path, 100, "good").unwrap();
    assert!(carry_review(&mut conn, &path, &path));
    assert_eq!(recording_timeline(&conn, &path).unwrap().rallies.len(), 1);
    assert_eq!(recording_annotations(&conn, &path).len(), 1);
}

#[test]
fn only_numbered_siblings_are_analyses_of_a_content() {
    let named = |name: &str, version: u32| AnalysisFile {
        name: name.to_string(),
        content: Some(Analysis {
            format: ANALYSIS_FORMAT.to_string(),
            version: ANALYSIS_VERSION,
            segmenter_version: version,
            capture_day: "2026-01-01".to_string(),
            duration_ms: None,
            waveform: vec![],
            rallies: vec![],
        }),
    };
    let files = vec![
        named("h_5.vanalysis", 1),
        named("h_5_s12.vanalysis", 12),
        named("h_5_sx.vanalysis", 99),
        named("h_5_s.vanalysis", 98),
        named("h_55_s9.vanalysis", 97),
        named("h_5_s3.vanalysis.tmp", 96),
    ];
    assert_eq!(read_best_analysis(&files, "h", 5), Some(1));
}
