//! Registering recordings referenced in place: the library scan and its
//! reconciliation of moved files, the nested session listing, and forgetting a
//! recording.
use vstd::prelude::*;

use crate::analysis::{
    adopt_analyses, analyses_adopted, missing_publications, publish_missing_analyses, total_rallies,
    AnalysisFile, AnalysisFileView, Publication,
};
use crate::bundle::by_path;
use crate::capture_day::{capture_day, day_of_moment};
use crate::disk::{
    exists_at, hash_file, hash_of, is_present, stored_size, DiskEntry, DiskEntryView, FileMeta,
    FileMetaView,
};
use crate::grouping::{
    amend, collect_session, ensure_session, find_id, pushed_below, register, registered,
    rewritten_below, session_id_on, with_session, with_session_below, without_empty,
};
use crate::library::{active_kind, library_path_of, StoreError};
use crate::path::{absolute, is_absolute, joined, relative, rooted, stripped};
use crate::schema::{is_video, video_path};
use crate::store::{
    annotations_not_of, next_recording, next_session, rallies_below, rallies_not_of, rallies_of,
    recording_at, recording_with, recordings_below, recordings_in, sessions_below, AnnotationRow,
    LibraryView, RallyRow, RecordingRow, RecordingView, SessionRow, SessionView, Store, StoreView,
};
use crate::table::{
    any, each, filter_elements, first, keep, position, rewrite, sort_by, sorted, Row,
};
use crate::text::{before, same, text_before};
use crate::timeline::{locate, row_at};
use crate::work::{requeue_stale, stale_requeued};

verus! {

/// A recording referenced in place on disk.
#[derive(Debug)]
pub struct Recording {
    pub id: i64,
    /// Absolute path.
    pub path: String,
    pub file_size: i64,
    pub quick_hash: String,
    pub capture_day: String,
    /// `unknown`, `ready` or `failed`.
    pub probe_state: String,
    /// `unknown`, `ready` or `failed`.
    pub segment_state: String,
    /// Recording duration, once segmented.
    pub duration_ms: Option<i64>,
    /// Number of rallies in the draft timeline.
    pub rally_count: i64,
}

/// A session: one capture day, holding one or more recordings.
#[derive(Debug)]
pub struct Session {
    pub id: i64,
    pub capture_day: String,
    pub recordings: Vec<Recording>,
}

/// Summary of a scan pass.
#[derive(Debug)]
pub struct ScanResult {
    pub registered: usize,
    pub skipped: usize,
    /// Known recordings re-linked after being moved or renamed.
    pub relocated: usize,
    /// Absolute paths of known recordings that were not found; their rows stay.
    pub unresolved: Vec<String>,
}

/// Whether a recording of a library is lost: stored under a relative key that
/// nothing is found at.
pub open spec fn lost(kind: Seq<char>, folder: Seq<char>, disk: Seq<DiskEntryView>) -> spec_fn(
    RecordingView,
) -> bool {
    |r: RecordingView|
        r.library == kind && !rooted(r.path) && !exists_at(disk, joined(folder, r.path))
}

/// The recordings of the library of `kind` that are no longer found under its
/// folder.
pub fn missing_in_library(
    conn: &Store,
    kind: &str,
    folder: &str,
    disk: &Vec<DiskEntry>,
) -> (r: Vec<RecordingRow>)
    ensures
        r.deep_view() == conn@.recordings.filter(lost(kind@, folder@, disk.deep_view())),
{
    let ghost dv = disk.deep_view();
    keep(
        &conn.recordings,
        |r: &RecordingRow| -> (b: bool)
            ensures
                b == lost(kind@, folder@, dv)(r.deep_view())
            {
                same(&r.library, kind) && !is_absolute(&r.path) && !is_present(
                    disk,
                    &absolute(folder, &r.path),
                )
            },
        Ghost(lost(kind@, folder@, dv)),
    )
}

/// The lost recordings of every library of `libraries` but the active one.
pub open spec fn lost_elsewhere(
    d: StoreView,
    libraries: Seq<LibraryView>,
    active: Seq<char>,
    disk: Seq<DiskEntryView>,
) -> Seq<RecordingView>
    decreases libraries.len(),
{
    if libraries.len() == 0 {
        Seq::empty()
    } else {
        let l = libraries.last();
        let rest = lost_elsewhere(d, libraries.drop_last(), active, disk);
        if l.kind == active {
            rest
        } else {
            rest + d.recordings.filter(lost(l.kind, l.path, disk))
        }
    }
}

/// The lost recordings of the other libraries: candidates for a move between
/// libraries. One whose file is still there is a copy, and not among them.
pub fn cross_library_missing(conn: &Store, active: &str, disk: &Vec<DiskEntry>) -> (r: Vec<
    RecordingRow,
>)
    ensures
        r.deep_view() == lost_elsewhere(conn@, conn@.libraries, active@, disk.deep_view()),
{
    let ghost dv = disk.deep_view();
    let ghost libs = conn@.libraries;
    let mut out: Vec<RecordingRow> = Vec::new();
    let mut i: usize = 0;
    assert(libs.take(0) =~= Seq::empty());
    assert(out.deep_view() =~= Seq::empty());
    while i < conn.libraries.len()
        invariant
            i <= conn.libraries@.len(),
            libs == conn@.libraries,
            dv == disk.deep_view(),
            out.deep_view() == lost_elsewhere(conn@, libs.take(i as int), active@, dv),
        decreases conn.libraries@.len() - i,
    {
        let l = &conn.libraries[i];
        proof {
            assert(libs.take(i + 1).drop_last() =~= libs.take(i as int));
            assert(libs.take(i + 1).last() == l.deep_view());
        }
        if !same(&l.kind, active) {
            let mut more = missing_in_library(conn, &l.kind, &l.path, disk);
            let ghost a = out.deep_view();
            let ghost b = more.deep_view();
            out.append(&mut more);
            assert(out.deep_view() =~= a + b);
        }
        i += 1;
    }
    assert(libs.take(i as int) =~= libs);
    out
}

/// The recordings with a content: its size and its fingerprint.
pub open spec fn with_content(file_size: i64, quick_hash: Seq<char>) -> spec_fn(
    RecordingView,
) -> bool {
    |r: RecordingView| r.file_size == file_size && r.quick_hash == quick_hash
}

/// Every recording but the one with an id.
pub open spec fn other_than(id: i64) -> spec_fn(RecordingView) -> bool {
    |r: RecordingView| r.id != id
}

/// A recording found under a new key.
pub open spec fn relinked(path: Seq<char>) -> spec_fn(RecordingView) -> RecordingView {
    |r: RecordingView| RecordingView { path, outside: false, ..r }
}

/// A recording found in a library under a new key, in a session of it.
pub open spec fn moved_to(kind: Seq<char>, path: Seq<char>, session: i64) -> spec_fn(
    RecordingView,
) -> RecordingView {
    |r: RecordingView|
        RecordingView { path, library: kind, session_id: session, outside: false, ..r }
}

/// The store after a recording is re-homed into a library: under the session of
/// its own day there, created if needed, the session that it emptied collected.
pub open spec fn rehomed(d: StoreView, id: i64, kind: Seq<char>, path: Seq<char>) -> StoreView {
    match first(d.recordings, recording_with(id)) {
        Some(row) => {
            let session = session_id_on(d.sessions, kind, row.capture_day);
            let sessions = with_session(d.sessions, kind, row.capture_day);
            let recordings = rewrite(
                d.recordings,
                recording_with(id),
                moved_to(kind, path, session),
            );
            StoreView {
                recordings,
                sessions: if row.session_id != session {
                    without_empty(sessions, recordings, row.session_id)
                } else {
                    sessions
                },
                ..d
            }
        },
        None => d,
    }
}

/// Re-home a recording into the library of `kind` under a key, carrying its
/// review.
pub fn rehome_recording(conn: &mut Store, id: i64, kind: &str, rel: &str)
    requires
        next_session(old(conn)@.sessions) <= i64::MAX,
    ensures
        final(conn)@ == rehomed(old(conn)@, id, kind@, rel@),
        old(conn)@.wf() && !any(old(conn)@.recordings, recording_at(kind@, rel@))
            ==> final(conn)@.wf(),
{
    proof {
        if conn@.wf() && !any(conn@.recordings, recording_at(kind@, rel@)) {
            crate::upkeep::rehomed_wf(conn@, id, kind@, rel@);
        }
    }
    let at = match find_id(conn, id) {
        Some(i) => i,
        None => {
            return;
        },
    };
    let old_session = conn.recordings[at].session_id;
    let day = conn.recordings[at].capture_day.clone();
    let session = ensure_session(conn, kind, &day);
    let ghost g = moved_to(kind@, rel@, session);
    amend(
        conn,
        id,
        |r: &RecordingRow| -> (n: RecordingRow)
            ensures
                n.deep_view() == g(r.deep_view())
            {
                let mut n = r.dup();
                n.path = rel.to_owned();
                n.library = kind.to_owned();
                n.session_id = session;
                n.outside = false;
                n
            },
        Ghost(g),
    );
    if old_session != session {
        collect_session(conn, old_session);
    }
    assert(conn@ =~= rehomed(old(conn)@, id, kind@, rel@));
}

/// Register a fresh video as a recording, grouped into the session of its
/// provisional capture day.
pub fn register_recording(
    conn: &mut Store,
    kind: &str,
    rel: &str,
    file_size: i64,
    hash: &str,
    modified: i64,
)
    requires
        next_session(old(conn)@.sessions) <= i64::MAX,
        next_recording(old(conn)@.recordings) <= i64::MAX,
    ensures
        final(conn)@ == registered(
            old(conn)@,
            kind@,
            rel@,
            file_size,
            hash@,
            day_of_moment(modified as int),
        ),
        old(conn)@.wf() && !any(old(conn)@.recordings, recording_at(kind@, rel@))
            ==> final(conn)@.wf(),
{
    proof {
        if conn@.wf() && !any(conn@.recordings, recording_at(kind@, rel@)) {
            crate::upkeep::registered_wf(
                conn@,
                kind@,
                rel@,
                file_size,
                hash@,
                day_of_moment(modified as int),
            );
        }
    }
    let day = capture_day(modified);
    register(conn, kind, rel, file_size, hash, &day);
}

/// How far a scan has come.
#[verifier::ext_equal]
pub struct ScanView {
    pub store: StoreView,
    /// Lost recordings of the active library that are still unmatched.
    pub missing: Seq<RecordingView>,
    /// Lost recordings of the other libraries that are still unmatched.
    pub cross: Seq<RecordingView>,
    pub registered: nat,
    pub skipped: nat,
    pub relocated: nat,
}

/// The fingerprint that a file is matched by: none where it could not be read.
pub open spec fn hash_or_none(meta: FileMetaView) -> Seq<char> {
    match hash_of(meta) {
        Some(h) => h,
        None => Seq::empty(),
    }
}

/// A video that is not registered under its key: a lost recording of the library
/// that was moved inside of it, or one of another library that was moved here, or
/// a new recording.
pub open spec fn file_met(
    s: ScanView,
    kind: Seq<char>,
    rel: Seq<char>,
    meta: FileMetaView,
) -> ScanView {
    let p = with_content(stored_size(meta.size), hash_or_none(meta));
    match first(s.missing, p) {
        Some(r) => ScanView {
            store: StoreView {
                recordings: rewrite(s.store.recordings, recording_with(r.id), relinked(rel)),
                ..s.store
            },
            missing: s.missing.filter(other_than(r.id)),
            relocated: s.relocated + 1,
            ..s
        },
        None => match first(s.cross, p) {
            Some(r) => ScanView {
                store: rehomed(s.store, r.id, kind, rel),
                cross: s.cross.filter(other_than(r.id)),
                relocated: s.relocated + 1,
                ..s
            },
            None => ScanView {
                store: registered(
                    s.store,
                    kind,
                    rel,
                    stored_size(meta.size),
                    hash_or_none(meta),
                    day_of_moment(meta.modified as int),
                ),
                registered: s.registered + 1,
                ..s
            },
        },
    }
}

/// One entry of the walk: passed over unless it is a video file under the
/// library's folder, skipped where it is registered, and else matched.
pub open spec fn entry_met(
    s: ScanView,
    kind: Seq<char>,
    folder: Seq<char>,
    e: DiskEntryView,
) -> ScanView {
    if !e.is_file || !video_path(e.path) {
        s
    } else {
        match stripped(folder, e.path) {
            None => s,
            Some(rel) => if any(s.store.recordings, recording_at(kind, rel)) {
                ScanView { skipped: s.skipped + 1, ..s }
            } else {
                match e.meta {
                    None => s,
                    Some(meta) => file_met(s, kind, rel, meta),
                }
            },
        }
    }
}

/// A scan before its walk.
pub open spec fn scan_start(
    d: StoreView,
    kind: Seq<char>,
    folder: Seq<char>,
    disk: Seq<DiskEntryView>,
) -> ScanView {
    ScanView {
        store: d,
        missing: d.recordings.filter(lost(kind, folder, disk)),
        cross: lost_elsewhere(d, d.libraries, kind, disk),
        registered: 0,
        skipped: 0,
        relocated: 0,
    }
}

/// A scan after its walk.
pub open spec fn walked(
    d: StoreView,
    kind: Seq<char>,
    folder: Seq<char>,
    disk: Seq<DiskEntryView>,
    walk: Seq<DiskEntryView>,
) -> ScanView
    decreases walk.len(),
{
    if walk.len() == 0 {
        scan_start(d, kind, folder, disk)
    } else {
        entry_met(walked(d, kind, folder, disk, walk.drop_last()), kind, folder, walk.last())
    }
}

/// A recording of a library whose file is found under its folder is not outside.
pub open spec fn noticed(kind: Seq<char>, folder: Seq<char>, disk: Seq<DiskEntryView>) -> spec_fn(
    RecordingView,
) -> RecordingView {
    |r: RecordingView|
        if r.library == kind && exists_at(disk, joined(folder, r.path)) {
            RecordingView { outside: false, ..r }
        } else {
            r
        }
}

/// The store after every recording of a library that is found under its folder was
/// noticed.
pub open spec fn all_noticed(
    d: StoreView,
    kind: Seq<char>,
    folder: Seq<char>,
    disk: Seq<DiskEntryView>,
) -> StoreView {
    StoreView { recordings: d.recordings.map_values(noticed(kind, folder, disk)), ..d }
}

/// The store after a scan: the walk, after which whatever is found under the folder
/// appears, then the adoption of published Analyses, then the requeueing of stale
/// drafts.
pub open spec fn scanned(
    d: StoreView,
    disk: Seq<DiskEntryView>,
    walk: Seq<DiskEntryView>,
    files: Seq<AnalysisFileView>,
) -> StoreView {
    let kind = d.active_kind();
    match d.library_path_of(kind) {
        Some(folder) => stale_requeued(
            analyses_adopted(
                all_noticed(walked(d, kind, folder, disk, walk).store, kind, folder, disk),
                files,
            ),
            kind,
        ),
        None => d,
    }
}

/// The absolute path of a recording in a library.
pub open spec fn path_in(library: Seq<char>) -> spec_fn(RecordingView) -> Seq<char> {
    |r: RecordingView| joined(library, r.path)
}

/// Texts in ascending order.
pub open spec fn text_order() -> spec_fn(Seq<char>, Seq<char>) -> bool {
    |a: Seq<char>, b: Seq<char>| text_before(a, b)
}

/// The recordings that a scan could not find, as ascending absolute paths.
pub open spec fn unresolved_paths(s: ScanView, library: Seq<char>) -> Seq<Seq<char>> {
    sort_by(s.missing.map_values(path_in(library)), text_order())
}

/// Whether every id stays in range during a scan.
pub open spec fn scan_fits(
    d: StoreView,
    walk: Seq<DiskEntryView>,
    files: Seq<AnalysisFileView>,
) -> bool {
    &&& sessions_below(d.sessions, i64::MAX - walk.len())
    &&& recordings_below(d.recordings, i64::MAX - walk.len())
    &&& rallies_below(
        d.rallies,
        i64::MAX - (d.recordings.len() + walk.len()) * total_rallies(files),
    )
}

/// What a scan has come to, in executable form.
struct ScanState {
    missing: Vec<RecordingRow>,
    cross: Vec<RecordingRow>,
    registered: usize,
    skipped: usize,
    relocated: usize,
}

/// What a scan has come to.
spec fn view_of(conn: StoreView, s: ScanState) -> ScanView {
    ScanView {
        store: conn,
        missing: s.missing.deep_view(),
        cross: s.cross.deep_view(),
        registered: s.registered as nat,
        skipped: s.skipped as nat,
        relocated: s.relocated as nat,
    }
}

/// The first of some recordings with a content.
fn find_content(rows: &Vec<RecordingRow>, file_size: i64, hash: &str) -> (r: Option<i64>)
    ensures
        match (r, first(rows.deep_view(), with_content(file_size, hash@))) {
            (Some(id), Some(row)) => id == row.id,
            (None, None) => true,
            _ => false,
        },
{
    match position(
        rows,
        |r: &RecordingRow| -> (b: bool)
            ensures
                b == (r.file_size == file_size && r.quick_hash@ == hash@)
            { r.file_size == file_size && same(&r.quick_hash, hash) },
        Ghost(with_content(file_size, hash@)),
    ) {
        Some(i) => Some(rows[i].id),
        None => None,
    }
}

/// The recordings but the one with an id.
fn drop_id(rows: &Vec<RecordingRow>, id: i64) -> (r: Vec<RecordingRow>)
    ensures
        r.deep_view() == rows.deep_view().filter(other_than(id)),
{
    keep(
        rows,
        |r: &RecordingRow| -> (b: bool)
            ensures
                b == (r.id != id)
            { r.id != id },
        Ghost(other_than(id)),
    )
}

/// Collecting a session keeps ids below a bound.
proof fn without_empty_below(
    s: Seq<SessionView>,
    recordings: Seq<RecordingView>,
    id: i64,
    bound: int,
)
    requires
        sessions_below(s, bound),
    ensures
        sessions_below(without_empty(s, recordings, id), bound),
{
    let p = crate::grouping::other_sessions(id);
    filter_elements(s, p);
    let t = without_empty(s, recordings, id);
    assert forall|i: int| 0 <= i < t.len() implies (#[trigger] t[i]).id < bound by {
        assert(s.contains(t[i]));
        let k = choose|k: int| 0 <= k < s.len() && s[k] == t[i];
        assert(s[k].id < bound);
    }
}

/// Taking in one file uses up at most one id of each table.
proof fn file_met_fits(s: ScanView, kind: Seq<char>, rel: Seq<char>, meta: FileMetaView, bound: int)
    requires
        sessions_below(s.store.sessions, bound),
        recordings_below(s.store.recordings, bound),
        bound <= i64::MAX,
    ensures
        sessions_below(file_met(s, kind, rel, meta).store.sessions, bound + 1),
        recordings_below(file_met(s, kind, rel, meta).store.recordings, bound + 1),
        file_met(s, kind, rel, meta).store.recordings.len() <= s.store.recordings.len() + 1,
        file_met(s, kind, rel, meta).store.rallies == s.store.rallies,
        next_session(s.store.sessions) <= bound,
        next_recording(s.store.recordings) <= bound,
{
    let d = s.store;
    let p = with_content(stored_size(meta.size), hash_or_none(meta));
    if d.sessions.len() > 0 {
        assert(d.sessions[d.sessions.len() - 1].id < bound);
    }
    if d.recordings.len() > 0 {
        assert(d.recordings[d.recordings.len() - 1].id < bound);
    }
    if let Some(r) = first(s.missing, p) {
        rewritten_below(d.recordings, recording_with(r.id), relinked(rel), bound);
    } else if let Some(r) = first(s.cross, p) {
        if let Some(row) = first(d.recordings, recording_with(r.id)) {
            let session = session_id_on(d.sessions, kind, row.capture_day);
            with_session_below(d.sessions, kind, row.capture_day, bound);
            rewritten_below(
                d.recordings,
                recording_with(r.id),
                moved_to(kind, rel, session),
                bound,
            );
            without_empty_below(
                with_session(d.sessions, kind, row.capture_day),
                rewrite(d.recordings, recording_with(r.id), moved_to(kind, rel, session)),
                row.session_id,
                bound + 1,
            );
        }
    } else {
        let day = day_of_moment(meta.modified as int);
        with_session_below(d.sessions, kind, day, bound);
        let t = registered(d, kind, rel, stored_size(meta.size), hash_or_none(meta), day);
        pushed_below(d.recordings, t.recordings.last(), bound);
    }
}

/// Take in a video that is not registered under its key.
fn meet_file(
    conn: &mut Store,
    s: &mut ScanState,
    kind: &str,
    rel: &str,
    meta: &FileMeta,
    Ghost(bound): Ghost<int>,
)
    requires
        sessions_below(old(conn)@.sessions, bound),
        recordings_below(old(conn)@.recordings, bound),
        bound < i64::MAX,
        old(s).registered < usize::MAX,
        old(s).relocated < usize::MAX,
    ensures
        view_of(final(conn)@, *final(s)) == file_met(
            view_of(old(conn)@, *old(s)),
            kind@,
            rel@,
            meta.deep_view(),
        ),
{
    let ghost before_view = view_of(conn@, *s);
    let hash = match hash_file(meta) {
        Some(h) => h,
        None => String::new(),
    };
    assert(hash@ =~= hash_or_none(meta.deep_view()));
    let size: i64 = meta.size as i64;
    proof {
        file_met_fits(before_view, kind@, rel@, meta.deep_view(), bound);
    }
    if let Some(id) = find_content(&s.missing, size, &hash) {
        let ghost g = relinked(rel@);
        amend(
            conn,
            id,
            |r: &RecordingRow| -> (n: RecordingRow)
                ensures
                    n.deep_view() == g(r.deep_view())
                {
                    let mut n = r.dup();
                    n.path = rel.to_owned();
                    n.outside = false;
                    n
                },
            Ghost(g),
        );
        s.missing = drop_id(&s.missing, id);
        s.relocated = s.relocated + 1;
    } else if let Some(id) = find_content(&s.cross, size, &hash) {
        rehome_recording(conn, id, kind, rel);
        s.cross = drop_id(&s.cross, id);
        s.relocated = s.relocated + 1;
    } else {
        register_recording(conn, kind, rel, size, &hash, meta.modified);
        s.registered = s.registered + 1;
    }
    assert(view_of(conn@, *s) =~= file_met(before_view, kind@, rel@, meta.deep_view()));
}

/// Take in one entry of the walk.
fn meet_entry(
    conn: &mut Store,
    s: &mut ScanState,
    kind: &str,
    folder: &str,
    e: &DiskEntry,
    Ghost(bound): Ghost<int>,
)
    requires
        sessions_below(old(conn)@.sessions, bound),
        recordings_below(old(conn)@.recordings, bound),
        bound < i64::MAX,
        old(s).registered < usize::MAX,
        old(s).relocated < usize::MAX,
        old(s).skipped < usize::MAX,
    ensures
        view_of(final(conn)@, *final(s)) == entry_met(
            view_of(old(conn)@, *old(s)),
            kind@,
            folder@,
            e.deep_view(),
        ),
{
    let ghost before_view = view_of(conn@, *s);
    if !e.is_file || !is_video(&e.path) {
        return;
    }
    let rel = match relative(folder, &e.path) {
        Some(r) => r,
        None => {
            return;
        },
    };
    let known = position(
        &conn.recordings,
        |r: &RecordingRow| -> (b: bool)
            ensures
                b == (r.library@ == kind@ && r.path@ == rel@)
            { same(&r.library, kind) && same(&r.path, &rel) },
        Ghost(recording_at(kind@, rel@)),
    ).is_some();
    if known {
        s.skipped = s.skipped + 1;
        assert(view_of(conn@, *s) =~= entry_met(before_view, kind@, folder@, e.deep_view()));
        return;
    }
    if let Some(meta) = &e.meta {
        meet_file(conn, s, kind, &rel, meta, Ghost(bound));
    }
}

/// One entry uses up at most one id of each table.
pub(crate) proof fn entry_met_fits(
    s: ScanView,
    kind: Seq<char>,
    folder: Seq<char>,
    e: DiskEntryView,
    bound: int,
)
    requires
        sessions_below(s.store.sessions, bound),
        recordings_below(s.store.recordings, bound),
        bound <= i64::MAX,
    ensures
        sessions_below(entry_met(s, kind, folder, e).store.sessions, bound + 1),
        recordings_below(entry_met(s, kind, folder, e).store.recordings, bound + 1),
        entry_met(s, kind, folder, e).store.recordings.len() <= s.store.recordings.len() + 1,
        entry_met(s, kind, folder, e).store.rallies == s.store.rallies,
        entry_met(s, kind, folder, e).registered + entry_met(s, kind, folder, e).skipped
            + entry_met(s, kind, folder, e).relocated <= s.registered + s.skipped + s.relocated + 1,
{
    if let Some(rel) = stripped(folder, e.path) {
        if let Some(meta) = e.meta {
            file_met_fits(s, kind, rel, meta, bound);
        }
    }
}

/// Let every recording of the library of `kind` that is found under its folder
/// appear.
fn notice_found(conn: &mut Store, kind: &str, folder: &str, disk: &Vec<DiskEntry>)
    ensures
        final(conn)@ == all_noticed(old(conn)@, kind@, folder@, disk.deep_view()),
{
    let ghost g = noticed(kind@, folder@, disk.deep_view());
    conn.recordings =
    each(
        &conn.recordings,
        |r: &RecordingRow| -> (n: RecordingRow)
            ensures
                n.deep_view() == g(r.deep_view())
            {
                let mut n = r.dup();
                if same(&r.library, kind) && is_present(disk, &absolute(folder, &r.path)) {
                    n.outside = false;
                }
                n
            },
        Ghost(g),
    );
}

/// Walk the active library, register any video files as recordings with a
/// library-relative identity, and group them into sessions by capture day. Files
/// already registered are left untouched. A video that matches a known recording
/// whose own file has gone, by fingerprint and size, is that recording moved or
/// renamed: its row is re-linked, or re-homed where it was in another library, so
/// its whole review follows it. What was left outside of the library and is found
/// under it appears again. Published Analyses are then adopted, and stale
/// drafts queued again. Known recordings still absent are reported, not deleted.
/// Also returned is what is missing on the shared library's disk. Refused, with
/// nothing changed, when the active library has not been designated.
pub fn scan_library(
    conn: &mut Store,
    disk: &Vec<DiskEntry>,
    walk: &Vec<DiskEntry>,
    files: &Vec<AnalysisFile>,
) -> (r: Result<(ScanResult, Vec<Publication>), StoreError>)
    requires
        scan_fits(old(conn)@, walk.deep_view(), files.deep_view()),
    ensures
        r is Err <==> old(conn)@.library_path_of(old(conn)@.active_kind()) is None,
        r matches Err(e) ==> e == StoreError::NoLibrary && final(conn)@ == old(conn)@,
        r matches Ok(v) ==> {
            let s = walked(
                old(conn)@,
                old(conn)@.active_kind(),
                old(conn)@.library_path_of(old(conn)@.active_kind())->0,
                disk.deep_view(),
                walk.deep_view(),
            );
            &&& final(conn)@ == scanned(
                old(conn)@,
                disk.deep_view(),
                walk.deep_view(),
                files.deep_view(),
            )
            &&& v.0.registered == s.registered
            &&& v.0.skipped == s.skipped
            &&& v.0.relocated == s.relocated
            &&& v.0.unresolved.deep_view() == unresolved_paths(
                s,
                old(conn)@.library_path_of(old(conn)@.active_kind())->0,
            )
            &&& v.1.deep_view() == missing_publications(final(conn)@, files.deep_view())
        },
        old(conn)@.wf() ==> final(conn)@.wf(),
{
    proof {
        if conn@.wf() {
            crate::upkeep::scanned_wf(
                conn@,
                disk.deep_view(),
                walk.deep_view(),
                files.deep_view(),
            );
        }
    }
    let ghost d = old(conn)@;
    let ghost dv = disk.deep_view();
    let ghost wv = walk.deep_view();
    let ghost fv = files.deep_view();
    let kind = active_kind(conn);
    let library = match library_path_of(conn, &kind) {
        Some(l) => l,
        None => {
            return Err(StoreError::NoLibrary);
        },
    };
    let mut s = ScanState {
        missing: missing_in_library(conn, &kind, &library, disk),
        cross: cross_library_missing(conn, &kind, disk),
        registered: 0,
        skipped: 0,
        relocated: 0,
    };
    let mut i: usize = 0;
    assert(wv.take(0) =~= Seq::empty());
    while i < walk.len()
        invariant
            i <= walk@.len(),
            wv == walk.deep_view(),
            view_of(conn@, s) == walked(d, kind@, library@, dv, wv.take(i as int)),
            sessions_below(conn@.sessions, i64::MAX - wv.len() + i),
            recordings_below(conn@.recordings, i64::MAX - wv.len() + i),
            conn@.recordings.len() <= d.recordings.len() + i,
            conn@.rallies == d.rallies,
            s.registered + s.skipped + s.relocated <= i,
        decreases walk@.len() - i,
    {
        proof {
            assert(wv.take(i + 1).drop_last() =~= wv.take(i as int));
            assert(wv.take(i + 1).last() == walk@[i as int].deep_view());
            entry_met_fits(
                view_of(conn@, s),
                kind@,
                library@,
                walk@[i as int].deep_view(),
                i64::MAX - wv.len() + i,
            );
        }
        meet_entry(conn, &mut s, &kind, &library, &walk[i], Ghost(i64::MAX - wv.len() + i));
        i += 1;
    }
    proof {
        assert(wv.take(i as int) =~= wv);
        let k = total_rallies(fv);
        let a = conn@.recordings.len();
        let b = d.recordings.len() + wv.len();
        assert(a * k <= b * k) by (nonlinear_arith)
            requires
                a <= b,
                k >= 0,
        ;
    }
    notice_found(conn, &kind, &library, disk);
    adopt_analyses(conn, files);
    requeue_stale(conn, &kind);
    let paths = each(
        &s.missing,
        |r: &RecordingRow| -> (p: String)
            ensures
                p.deep_view() == path_in(library@)(r.deep_view())
            { absolute(&library, &r.path) },
        Ghost(path_in(library@)),
    );
    let unresolved = sorted(
        &paths,
        |a: &String, b: &String| -> (r: bool)
            ensures
                r == text_before(a@, b@)
            { before(a, b) },
        Ghost(text_order()),
    );
    let publications = publish_missing_analyses(conn, files);
    Ok(
        (
            ScanResult {
                registered: s.registered,
                skipped: s.skipped,
                relocated: s.relocated,
                unresolved,
            },
            publications,
        ),
    )
}

/// What a recording tells.
#[verifier::ext_equal]
pub struct RecordingEntry {
    pub id: i64,
    pub path: Seq<char>,
    pub file_size: i64,
    pub quick_hash: Seq<char>,
    pub capture_day: Seq<char>,
    pub probe_state: Seq<char>,
    pub segment_state: Seq<char>,
    pub duration_ms: Option<i64>,
    pub rally_count: i64,
}

/// What a session tells.
#[verifier::ext_equal]
pub struct SessionEntry {
    pub id: i64,
    pub capture_day: Seq<char>,
    pub recordings: Seq<RecordingEntry>,
}

impl DeepView for Recording {
    type V = RecordingEntry;

    open spec fn deep_view(&self) -> RecordingEntry {
        RecordingEntry {
            id: self.id,
            path: self.path@,
            file_size: self.file_size,
            quick_hash: self.quick_hash@,
            capture_day: self.capture_day@,
            probe_state: self.probe_state@,
            segment_state: self.segment_state@,
            duration_ms: self.duration_ms,
            rally_count: self.rally_count,
        }
    }
}

impl DeepView for Session {
    type V = SessionEntry;

    open spec fn deep_view(&self) -> SessionEntry {
        SessionEntry {
            id: self.id,
            capture_day: self.capture_day@,
            recordings: self.recordings.deep_view(),
        }
    }
}

/// The sessions of the library of `kind`.
pub open spec fn sessions_of(kind: Seq<char>) -> spec_fn(SessionView) -> bool {
    |s: SessionView| s.library == kind
}

/// Sessions with the newest day first.
pub open spec fn newest_first() -> spec_fn(SessionView, SessionView) -> bool {
    |a: SessionView, b: SessionView| text_before(b.capture_day, a.capture_day)
}

/// The recordings that lie in their library: stored under a relative key, and not
/// left outside.
pub open spec fn appearing() -> spec_fn(RecordingView) -> bool {
    |r: RecordingView| !rooted(r.path) && !r.outside
}

/// What is told of a recording row: its path resolved, its rallies counted.
pub open spec fn recording_entry(d: StoreView, library: Seq<char>) -> spec_fn(
    RecordingView,
) -> RecordingEntry {
    |r: RecordingView|
        RecordingEntry {
            id: r.id,
            path: joined(library, r.path),
            file_size: r.file_size,
            quick_hash: r.quick_hash,
            capture_day: r.capture_day,
            probe_state: r.probe_state,
            segment_state: r.segment_state,
            duration_ms: r.duration_ms,
            rally_count: d.rallies.filter(rallies_of(r.id)).len() as i64,
        }
}

/// The recordings that a session lists, in path order.
pub open spec fn listed(d: StoreView, library: Seq<char>, session: i64) -> Seq<RecordingEntry> {
    sort_by(d.recordings.filter(recordings_in(session)), by_path()).filter(
        appearing(),
    ).map_values(recording_entry(d, library))
}

/// What is told of a session row, unless it lists no recording.
pub open spec fn session_entry(d: StoreView, library: Seq<char>) -> spec_fn(SessionView) -> Option<
    SessionEntry,
> {
    |s: SessionView|
        if listed(d, library, s.id).len() == 0 {
            None
        } else {
            Some(
                SessionEntry {
                    id: s.id,
                    capture_day: s.capture_day,
                    recordings: listed(d, library, s.id),
                },
            )
        }
}

/// The sessions of the active library with their recordings, newest day first.
pub open spec fn session_list(d: StoreView) -> Seq<SessionEntry> {
    match d.library_path_of(d.active_kind()) {
        Some(library) => sort_by(
            d.sessions.filter(sessions_of(d.active_kind())),
            newest_first(),
        ).filter_map(session_entry(d, library)),
        None => Seq::empty(),
    }
}

/// The number of rallies of a recording.
fn count_rallies(conn: &Store, id: i64) -> (n: i64)
    ensures
        n == conn@.rallies.filter(rallies_of(id)).len() as i64,
{
    let own = keep(
        &conn.rallies,
        |r: &RallyRow| -> (b: bool)
            ensures
                b == (r.recording_id == id)
            { r.recording_id == id },
        Ghost(rallies_of(id)),
    );
    assert(own.deep_view().len() == own@.len());
    own.len() as i64
}

/// The recordings that a session lists.
fn list_recordings(conn: &Store, library: &str, session: i64) -> (r: Vec<Recording>)
    ensures
        r.deep_view() == listed(conn@, library@, session),
{
    let own = keep(
        &conn.recordings,
        |r: &RecordingRow| -> (b: bool)
            ensures
                b == (r.session_id == session)
            { r.session_id == session },
        Ghost(recordings_in(session)),
    );
    let rows = sorted(
        &own,
        |a: &RecordingRow, b: &RecordingRow| -> (r: bool)
            ensures
                r == text_before(a.path@, b.path@)
            { before(&a.path, &b.path) },
        Ghost(by_path()),
    );
    let inside = keep(
        &rows,
        |r: &RecordingRow| -> (b: bool)
            ensures
                b == (!rooted(r.path@) && !r.outside)
            { !is_absolute(&r.path) && !r.outside },
        Ghost(appearing()),
    );
    each(
        &inside,
        |r: &RecordingRow| -> (e: Recording)
            ensures
                e.deep_view() == recording_entry(conn@, library@)(r.deep_view())
            {
                Recording {
                    id: r.id,
                    path: absolute(library, &r.path),
                    file_size: r.file_size,
                    quick_hash: r.quick_hash.clone(),
                    capture_day: r.capture_day.clone(),
                    probe_state: r.probe_state.clone(),
                    segment_state: r.segment_state.clone(),
                    duration_ms: r.duration_ms,
                    rally_count: count_rallies(conn, r.id),
                }
            },
        Ghost(recording_entry(conn@, library@)),
    )
}

/// All sessions of the active library, newest day first, with their recordings
/// nested under them in path order. A recording outside of the library, stored
/// under an absolute path or left outside when the library was designated anew, is
/// left out, and so is a session without recordings. Nothing when no library is
/// active.
pub fn list_sessions(conn: &Store) -> (r: Vec<Session>)
    ensures
        r.deep_view() == session_list(conn@),
{
    let kind = active_kind(conn);
    let mut out: Vec<Session> = Vec::new();
    assert(out.deep_view() =~= Seq::empty());
    let library = match library_path_of(conn, &kind) {
        Some(l) => l,
        None => {
            return out;
        },
    };
    let own = keep(
        &conn.sessions,
        |s: &SessionRow| -> (b: bool)
            ensures
                b == (s.library@ == kind@)
            { same(&s.library, &kind) },
        Ghost(sessions_of(kind@)),
    );
    let rows = sorted(
        &own,
        |a: &SessionRow, b: &SessionRow| -> (r: bool)
            ensures
                r == text_before(b.capture_day@, a.capture_day@)
            { before(&b.capture_day, &a.capture_day) },
        Ghost(newest_first()),
    );
    let ghost all = rows.deep_view();
    let ghost f = session_entry(conn@, library@);
    let mut i: usize = 0;
    assert(all.take(0).filter_map(f) =~= Seq::empty());
    while i < rows.len()
        invariant
            i <= rows@.len(),
            all == rows.deep_view(),
            f == session_entry(conn@, library@),
            out.deep_view() == all.take(i as int).filter_map(f),
        decreases rows@.len() - i,
    {
        let s = &rows[i];
        proof {
            assert(all.take(i + 1).drop_last() =~= all.take(i as int));
            assert(all.take(i + 1).last() == s.deep_view());
        }
        let recordings = list_recordings(conn, &library, s.id);
        assert(recordings@.len() == recordings.deep_view().len());
        if recordings.len() > 0 {
            let ghost prev = out.deep_view();
            let entry = Session { id: s.id, capture_day: s.capture_day.clone(), recordings };
            let ghost ev = entry.deep_view();
            out.push(entry);
            assert(out.deep_view() =~= prev + seq![ev]);
        }
        i += 1;
    }
    assert(all.take(i as int) =~= all);
    out
}

/// The store after a recording is forgotten with its whole review, and the
/// session that it emptied.
pub open spec fn forgotten(d: StoreView, row: RecordingView) -> StoreView {
    let recordings = d.recordings.filter(other_than(row.id));
    StoreView {
        recordings,
        rallies: d.rallies.filter(rallies_not_of(row.id)),
        annotations: d.annotations.filter(annotations_not_of(row.id)),
        sessions: without_empty(d.sessions, recordings, row.session_id),
        ..d
    }
}

/// Forget a recording and all its review state, and the session that it emptied.
/// Scoped to the active library. Returns `false` when the recording is not found.
pub fn delete_recording(conn: &mut Store, path: &str) -> (r: bool)
    ensures
        r == (row_at(old(conn)@, path@) is Some),
        final(conn)@ == (match row_at(old(conn)@, path@) {
            Some(row) => forgotten(old(conn)@, row),
            None => old(conn)@,
        }),
        old(conn)@.wf() ==> final(conn)@.wf(),
{
    proof {
        if conn@.wf() {
            if let Some(row) = row_at(conn@, path@) {
                crate::upkeep::forgotten_wf(conn@, row);
            }
        }
    }
    let at = match locate(conn, path) {
        Some(i) => i,
        None => {
            return false;
        },
    };
    let id = conn.recordings[at].id;
    let session = conn.recordings[at].session_id;
    let ghost row = conn.recordings@[at as int].deep_view();
    conn.recordings = drop_id(&conn.recordings, id);
    conn.rallies =
    keep(
        &conn.rallies,
        |r: &RallyRow| -> (b: bool)
            ensures
                b == (r.recording_id != id)
            { r.recording_id != id },
        Ghost(rallies_not_of(id)),
    );
    conn.annotations =
    keep(
        &conn.annotations,
        |a: &AnnotationRow| -> (b: bool)
            ensures
                b == (a.recording_id != id)
            { a.recording_id != id },
        Ghost(annotations_not_of(id)),
    );
    collect_session(conn, session);
    assert(conn@ =~= forgotten(old(conn)@, row));
    true
}

} // verus!
