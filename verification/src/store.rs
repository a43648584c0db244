//! The metadata store: sessions, recordings, rallies, annotations, libraries
//! and per-device state, as tables of rows.
use vstd::prelude::*;

use crate::table::{any, first, Row};

verus! {

/// A session: one capture day of one library.
pub struct SessionRow {
    pub id: i64,
    pub capture_day: String,
    pub library: String,
}

/// A recording and where it is in its analysis lifecycle. Its path is relative
/// to its library's folder, or absolute when no library took it in.
pub struct RecordingRow {
    pub id: i64,
    pub session_id: i64,
    pub path: String,
    pub library: String,
    pub file_size: i64,
    pub quick_hash: String,
    pub capture_day: String,
    pub probe_state: String,
    pub segment_state: String,
    pub date_state: String,
    pub duration_ms: Option<i64>,
    pub waveform: Option<String>,
    /// The segmenter version that produced the current draft, once there is one.
    pub segmenter_version: Option<i64>,
    /// Whether it was left outside when its library was designated anew, and its
    /// file was not met under the library's folder since.
    pub outside: bool,
}

/// A rally of a recording. Confidence is in billionths.
pub struct RallyRow {
    pub id: i64,
    pub recording_id: i64,
    pub start_ms: i64,
    pub end_ms: i64,
    pub confidence: i64,
    pub flagged: bool,
}

/// A verdict pinned to a moment of a recording.
pub struct AnnotationRow {
    pub id: i64,
    pub recording_id: i64,
    pub time_ms: i64,
    pub verdict: String,
    pub aspect: Option<String>,
    pub note: Option<String>,
}

/// A designated library: at most one of each kind.
pub struct LibraryRow {
    pub id: i64,
    pub path: String,
    pub kind: String,
    pub mount: String,
}

/// One per-device setting.
pub struct MetaRow {
    pub key: String,
    pub value: String,
}

/// The whole store. Each table is kept in ascending id order.
pub struct Store {
    pub sessions: Vec<SessionRow>,
    pub recordings: Vec<RecordingRow>,
    pub rallies: Vec<RallyRow>,
    pub annotations: Vec<AnnotationRow>,
    pub libraries: Vec<LibraryRow>,
    pub meta: Vec<MetaRow>,
}

/// What a session row holds.
#[verifier::ext_equal]
pub struct SessionView {
    pub id: i64,
    pub capture_day: Seq<char>,
    pub library: Seq<char>,
}

/// What a recording row holds.
#[verifier::ext_equal]
pub struct RecordingView {
    pub id: i64,
    pub session_id: i64,
    pub path: Seq<char>,
    pub library: Seq<char>,
    pub file_size: i64,
    pub quick_hash: Seq<char>,
    pub capture_day: Seq<char>,
    pub probe_state: Seq<char>,
    pub segment_state: Seq<char>,
    pub date_state: Seq<char>,
    pub duration_ms: Option<i64>,
    pub waveform: Option<Seq<char>>,
    pub segmenter_version: Option<i64>,
    pub outside: bool,
}

/// What a rally row holds.
#[verifier::ext_equal]
pub struct RallyView {
    pub id: i64,
    pub recording_id: i64,
    pub start_ms: i64,
    pub end_ms: i64,
    pub confidence: i64,
    pub flagged: bool,
}

/// What an annotation row holds.
#[verifier::ext_equal]
pub struct AnnotationView {
    pub id: i64,
    pub recording_id: i64,
    pub time_ms: i64,
    pub verdict: Seq<char>,
    pub aspect: Option<Seq<char>>,
    pub note: Option<Seq<char>>,
}

/// What a library row holds.
#[verifier::ext_equal]
pub struct LibraryView {
    pub id: i64,
    pub path: Seq<char>,
    pub kind: Seq<char>,
    pub mount: Seq<char>,
}

/// What a setting holds.
#[verifier::ext_equal]
pub struct MetaView {
    pub key: Seq<char>,
    pub value: Seq<char>,
}

/// What a store holds.
#[verifier::ext_equal]
pub struct StoreView {
    pub sessions: Seq<SessionView>,
    pub recordings: Seq<RecordingView>,
    pub rallies: Seq<RallyView>,
    pub annotations: Seq<AnnotationView>,
    pub libraries: Seq<LibraryView>,
    pub meta: Seq<MetaView>,
}

impl DeepView for SessionRow {
    type V = SessionView;

    open spec fn deep_view(&self) -> SessionView {
        SessionView { id: self.id, capture_day: self.capture_day@, library: self.library@ }
    }
}

impl Row for SessionRow {
    fn dup(&self) -> (r: Self) {
        SessionRow {
            id: self.id,
            capture_day: self.capture_day.clone(),
            library: self.library.clone(),
        }
    }
}

impl DeepView for RecordingRow {
    type V = RecordingView;

    open spec fn deep_view(&self) -> RecordingView {
        RecordingView {
            id: self.id,
            session_id: self.session_id,
            path: self.path@,
            library: self.library@,
            file_size: self.file_size,
            quick_hash: self.quick_hash@,
            capture_day: self.capture_day@,
            probe_state: self.probe_state@,
            segment_state: self.segment_state@,
            date_state: self.date_state@,
            duration_ms: self.duration_ms,
            waveform: self.waveform.deep_view(),
            segmenter_version: self.segmenter_version,
            outside: self.outside,
        }
    }
}

impl Row for RecordingRow {
    fn dup(&self) -> (r: Self) {
        RecordingRow {
            id: self.id,
            session_id: self.session_id,
            path: self.path.clone(),
            library: self.library.clone(),
            file_size: self.file_size,
            quick_hash: self.quick_hash.clone(),
            capture_day: self.capture_day.clone(),
            probe_state: self.probe_state.clone(),
            segment_state: self.segment_state.clone(),
            date_state: self.date_state.clone(),
            duration_ms: self.duration_ms,
            waveform: crate::text::copy_option(&self.waveform),
            segmenter_version: self.segmenter_version,
            outside: self.outside,
        }
    }
}

impl DeepView for RallyRow {
    type V = RallyView;

    open spec fn deep_view(&self) -> RallyView {
        RallyView {
            id: self.id,
            recording_id: self.recording_id,
            start_ms: self.start_ms,
            end_ms: self.end_ms,
            confidence: self.confidence,
            flagged: self.flagged,
        }
    }
}

impl Row for RallyRow {
    fn dup(&self) -> (r: Self) {
        RallyRow {
            id: self.id,
            recording_id: self.recording_id,
            start_ms: self.start_ms,
            end_ms: self.end_ms,
            confidence: self.confidence,
            flagged: self.flagged,
        }
    }
}

impl DeepView for AnnotationRow {
    type V = AnnotationView;

    open spec fn deep_view(&self) -> AnnotationView {
        AnnotationView {
            id: self.id,
            recording_id: self.recording_id,
            time_ms: self.time_ms,
            verdict: self.verdict@,
            aspect: self.aspect.deep_view(),
            note: self.note.deep_view(),
        }
    }
}

impl Row for AnnotationRow {
    fn dup(&self) -> (r: Self) {
        AnnotationRow {
            id: self.id,
            recording_id: self.recording_id,
            time_ms: self.time_ms,
            verdict: self.verdict.clone(),
            aspect: crate::text::copy_option(&self.aspect),
            note: crate::text::copy_option(&self.note),
        }
    }
}

impl DeepView for LibraryRow {
    type V = LibraryView;

    open spec fn deep_view(&self) -> LibraryView {
        LibraryView { id: self.id, path: self.path@, kind: self.kind@, mount: self.mount@ }
    }
}

impl Row for LibraryRow {
    fn dup(&self) -> (r: Self) {
        LibraryRow {
            id: self.id,
            path: self.path.clone(),
            kind: self.kind.clone(),
            mount: self.mount.clone(),
        }
    }
}

impl DeepView for MetaRow {
    type V = MetaView;

    open spec fn deep_view(&self) -> MetaView {
        MetaView { key: self.key@, value: self.value@ }
    }
}

impl Row for MetaRow {
    fn dup(&self) -> (r: Self) {
        MetaRow { key: self.key.clone(), value: self.value.clone() }
    }
}

impl View for Store {
    type V = StoreView;

    open spec fn view(&self) -> StoreView {
        StoreView {
            sessions: self.sessions.deep_view(),
            recordings: self.recordings.deep_view(),
            rallies: self.rallies.deep_view(),
            annotations: self.annotations.deep_view(),
            libraries: self.libraries.deep_view(),
            meta: self.meta.deep_view(),
        }
    }
}

/// The recording with the given id.
pub open spec fn recording_with(id: i64) -> spec_fn(RecordingView) -> bool {
    |r: RecordingView| r.id == id
}

/// The recording stored under `path` in the library of `kind`.
pub open spec fn recording_at(kind: Seq<char>, path: Seq<char>) -> spec_fn(RecordingView) -> bool {
    |r: RecordingView| r.library == kind && r.path == path
}

/// The recordings of the library of `kind`.
pub open spec fn recordings_of(kind: Seq<char>) -> spec_fn(RecordingView) -> bool {
    |r: RecordingView| r.library == kind
}

/// The recordings of the session with the given id.
pub open spec fn recordings_in(session: i64) -> spec_fn(RecordingView) -> bool {
    |r: RecordingView| r.session_id == session
}

/// The rallies of the recording with the given id.
pub open spec fn rallies_of(recording: i64) -> spec_fn(RallyView) -> bool {
    |r: RallyView| r.recording_id == recording
}

/// The rallies of every other recording.
pub open spec fn rallies_not_of(recording: i64) -> spec_fn(RallyView) -> bool {
    |r: RallyView| r.recording_id != recording
}

/// The annotations of the recording with the given id.
pub open spec fn annotations_of(recording: i64) -> spec_fn(AnnotationView) -> bool {
    |a: AnnotationView| a.recording_id == recording
}

/// The annotations of every other recording.
pub open spec fn annotations_not_of(recording: i64) -> spec_fn(AnnotationView) -> bool {
    |a: AnnotationView| a.recording_id != recording
}

/// The session of `day` in the library of `kind`.
pub open spec fn session_on(kind: Seq<char>, day: Seq<char>) -> spec_fn(SessionView) -> bool {
    |s: SessionView| s.library == kind && s.capture_day == day
}

/// The library of `kind`.
pub open spec fn library_of(kind: Seq<char>) -> spec_fn(LibraryView) -> bool {
    |l: LibraryView| l.kind == kind
}

/// The setting under `key`.
pub open spec fn setting(key: Seq<char>) -> spec_fn(MetaView) -> bool {
    |m: MetaView| m.key == key
}

/// The id that a session inserted next gets.
pub open spec fn next_session(s: Seq<SessionView>) -> int {
    if s.len() == 0 {
        1
    } else {
        s.last().id + 1
    }
}

/// The id that a recording inserted next gets.
pub open spec fn next_recording(s: Seq<RecordingView>) -> int {
    if s.len() == 0 {
        1
    } else {
        s.last().id + 1
    }
}

/// The id that a rally inserted next gets.
pub open spec fn next_rally(s: Seq<RallyView>) -> int {
    if s.len() == 0 {
        1
    } else {
        s.last().id + 1
    }
}

/// The id that an annotation inserted next gets.
pub open spec fn next_annotation(s: Seq<AnnotationView>) -> int {
    if s.len() == 0 {
        1
    } else {
        s.last().id + 1
    }
}

/// The id that a library inserted next gets.
pub open spec fn next_library(s: Seq<LibraryView>) -> int {
    if s.len() == 0 {
        1
    } else {
        s.last().id + 1
    }
}

/// Whether every session id lies below a positive bound.
pub open spec fn sessions_below(s: Seq<SessionView>, bound: int) -> bool {
    1 <= bound && forall|i: int| 0 <= i < s.len() ==> (#[trigger] s[i]).id < bound
}

/// Whether every recording id lies below a positive bound.
pub open spec fn recordings_below(s: Seq<RecordingView>, bound: int) -> bool {
    1 <= bound && forall|i: int| 0 <= i < s.len() ==> (#[trigger] s[i]).id < bound
}

/// Whether every rally id lies below a positive bound.
pub open spec fn rallies_below(s: Seq<RallyView>, bound: int) -> bool {
    1 <= bound && forall|i: int| 0 <= i < s.len() ==> (#[trigger] s[i]).id < bound
}

/// Whether every annotation id lies below a positive bound.
pub open spec fn annotations_below(s: Seq<AnnotationView>, bound: int) -> bool {
    1 <= bound && forall|i: int| 0 <= i < s.len() ==> (#[trigger] s[i]).id < bound
}

impl StoreView {
    /// Sessions have ascending ids, and a capture day occurs once per library.
    pub open spec fn sessions_wf(self) -> bool {
        &&& forall|i: int, j: int|
            0 <= i < j < self.sessions.len() ==> (#[trigger] self.sessions[i]).id < (
            #[trigger] self.sessions[j]).id
        &&& forall|i: int, j: int|
            0 <= i < j < self.sessions.len() ==> !((#[trigger] self.sessions[i]).library == (
            #[trigger] self.sessions[j]).library && self.sessions[i].capture_day
                == self.sessions[j].capture_day)
    }

    /// Recordings have ascending ids, and a path occurs once per library.
    pub open spec fn recordings_wf(self) -> bool {
        &&& forall|i: int, j: int|
            0 <= i < j < self.recordings.len() ==> (#[trigger] self.recordings[i]).id < (
            #[trigger] self.recordings[j]).id
        &&& forall|i: int, j: int|
            0 <= i < j < self.recordings.len() ==> !((#[trigger] self.recordings[i]).library == (
            #[trigger] self.recordings[j]).library && self.recordings[i].path
                == self.recordings[j].path)
    }

    /// Every recording belongs to a session of its own library: a session never
    /// spans libraries.
    pub open spec fn grouping_wf(self) -> bool {
        forall|i: int|
            0 <= i < self.recordings.len() ==> any(
                self.sessions,
                home_of(#[trigger] self.recordings[i]),
            )
    }

    /// Rallies have ascending ids and belong to recordings.
    pub open spec fn rallies_wf(self) -> bool {
        &&& forall|i: int, j: int|
            0 <= i < j < self.rallies.len() ==> (#[trigger] self.rallies[i]).id < (
            #[trigger] self.rallies[j]).id
        &&& forall|i: int|
            0 <= i < self.rallies.len() ==> any(
                self.recordings,
                recording_with((#[trigger] self.rallies[i]).recording_id),
            )
    }

    /// Annotations have ascending ids and belong to recordings.
    pub open spec fn annotations_wf(self) -> bool {
        &&& forall|i: int, j: int|
            0 <= i < j < self.annotations.len() ==> (#[trigger] self.annotations[i]).id < (
            #[trigger] self.annotations[j]).id
        &&& forall|i: int|
            0 <= i < self.annotations.len() ==> any(
                self.recordings,
                recording_with((#[trigger] self.annotations[i]).recording_id),
            )
    }

    /// There is at most one library of each kind.
    pub open spec fn libraries_wf(self) -> bool {
        &&& forall|i: int, j: int|
            0 <= i < j < self.libraries.len() ==> (#[trigger] self.libraries[i]).id < (
            #[trigger] self.libraries[j]).id
        &&& forall|i: int, j: int|
            0 <= i < j < self.libraries.len() ==> (#[trigger] self.libraries[i]).kind != (
            #[trigger] self.libraries[j]).kind
    }

    /// There is at most one setting under each key.
    pub open spec fn meta_wf(self) -> bool {
        forall|i: int, j: int|
            0 <= i < j < self.meta.len() ==> (#[trigger] self.meta[i]).key != (
            #[trigger] self.meta[j]).key
    }

    /// The store's invariant.
    pub open spec fn wf(self) -> bool {
        &&& self.sessions_wf()
        &&& self.recordings_wf()
        &&& self.grouping_wf()
        &&& self.rallies_wf()
        &&& self.annotations_wf()
        &&& self.libraries_wf()
        &&& self.meta_wf()
    }

    /// The value of the setting under `key`.
    pub open spec fn meta_value(self, key: Seq<char>) -> Option<Seq<char>> {
        match first(self.meta, setting(key)) {
            Some(m) => Some(m.value),
            None => None,
        }
    }

    /// The kind of the active library.
    pub open spec fn active_kind(self) -> Seq<char> {
        match self.meta_value("active_library"@) {
            Some(v) => v,
            None => "local"@,
        }
    }

    /// The folder of the library of `kind`.
    pub open spec fn library_path_of(self, kind: Seq<char>) -> Option<Seq<char>> {
        match first(self.libraries, library_of(kind)) {
            Some(l) => Some(l.path),
            None => None,
        }
    }

    /// The id of the recording stored under `path` in the library of `kind`.
    pub open spec fn id_at(self, kind: Seq<char>, path: Seq<char>) -> Option<i64> {
        match first(self.recordings, recording_at(kind, path)) {
            Some(r) => Some(r.id),
            None => None,
        }
    }
}

/// The session that a recording belongs to, in its own library.
pub open spec fn home_of(r: RecordingView) -> spec_fn(SessionView) -> bool {
    |s: SessionView| s.id == r.session_id && s.library == r.library
}

impl Store {
    /// An empty store.
    pub fn new() -> (s: Store)
        ensures
            s@ == StoreView::empty(),
            s@.wf(),
    {
        let s = Store {
            sessions: Vec::new(),
            recordings: Vec::new(),
            rallies: Vec::new(),
            annotations: Vec::new(),
            libraries: Vec::new(),
            meta: Vec::new(),
        };
        assert(s@ =~= StoreView::empty());
        s
    }
}

impl StoreView {
    /// A store without rows.
    pub open spec fn empty() -> StoreView {
        StoreView {
            sessions: Seq::empty(),
            recordings: Seq::empty(),
            rallies: Seq::empty(),
            annotations: Seq::empty(),
            libraries: Seq::empty(),
            meta: Seq::empty(),
        }
    }
}

} // verus!
