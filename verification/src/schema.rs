//! What the store accepts as a recording, and how an older store is brought up
//! to date.
use vstd::prelude::*;

use crate::path::{extension, extension_of};
use crate::segment::SEGMENTER_VERSION;
use crate::store::{
    AnnotationRow, LibraryRow, LibraryView, MetaRow, RallyRow, RallyView, RecordingRow,
    RecordingView, SessionRow, SessionView, Store, StoreView,
};
use crate::table::{copy_rows, each};
use crate::text::{chars_of, copy_option, lower_text, lowered, same};

verus! {

/// The file extensions, in lower case, that are registered as recordings.
pub open spec fn video_extension(e: Seq<char>) -> bool {
    e == "mp4"@ || e == "mov"@ || e == "m4v"@ || e == "avi"@ || e == "mkv"@ || e == "mts"@ || e
        == "m2ts"@ || e == "ts"@ || e == "webm"@
}

/// Whether a path has the extension of a video, in any case.
pub open spec fn video_path(path: Seq<char>) -> bool {
    match extension_of(path) {
        Some(e) => video_extension(lowered(e)),
        None => false,
    }
}

/// Whether a path has the extension of a video, in any case.
pub fn is_video(path: &str) -> (r: bool)
    ensures
        r == video_path(path@),
{
    match extension(path) {
        Some(e) => {
            let low = lower_text(&chars_of(&e));
            same(&low, "mp4") || same(&low, "mov") || same(&low, "m4v") || same(&low, "avi")
                || same(&low, "mkv") || same(&low, "mts") || same(&low, "m2ts") || same(&low, "ts")
                || same(&low, "webm")
        },
        None => false,
    }
}

/// A session row as an older store may hold it: `None` for a column that it does
/// not have.
pub struct OldSession {
    pub id: i64,
    pub capture_day: String,
    pub library: Option<String>,
}

/// A recording row as an older store may hold it: `None` for a column that it
/// does not have.
pub struct OldRecording {
    pub id: i64,
    pub session_id: i64,
    pub path: String,
    pub library: Option<String>,
    pub file_size: i64,
    pub quick_hash: String,
    pub capture_day: String,
    pub probe_state: Option<String>,
    /// What the playability state was called before.
    pub transcode_state: Option<String>,
    pub segment_state: Option<String>,
    pub date_state: Option<String>,
    pub duration_ms: Option<i64>,
    pub waveform: Option<String>,
    /// Whether the store has a segmenter version, and the row's.
    pub segmenter_version: Option<Option<i64>>,
    pub outside: Option<bool>,
}

/// A rally row as an older store may hold it.
pub struct OldRally {
    pub id: i64,
    pub recording_id: i64,
    pub start_ms: i64,
    pub end_ms: i64,
    pub confidence: i64,
    pub flagged: Option<bool>,
}

/// A library row as an older store may hold it.
pub struct OldLibrary {
    pub id: i64,
    pub path: String,
    pub kind: String,
    pub mount: Option<String>,
}

/// A store of any earlier shape.
pub struct OldStore {
    pub sessions: Vec<OldSession>,
    pub recordings: Vec<OldRecording>,
    pub rallies: Vec<OldRally>,
    pub annotations: Vec<AnnotationRow>,
    pub libraries: Vec<OldLibrary>,
    pub meta: Vec<MetaRow>,
}

/// What an older session row holds.
#[verifier::ext_equal]
pub struct OldSessionView {
    pub id: i64,
    pub capture_day: Seq<char>,
    pub library: Option<Seq<char>>,
}

/// What an older recording row holds.
#[verifier::ext_equal]
pub struct OldRecordingView {
    pub id: i64,
    pub session_id: i64,
    pub path: Seq<char>,
    pub library: Option<Seq<char>>,
    pub file_size: i64,
    pub quick_hash: Seq<char>,
    pub capture_day: Seq<char>,
    pub probe_state: Option<Seq<char>>,
    pub transcode_state: Option<Seq<char>>,
    pub segment_state: Option<Seq<char>>,
    pub date_state: Option<Seq<char>>,
    pub duration_ms: Option<i64>,
    pub waveform: Option<Seq<char>>,
    pub segmenter_version: Option<Option<i64>>,
    pub outside: Option<bool>,
}

/// What an older rally row holds.
#[verifier::ext_equal]
pub struct OldRallyView {
    pub id: i64,
    pub recording_id: i64,
    pub start_ms: i64,
    pub end_ms: i64,
    pub confidence: i64,
    pub flagged: Option<bool>,
}

/// What an older library row holds.
#[verifier::ext_equal]
pub struct OldLibraryView {
    pub id: i64,
    pub path: Seq<char>,
    pub kind: Seq<char>,
    pub mount: Option<Seq<char>>,
}

impl DeepView for OldSession {
    type V = OldSessionView;

    open spec fn deep_view(&self) -> OldSessionView {
        OldSessionView {
            id: self.id,
            capture_day: self.capture_day@,
            library: self.library.deep_view(),
        }
    }
}

impl DeepView for OldRecording {
    type V = OldRecordingView;

    open spec fn deep_view(&self) -> OldRecordingView {
        OldRecordingView {
            id: self.id,
            session_id: self.session_id,
            path: self.path@,
            library: self.library.deep_view(),
            file_size: self.file_size,
            quick_hash: self.quick_hash@,
            capture_day: self.capture_day@,
            probe_state: self.probe_state.deep_view(),
            transcode_state: self.transcode_state.deep_view(),
            segment_state: self.segment_state.deep_view(),
            date_state: self.date_state.deep_view(),
            duration_ms: self.duration_ms,
            waveform: self.waveform.deep_view(),
            segmenter_version: self.segmenter_version,
            outside: self.outside,
        }
    }
}

impl DeepView for OldRally {
    type V = OldRallyView;

    open spec fn deep_view(&self) -> OldRallyView {
        OldRallyView {
            id: self.id,
            recording_id: self.recording_id,
            start_ms: self.start_ms,
            end_ms: self.end_ms,
            confidence: self.confidence,
            flagged: self.flagged,
        }
    }
}

impl DeepView for OldLibrary {
    type V = OldLibraryView;

    open spec fn deep_view(&self) -> OldLibraryView {
        OldLibraryView {
            id: self.id,
            path: self.path@,
            kind: self.kind@,
            mount: self.mount.deep_view(),
        }
    }
}

/// A value, or the default of its column.
pub open spec fn or_default(value: Option<Seq<char>>, default: Seq<char>) -> Seq<char> {
    match value {
        Some(v) => v,
        None => default,
    }
}

/// A session row brought up to date: an older store held only the local library.
pub open spec fn session_upgraded() -> spec_fn(OldSessionView) -> SessionView {
    |s: OldSessionView|
        SessionView {
            id: s.id,
            capture_day: s.capture_day,
            library: or_default(s.library, "local"@),
        }
}

/// A recording row brought up to date: the playability state keeps its value under
/// its new name, and a draft from before versions counts as current.
pub open spec fn recording_upgraded() -> spec_fn(OldRecordingView) -> RecordingView {
    |r: OldRecordingView|
        RecordingView {
            id: r.id,
            session_id: r.session_id,
            path: r.path,
            library: or_default(r.library, "local"@),
            file_size: r.file_size,
            quick_hash: r.quick_hash,
            capture_day: r.capture_day,
            probe_state: match r.probe_state {
                Some(s) => s,
                None => or_default(r.transcode_state, "unknown"@),
            },
            segment_state: or_default(r.segment_state, "unknown"@),
            date_state: or_default(r.date_state, "unknown"@),
            duration_ms: r.duration_ms,
            waveform: r.waveform,
            segmenter_version: match r.segmenter_version {
                Some(v) => v,
                None => if r.segment_state == Some("ready"@) {
                    Some(SEGMENTER_VERSION as i64)
                } else {
                    None
                },
            },
            outside: r.outside == Some(true),
        }
}

/// A rally row brought up to date: not flagged by default.
pub open spec fn rally_upgraded() -> spec_fn(OldRallyView) -> RallyView {
    |r: OldRallyView|
        RallyView {
            id: r.id,
            recording_id: r.recording_id,
            start_ms: r.start_ms,
            end_ms: r.end_ms,
            confidence: r.confidence,
            flagged: r.flagged == Some(true),
        }
}

/// A library row brought up to date: mounted locally by default.
pub open spec fn library_upgraded() -> spec_fn(OldLibraryView) -> LibraryView {
    |l: OldLibraryView|
        LibraryView {
            id: l.id,
            path: l.path,
            kind: l.kind,
            mount: or_default(l.mount, "local"@),
        }
}

/// A text, or the default of its column.
fn text_or(value: &Option<String>, default: &str) -> (r: String)
    ensures
        r@ == or_default(value.deep_view(), default@),
{
    match value {
        Some(v) => v.clone(),
        None => default.to_owned(),
    }
}

/// A recording row brought up to date.
fn upgrade_recording(r: &OldRecording) -> (n: RecordingRow)
    ensures
        n.deep_view() == recording_upgraded()(r.deep_view()),
{
    let probe_state = match &r.probe_state {
        Some(s) => s.clone(),
        None => text_or(&r.transcode_state, "unknown"),
    };
    let segmented = match &r.segment_state {
        Some(s) => same(s, "ready"),
        None => false,
    };
    let segmenter_version = match r.segmenter_version {
        Some(v) => v,
        None => {
            if segmented {
                Some(SEGMENTER_VERSION as i64)
            } else {
                None
            }
        },
    };
    RecordingRow {
        id: r.id,
        session_id: r.session_id,
        path: r.path.clone(),
        library: text_or(&r.library, "local"),
        file_size: r.file_size,
        quick_hash: r.quick_hash.clone(),
        capture_day: r.capture_day.clone(),
        probe_state,
        segment_state: text_or(&r.segment_state, "unknown"),
        date_state: text_or(&r.date_state, "unknown"),
        duration_ms: r.duration_ms,
        waveform: copy_option(&r.waveform),
        segmenter_version,
        outside: match r.outside {
            Some(b) => b,
            None => false,
        },
    }
}

/// Bring a store of an earlier shape up to date, keeping every row: columns that
/// it does not have get their defaults, its rows belong to the local library, and
/// drafts from before versions count as made by the current segmenter.
pub fn upgrade(old_store: &OldStore) -> (r: Store)
    ensures
        r@ == (StoreView {
            sessions: old_store.sessions.deep_view().map_values(session_upgraded()),
            recordings: old_store.recordings.deep_view().map_values(recording_upgraded()),
            rallies: old_store.rallies.deep_view().map_values(rally_upgraded()),
            annotations: old_store.annotations.deep_view(),
            libraries: old_store.libraries.deep_view().map_values(library_upgraded()),
            meta: old_store.meta.deep_view(),
        }),
{
    let sessions = each(
        &old_store.sessions,
        |s: &OldSession| -> (n: SessionRow)
            ensures
                n.deep_view() == session_upgraded()(s.deep_view())
            {
                SessionRow {
                    id: s.id,
                    capture_day: s.capture_day.clone(),
                    library: text_or(&s.library, "local"),
                }
            },
        Ghost(session_upgraded()),
    );
    let recordings = each(
        &old_store.recordings,
        |r: &OldRecording| -> (n: RecordingRow)
            ensures
                n.deep_view() == recording_upgraded()(r.deep_view())
            { upgrade_recording(r) },
        Ghost(recording_upgraded()),
    );
    let rallies = each(
        &old_store.rallies,
        |r: &OldRally| -> (n: RallyRow)
            ensures
                n.deep_view() == rally_upgraded()(r.deep_view())
            {
                let flagged = match r.flagged {
                    Some(f) => f,
                    None => false,
                };
                RallyRow {
                    id: r.id,
                    recording_id: r.recording_id,
                    start_ms: r.start_ms,
                    end_ms: r.end_ms,
                    confidence: r.confidence,
                    flagged,
                }
            },
        Ghost(rally_upgraded()),
    );
    let libraries = each(
        &old_store.libraries,
        |l: &OldLibrary| -> (n: LibraryRow)
            ensures
                n.deep_view() == library_upgraded()(l.deep_view())
            {
                LibraryRow {
                    id: l.id,
                    path: l.path.clone(),
                    kind: l.kind.clone(),
                    mount: text_or(&l.mount, "local"),
                }
            },
        Ghost(library_upgraded()),
    );
    Store {
        sessions,
        recordings,
        rallies,
        annotations: copy_rows(&old_store.annotations),
        libraries,
        meta: copy_rows(&old_store.meta),
    }
}

} // verus!
