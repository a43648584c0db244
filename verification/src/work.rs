//! The background media-work queue: what needs a capture-date probe, a
//! playability probe, or segmentation, and persisting the draft timeline that
//! segmentation produces.
use vstd::prelude::*;

use crate::annotations::recording_within;
use crate::drafts::{rallies_fit, rallies_replaced, replace_rallies, Draft};
use crate::grouping::{amend, find_id};
use crate::library::{active_kind, library_path_of, StoreError};
use crate::offers::{covered, pending_bundle_paths, BundleFile, BundleFileView};
use crate::path::{absolute, joined};
use crate::segment::{Rally, SEGMENTER_VERSION};
use crate::store::{
    library_of, rallies_not_of, recording_with, recordings_of, LibraryRow, RallyRow, RallyView,
    RecordingRow, RecordingView, Store, StoreView,
};
use crate::table::{any, each, first, keep, position, rewrite, Row};
use crate::text::same;
use crate::timeline::{hand_touched, is_hand_touched, row_at};
use crate::waveform::{waveform_json, waveform_to_json};

verus! {

/// One unit of work for the background media worker, in priority order.
#[derive(Debug, PartialEq)]
pub enum MediaWork {
    /// Capture day not yet refined: read the embedded creation date.
    CaptureDate(i64, String),
    /// Not yet probed: check that it can be read and mark it playable.
    Probe(i64, String),
    /// Playable but not yet segmented.
    Segment(i64, String),
}

/// What a unit of work holds.
pub enum WorkView {
    CaptureDate(i64, Seq<char>),
    Probe(i64, Seq<char>),
    Segment(i64, Seq<char>),
}

impl DeepView for MediaWork {
    type V = WorkView;

    open spec fn deep_view(&self) -> WorkView {
        match self {
            MediaWork::CaptureDate(id, path) => WorkView::CaptureDate(*id, path@),
            MediaWork::Probe(id, path) => WorkView::Probe(*id, path@),
            MediaWork::Segment(id, path) => WorkView::Segment(*id, path@),
        }
    }
}

/// The recordings of a library whose capture day is still provisional.
pub open spec fn undated(kind: Seq<char>) -> spec_fn(RecordingView) -> bool {
    |r: RecordingView| r.library == kind && r.date_state == "unknown"@
}

/// The recordings of a library not yet probed that no pending offer covers.
pub open spec fn unprobed(d: StoreView, files: Seq<BundleFileView>, kind: Seq<char>) -> spec_fn(
    RecordingView,
) -> bool {
    |r: RecordingView|
        r.library == kind && r.probe_state == "unknown"@ && !covered(d, files, r.path)
}

/// The recordings of a library probed but not yet segmented that no pending offer
/// covers.
pub open spec fn unsegmented_in(
    d: StoreView,
    files: Seq<BundleFileView>,
    kind: Seq<char>,
) -> spec_fn(RecordingView) -> bool {
    |r: RecordingView|
        r.library == kind && r.probe_state == "ready"@ && r.segment_state == "unknown"@ && !covered(
            d,
            files,
            r.path,
        )
}

/// The next unit of work in the active library: the lowest id of the first phase
/// that has any.
pub open spec fn next_work(d: StoreView, files: Seq<BundleFileView>) -> Option<WorkView> {
    let kind = d.active_kind();
    match d.library_path_of(kind) {
        None => None,
        Some(library) => match first(d.recordings, undated(kind)) {
            Some(r) => Some(WorkView::CaptureDate(r.id, joined(library, r.path))),
            None => match first(d.recordings, unprobed(d, files, kind)) {
                Some(r) => Some(WorkView::Probe(r.id, joined(library, r.path))),
                None => match first(d.recordings, unsegmented_in(d, files, kind)) {
                    Some(r) => Some(WorkView::Segment(r.id, joined(library, r.path))),
                    None => None,
                },
            },
        },
    }
}

/// Whether a path is among the covered ones.
fn is_covered(paths: &Vec<String>, path: &str) -> (r: bool)
    ensures
        r == paths.deep_view().contains(path@),
{
    let ghost s = paths.deep_view();
    let mut i: usize = 0;
    while i < paths.len()
        invariant
            i <= paths@.len(),
            s == paths.deep_view(),
            forall|j: int| 0 <= j < i ==> s[j] != path@,
        decreases paths@.len() - i,
    {
        if same(&paths[i], path) {
            assert(s[i as int] == path@);
            return true;
        }
        assert(s[i as int] != path@);
        i += 1;
    }
    false
}

/// The next unit of background media work, lowest id first within each phase:
/// capture dates, then probes, then segmentation. Recordings that a pending
/// bundle offer covers are held out of probes and segmentation. `None` when
/// nothing is left to do, or no library is active.
pub fn next_media_work(conn: &Store, files: &Vec<BundleFile>) -> (r: Option<MediaWork>)
    ensures
        r.deep_view() == next_work(conn@, files.deep_view()),
{
    let kind = active_kind(conn);
    let library = match library_path_of(conn, &kind) {
        Some(l) => l,
        None => {
            return None;
        },
    };
    let ghost d = conn@;
    let ghost fv = files.deep_view();
    if let Some(i) = position(
        &conn.recordings,
        |r: &RecordingRow| -> (b: bool)
            ensures
                b == undated(kind@)(r.deep_view())
            { same(&r.library, &kind) && same(&r.date_state, "unknown") },
        Ghost(undated(kind@)),
    ) {
        let r = &conn.recordings[i];
        return Some(MediaWork::CaptureDate(r.id, absolute(&library, &r.path)));
    }
    let held = pending_bundle_paths(conn, files);
    if let Some(i) = position(
        &conn.recordings,
        |r: &RecordingRow| -> (b: bool)
            ensures
                b == unprobed(d, fv, kind@)(r.deep_view())
            {
                same(&r.library, &kind) && same(&r.probe_state, "unknown") && !is_covered(
                    &held,
                    &r.path,
                )
            },
        Ghost(unprobed(d, fv, kind@)),
    ) {
        let r = &conn.recordings[i];
        return Some(MediaWork::Probe(r.id, absolute(&library, &r.path)));
    }
    if let Some(i) = position(
        &conn.recordings,
        |r: &RecordingRow| -> (b: bool)
            ensures
                b == unsegmented_in(d, fv, kind@)(r.deep_view())
            {
                same(&r.library, &kind) && same(&r.probe_state, "ready") && same(
                    &r.segment_state,
                    "unknown",
                ) && !is_covered(&held, &r.path)
            },
        Ghost(unsegmented_in(d, fv, kind@)),
    ) {
        let r = &conn.recordings[i];
        return Some(MediaWork::Segment(r.id, absolute(&library, &r.path)));
    }
    None
}

/// The declared locality of the active library's mount, or `None` when it is not
/// designated.
pub fn active_mount(conn: &Store) -> (r: Option<String>)
    ensures
        r.deep_view() == (match first(conn@.libraries, library_of(conn@.active_kind())) {
            Some(l) => Some(l.mount),
            None => None,
        }),
{
    let kind = active_kind(conn);
    match position(
        &conn.libraries,
        |l: &LibraryRow| -> (b: bool)
            ensures
                b == (l.kind@ == kind@)
            { same(&l.kind, &kind) },
        Ghost(library_of(kind@)),
    ) {
        Some(i) => Some(conn.libraries[i].mount.clone()),
        None => None,
    }
}

/// A recording still needing analysis, with its absolute path and which phases
/// remain.
#[derive(Debug, PartialEq)]
pub struct PendingAnalysis {
    pub id: i64,
    pub path: String,
    pub needs_probe: bool,
    pub needs_segment: bool,
}

/// What a pending analysis holds.
#[verifier::ext_equal]
pub struct PendingView {
    pub id: i64,
    pub path: Seq<char>,
    pub needs_probe: bool,
    pub needs_segment: bool,
}

impl DeepView for PendingAnalysis {
    type V = PendingView;

    open spec fn deep_view(&self) -> PendingView {
        PendingView {
            id: self.id,
            path: self.path@,
            needs_probe: self.needs_probe,
            needs_segment: self.needs_segment,
        }
    }
}

/// The recordings of a library that a probe or segmentation is left for and that
/// no pending offer covers.
pub open spec fn awaiting(d: StoreView, files: Seq<BundleFileView>, kind: Seq<char>) -> spec_fn(
    RecordingView,
) -> bool {
    |r: RecordingView|
        {
            &&& r.library == kind
            &&& r.probe_state == "unknown"@ || (r.probe_state == "ready"@ && r.segment_state
                == "unknown"@)
            &&& !covered(d, files, r.path)
        }
}

/// Which phases remain for a recording.
pub open spec fn pending_of(library: Seq<char>) -> spec_fn(RecordingView) -> PendingView {
    |r: RecordingView|
        PendingView {
            id: r.id,
            path: joined(library, r.path),
            needs_probe: r.probe_state == "unknown"@,
            needs_segment: r.segment_state == "unknown"@,
        }
}

/// Every recording in the active library still needing a probe or segmentation,
/// lowest id first, except those that a pending offer covers.
pub fn pending_analysis(conn: &Store, files: &Vec<BundleFile>) -> (r: Vec<PendingAnalysis>)
    ensures
        r.deep_view() == (match conn@.library_path_of(conn@.active_kind()) {
            Some(library) => conn@.recordings.filter(
                awaiting(conn@, files.deep_view(), conn@.active_kind()),
            ).map_values(pending_of(library)),
            None => Seq::empty(),
        }),
{
    let kind = active_kind(conn);
    let library = match library_path_of(conn, &kind) {
        Some(l) => l,
        None => {
            let out: Vec<PendingAnalysis> = Vec::new();
            assert(out.deep_view() =~= Seq::empty());
            return out;
        },
    };
    let held = pending_bundle_paths(conn, files);
    let ghost d = conn@;
    let ghost fv = files.deep_view();
    let rows = keep(
        &conn.recordings,
        |r: &RecordingRow| -> (b: bool)
            ensures
                b == awaiting(d, fv, kind@)(r.deep_view())
            {
                same(&r.library, &kind) && (same(&r.probe_state, "unknown") || (same(
                    &r.probe_state,
                    "ready",
                ) && same(&r.segment_state, "unknown"))) && !is_covered(&held, &r.path)
            },
        Ghost(awaiting(d, fv, kind@)),
    );
    each(
        &rows,
        |r: &RecordingRow| -> (p: PendingAnalysis)
            ensures
                p.deep_view() == pending_of(library@)(r.deep_view())
            {
                PendingAnalysis {
                    id: r.id,
                    path: absolute(&library, &r.path),
                    needs_probe: same(&r.probe_state, "unknown"),
                    needs_segment: same(&r.segment_state, "unknown"),
                }
            },
        Ghost(pending_of(library@)),
    )
}

/// A recording with its playability state set.
pub open spec fn probed(state: Seq<char>) -> spec_fn(RecordingView) -> RecordingView {
    |r: RecordingView| RecordingView { probe_state: state, ..r }
}

/// A recording with its segmentation state set.
pub open spec fn segmented(state: Seq<char>) -> spec_fn(RecordingView) -> RecordingView {
    |r: RecordingView| RecordingView { segment_state: state, ..r }
}

/// Record a probe's outcome: `ready` or `failed`.
pub fn set_probe_result(conn: &mut Store, id: i64, state: &str)
    ensures
        final(conn)@ == (StoreView {
            recordings: rewrite(old(conn)@.recordings, recording_with(id), probed(state@)),
            ..old(conn)@
        }),
        old(conn)@.wf() ==> final(conn)@.wf(),
{
    proof {
        if conn@.wf() {
            crate::upkeep::recordings_rewritten(conn@, recording_with(id), probed(state@));
        }
    }
    let ghost g = probed(state@);
    amend(
        conn,
        id,
        |r: &RecordingRow| -> (n: RecordingRow)
            ensures
                n.deep_view() == g(r.deep_view())
            {
                let mut n = r.dup();
                n.probe_state = state.to_owned();
                n
            },
        Ghost(g),
    );
}

/// Advance a recording's segmentation lifecycle state.
pub fn set_segment_state(conn: &mut Store, id: i64, state: &str)
    ensures
        final(conn)@ == (StoreView {
            recordings: rewrite(old(conn)@.recordings, recording_with(id), segmented(state@)),
            ..old(conn)@
        }),
        old(conn)@.wf() ==> final(conn)@.wf(),
{
    proof {
        if conn@.wf() {
            crate::upkeep::recordings_rewritten(conn@, recording_with(id), segmented(state@));
        }
    }
    let ghost g = segmented(state@);
    amend(
        conn,
        id,
        |r: &RecordingRow| -> (n: RecordingRow)
            ensures
                n.deep_view() == g(r.deep_view())
            {
                let mut n = r.dup();
                n.segment_state = state.to_owned();
                n
            },
        Ghost(g),
    );
}

/// A recording without its draft, queued for segmentation.
pub open spec fn requeued() -> spec_fn(RecordingView) -> RecordingView {
    |r: RecordingView|
        RecordingView { segment_state: "unknown"@, duration_ms: None, waveform: None, ..r }
}

/// A recording without its draft, queued for segmentation.
fn requeue(r: &RecordingRow) -> (n: RecordingRow)
    ensures
        n.deep_view() == requeued()(r.deep_view()),
{
    let mut n = r.dup();
    n.segment_state = "unknown".to_owned();
    n.duration_ms = None;
    n.waveform = None;
    n
}

/// The store after the draft of the recording at a path is dropped.
pub open spec fn segmentation_reset(d: StoreView, path: Seq<char>) -> StoreView {
    match row_at(d, path) {
        Some(row) => StoreView {
            rallies: d.rallies.filter(rallies_not_of(row.id)),
            recordings: rewrite(d.recordings, recording_with(row.id), requeued()),
            ..d
        },
        None => d,
    }
}

/// Reset a recording's draft timeline so that it is segmented again: drop its
/// rallies and return it to `unknown`. Nothing happens when `path` is not
/// registered.
pub fn reset_segmentation(conn: &mut Store, path: &str)
    ensures
        final(conn)@ == segmentation_reset(old(conn)@, path@),
        old(conn)@.wf() ==> final(conn)@.wf(),
{
    proof {
        if conn@.wf() {
            crate::upkeep::segmentation_reset_wf(conn@, path@);
        }
    }
    let id = match crate::timeline::recording_id(conn, path) {
        Some(id) => id,
        None => {
            return;
        },
    };
    conn.rallies =
    keep(
        &conn.rallies,
        |r: &RallyRow| -> (b: bool)
            ensures
                b == (r.recording_id != id)
            { r.recording_id != id },
        Ghost(rallies_not_of(id)),
    );
    amend(
        conn,
        id,
        |r: &RecordingRow| -> (n: RecordingRow)
            ensures
                n.deep_view() == requeued()(r.deep_view())
            { requeue(r) },
        Ghost(requeued()),
    );
    assert(conn@ =~= segmentation_reset(old(conn)@, path@));
}

/// The rallies on recordings outside of a library.
pub open spec fn rallies_outside(d: StoreView, kind: Seq<char>) -> spec_fn(RallyView) -> bool {
    |r: RallyView| !any(d.recordings, recording_within(kind, r.recording_id))
}

/// The store after every draft of a library is dropped.
pub open spec fn all_reset(d: StoreView, kind: Seq<char>) -> StoreView {
    StoreView {
        rallies: d.rallies.filter(rallies_outside(d, kind)),
        recordings: rewrite(d.recordings, recordings_of(kind), requeued()),
        ..d
    }
}

/// Reset every recording's draft timeline in the active library so that it is
/// segmented again. Manual corrections are discarded with the drafts.
pub fn reset_all_segmentation(conn: &mut Store)
    ensures
        final(conn)@ == all_reset(old(conn)@, old(conn)@.active_kind()),
        old(conn)@.wf() ==> final(conn)@.wf(),
{
    proof {
        if conn@.wf() {
            crate::upkeep::all_reset_wf(conn@, conn@.active_kind());
        }
    }
    let kind = active_kind(conn);
    let ghost d = conn@;
    let recordings_now = &conn.recordings;
    let rallies = keep(
        &conn.rallies,
        |x: &RallyRow| -> (b: bool)
            ensures
                b == rallies_outside(d, kind@)(x.deep_view())
            {
                let id = x.recording_id;
                position(
                    recordings_now,
                    |r: &RecordingRow| -> (b: bool)
                        ensures
                            b == (r.id == id && r.library@ == kind@)
                        { r.id == id && same(&r.library, &kind) },
                    Ghost(recording_within(kind@, id)),
                ).is_none()
            },
        Ghost(rallies_outside(d, kind@)),
    );
    let ghost p = recordings_of(kind@);
    let ghost h = |r: RecordingView|
        if p(r) {
            requeued()(r)
        } else {
            r
        };
    let recordings = each(
        &conn.recordings,
        |r: &RecordingRow| -> (n: RecordingRow)
            ensures
                n.deep_view() == h(r.deep_view())
            {
                if same(&r.library, &kind) {
                    requeue(r)
                } else {
                    r.dup()
                }
            },
        Ghost(h),
    );
    conn.rallies = rallies;
    conn.recordings = recordings;
    assert(conn@ =~= all_reset(d, kind@));
}

/// The recordings of a library whose draft an outranked segmenter produced and
/// that no hand touched. A draft without a stamp is never stale.
pub open spec fn stale(d: StoreView, kind: Seq<char>) -> spec_fn(RecordingView) -> bool {
    |r: RecordingView|
        {
            &&& r.library == kind
            &&& r.segment_state == "ready"@
            &&& r.segmenter_version matches Some(v) && v < SEGMENTER_VERSION
            &&& !hand_touched(d, r.id)
        }
}

/// The stale recording with an id.
pub open spec fn stale_with(d: StoreView, kind: Seq<char>, id: i64) -> spec_fn(
    RecordingView,
) -> bool {
    |r: RecordingView| r.id == id && stale(d, kind)(r)
}

/// The rallies of recordings that are not stale.
pub open spec fn fresh_rallies(d: StoreView, kind: Seq<char>) -> spec_fn(RallyView) -> bool {
    |x: RallyView| !any(d.recordings, stale_with(d, kind, x.recording_id))
}

/// The store after every stale draft of a library is dropped and queued again.
pub open spec fn stale_requeued(d: StoreView, kind: Seq<char>) -> StoreView {
    StoreView {
        rallies: d.rallies.filter(fresh_rallies(d, kind)),
        recordings: rewrite(d.recordings, stale(d, kind), requeued()),
        ..d
    }
}

/// Whether a recording is stale.
fn is_stale(conn: &Store, kind: &str, r: &RecordingRow) -> (b: bool)
    ensures
        b == stale(conn@, kind@)(r.deep_view()),
{
    let outranked = match r.segmenter_version {
        Some(v) => v < SEGMENTER_VERSION as i64,
        None => false,
    };
    same(&r.library, kind) && same(&r.segment_state, "ready") && outranked && !is_hand_touched(
        conn,
        r.id,
    )
}

/// Queue again every recording of a library whose draft an outranked segmenter
/// produced, dropping that draft. A hand-touched recording is never re-analyzed.
pub fn requeue_stale(conn: &mut Store, kind: &str)
    ensures
        final(conn)@ == stale_requeued(old(conn)@, kind@),
        old(conn)@.wf() ==> final(conn)@.wf(),
{
    proof {
        if conn@.wf() {
            crate::upkeep::stale_requeued_wf(conn@, kind@);
        }
    }
    let ghost d = conn@;
    let now: &Store = conn;
    let rallies = keep(
        &now.rallies,
        |x: &RallyRow| -> (b: bool)
            ensures
                b == fresh_rallies(d, kind@)(x.deep_view())
            {
                let id = x.recording_id;
                position(
                    &now.recordings,
                    |r: &RecordingRow| -> (b: bool)
                        ensures
                            b == stale_with(d, kind@, id)(r.deep_view())
                        { r.id == id && is_stale(now, kind, r) },
                    Ghost(stale_with(d, kind@, id)),
                ).is_none()
            },
        Ghost(fresh_rallies(d, kind@)),
    );
    let ghost p = stale(d, kind@);
    let ghost h = |r: RecordingView|
        if p(r) {
            requeued()(r)
        } else {
            r
        };
    let recordings = each(
        &now.recordings,
        |r: &RecordingRow| -> (n: RecordingRow)
            ensures
                n.deep_view() == h(r.deep_view())
            {
                if is_stale(now, kind, r) {
                    requeue(r)
                } else {
                    r.dup()
                }
            },
        Ghost(h),
    );
    conn.rallies = rallies;
    conn.recordings = recordings;
    assert(conn@ =~= stale_requeued(d, kind@));
}

/// A segmenter rally as it is written: not flagged.
pub open spec fn drafted() -> spec_fn(Rally) -> Draft {
    |r: Rally|
        Draft {
            start_ms: r.start_ms,
            end_ms: r.end_ms,
            confidence: r.confidence,
            flagged: false,
        }
}

/// A recording with the draft of the active segmenter.
pub open spec fn draft_saved(duration_ms: i64, waveform: Seq<Seq<char>>) -> spec_fn(
    RecordingView,
) -> RecordingView {
    |r: RecordingView|
        RecordingView {
            segment_state: "ready"@,
            duration_ms: Some(duration_ms),
            waveform: Some(waveform_json(waveform)),
            segmenter_version: Some(SEGMENTER_VERSION as i64),
            ..r
        }
}

/// The store after a recording's draft timeline is persisted.
pub open spec fn rallies_saved(
    d: StoreView,
    id: i64,
    duration_ms: i64,
    rallies: Seq<Rally>,
    waveform: Seq<Seq<char>>,
) -> StoreView {
    StoreView {
        rallies: rallies_replaced(d.rallies, id, rallies.map_values(drafted())),
        recordings: rewrite(d.recordings, recording_with(id), draft_saved(duration_ms, waveform)),
        ..d
    }
}

/// Persist a recording's draft timeline: replace any prior rallies, store the
/// learned duration and the waveform, stamp the segmenter version, and mark it
/// segmented. Refused, with nothing changed, when there are rallies but no such
/// recording.
pub fn save_rallies(
    conn: &mut Store,
    recording_id: i64,
    duration_ms: i64,
    rallies: &Vec<Rally>,
    waveform: &Vec<String>,
) -> (r: Result<(), StoreError>)
    requires
        rallies_fit(old(conn)@.rallies, recording_id, rallies@.len()),
    ensures
        r is Err <==> rallies@.len() > 0 && !any(
            old(conn)@.recordings,
            recording_with(recording_id),
        ),
        r matches Err(e) ==> e == StoreError::UnknownRecording && final(conn)@ == old(conn)@,
        r is Ok ==> final(conn)@ == rallies_saved(
            old(conn)@,
            recording_id,
            duration_ms,
            rallies@,
            waveform.deep_view(),
        ),
        old(conn)@.wf() ==> final(conn)@.wf(),
{
    proof {
        if conn@.wf() && (rallies@.len() > 0 ==> any(
            conn@.recordings,
            recording_with(recording_id),
        )) {
            crate::upkeep::rallies_saved_wf(
                conn@,
                recording_id,
                duration_ms,
                rallies@,
                waveform.deep_view(),
            );
        }
    }
    if rallies.len() > 0 && find_id(conn, recording_id).is_none() {
        return Err(StoreError::UnknownRecording);
    }
    let mut drafts: Vec<Draft> = Vec::new();
    let mut i: usize = 0;
    while i < rallies.len()
        invariant
            i <= rallies@.len(),
            drafts@ == rallies@.take(i as int).map_values(drafted()),
        decreases rallies@.len() - i,
    {
        let r: Rally = rallies[i];
        drafts.push(
            Draft {
                start_ms: r.start_ms,
                end_ms: r.end_ms,
                confidence: r.confidence,
                flagged: false,
            },
        );
        assert(drafts@ =~= rallies@.take(i + 1).map_values(drafted()));
        i += 1;
    }
    assert(rallies@.take(i as int) =~= rallies@);
    replace_rallies(conn, recording_id, &drafts);
    let ghost g = draft_saved(duration_ms, waveform.deep_view());
    amend(
        conn,
        recording_id,
        |r: &RecordingRow| -> (n: RecordingRow)
            ensures
                n.deep_view() == g(r.deep_view())
            {
                let mut n = r.dup();
                n.segment_state = "ready".to_owned();
                n.duration_ms = Some(duration_ms);
                n.waveform = Some(waveform_to_json(waveform));
                n.segmenter_version = Some(SEGMENTER_VERSION as i64);
                n
            },
        Ghost(g),
    );
    Ok(())
}

} // verus!
