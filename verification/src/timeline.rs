//! The draft timeline: reading a recording's rallies for the player, the inline
//! corrections (adjust, split, merge, add, delete) and the rally flag.
use vstd::prelude::*;

use crate::library::{key_of, stored_key};
use crate::store::{
    annotations_of, next_rally, rallies_of, recording_at, AnnotationRow, RallyRow, RallyView,
    RecordingRow, RecordingView, Store, StoreView,
};
use crate::table::{any, each, first, keep, position, rewrite, sort_by, sorted, Row};
use crate::text::same;
use crate::waveform::{parse_waveform, peaks_of};

verus! {

/// Confidence of a hand-corrected rally, in billionths: fully certain.
pub const CORRECTED_CONFIDENCE: i64 = 1_000_000_000;

/// A rally as the player needs it: its interval and its row id. Confidence is in
/// billionths.
#[derive(Debug)]
pub struct TimelineRally {
    pub id: i64,
    pub start_ms: i64,
    pub end_ms: i64,
    pub confidence: i64,
    pub flagged: bool,
}

/// A recording's draft timeline as the player needs it.
#[derive(Debug)]
pub struct Timeline {
    /// `unknown` (still queued), `ready` (the rallies are the draft) or `failed`.
    pub segment_state: String,
    /// Recording duration, once segmented.
    pub duration_ms: Option<i64>,
    pub rallies: Vec<TimelineRally>,
    /// The waveform peaks, each as the text of its number.
    pub waveform: Vec<String>,
}

/// What a timeline rally holds.
#[verifier::ext_equal]
pub struct TimelineRallyView {
    pub id: i64,
    pub start_ms: i64,
    pub end_ms: i64,
    pub confidence: i64,
    pub flagged: bool,
}

/// What a timeline holds.
#[verifier::ext_equal]
pub struct TimelineView {
    pub segment_state: Seq<char>,
    pub duration_ms: Option<i64>,
    pub rallies: Seq<TimelineRallyView>,
    pub waveform: Seq<Seq<char>>,
}

impl DeepView for TimelineRally {
    type V = TimelineRallyView;

    open spec fn deep_view(&self) -> TimelineRallyView {
        TimelineRallyView {
            id: self.id,
            start_ms: self.start_ms,
            end_ms: self.end_ms,
            confidence: self.confidence,
            flagged: self.flagged,
        }
    }
}

impl DeepView for Timeline {
    type V = TimelineView;

    open spec fn deep_view(&self) -> TimelineView {
        TimelineView {
            segment_state: self.segment_state@,
            duration_ms: self.duration_ms,
            rallies: self.rallies.deep_view(),
            waveform: self.waveform.deep_view(),
        }
    }
}

/// Rallies in the order of their starts.
pub open spec fn by_start() -> spec_fn(RallyView, RallyView) -> bool {
    |a: RallyView, b: RallyView| a.start_ms < b.start_ms
}

/// The rallies of a recording in timeline order.
pub open spec fn ordered_rallies(d: StoreView, recording: i64) -> Seq<RallyView> {
    sort_by(d.rallies.filter(rallies_of(recording)), by_start())
}

/// What is told of a rally row.
pub open spec fn timeline_rally() -> spec_fn(RallyView) -> TimelineRallyView {
    |r: RallyView|
        TimelineRallyView {
            id: r.id,
            start_ms: r.start_ms,
            end_ms: r.end_ms,
            confidence: r.confidence,
            flagged: r.flagged,
        }
}

/// The timeline of a recording row.
pub open spec fn timeline_of(d: StoreView, r: RecordingView) -> TimelineView {
    TimelineView {
        segment_state: r.segment_state,
        duration_ms: r.duration_ms,
        rallies: ordered_rallies(d, r.id).map_values(timeline_rally()),
        waveform: peaks_of(r.waveform),
    }
}

/// The recording row at an absolute path of the active library.
pub open spec fn row_at(d: StoreView, path: Seq<char>) -> Option<RecordingView> {
    match key_of(d, path) {
        Some((kind, key)) => first(d.recordings, recording_at(kind, key)),
        None => None,
    }
}

/// The id of the recording at an absolute path of the active library.
pub open spec fn id_of(d: StoreView, path: Seq<char>) -> Option<i64> {
    match row_at(d, path) {
        Some(r) => Some(r.id),
        None => None,
    }
}

/// The position of the recording stored under a key.
pub(crate) fn find_recording(conn: &Store, kind: &str, key: &str) -> (r: Option<usize>)
    ensures
        match r {
            Some(i) => i < conn.recordings@.len() && first(
                conn@.recordings,
                recording_at(kind@, key@),
            ) == Some(conn.recordings@[i as int].deep_view()),
            None => first(conn@.recordings, recording_at(kind@, key@)) is None,
        },
{
    position(
        &conn.recordings,
        |r: &RecordingRow| -> (b: bool)
            ensures
                b == (r.library@ == kind@ && r.path@ == key@)
            { same(&r.library, kind) && same(&r.path, key) },
        Ghost(recording_at(kind@, key@)),
    )
}

/// The position of the recording at an absolute path of the active library.
pub(crate) fn locate(conn: &Store, path: &str) -> (r: Option<usize>)
    ensures
        match r {
            Some(i) => i < conn.recordings@.len() && row_at(conn@, path@) == Some(
                conn.recordings@[i as int].deep_view(),
            ),
            None => row_at(conn@, path@) is None,
        },
{
    match stored_key(conn, path) {
        Some((kind, key)) => find_recording(conn, &kind, &key),
        None => None,
    }
}

/// The rows of a recording's rallies in timeline order.
pub(crate) fn rally_rows(conn: &Store, recording: i64) -> (rows: Vec<RallyRow>)
    ensures
        rows.deep_view() == ordered_rallies(conn@, recording),
{
    let own = keep(
        &conn.rallies,
        |r: &RallyRow| -> (b: bool)
            ensures
                b == (r.recording_id == recording)
            { r.recording_id == recording },
        Ghost(rallies_of(recording)),
    );
    sorted(
        &own,
        |a: &RallyRow, b: &RallyRow| -> (r: bool)
            ensures
                r == (a.start_ms < b.start_ms)
            { a.start_ms < b.start_ms },
        Ghost(by_start()),
    )
}

/// The draft timeline for the recording at `path`, or `None` when the path is not
/// a registered recording.
pub fn recording_timeline(conn: &Store, path: &str) -> (r: Option<Timeline>)
    ensures
        r.deep_view() == match row_at(conn@, path@) {
            Some(row) => Some(timeline_of(conn@, row)),
            None => None,
        },
{
    let at = match locate(conn, path) {
        Some(i) => i,
        None => {
            return None;
        },
    };
    let row = &conn.recordings[at];
    let waveform = match &row.waveform {
        Some(s) => parse_waveform(Some(s.as_str())),
        None => parse_waveform(None),
    };
    let rows = rally_rows(conn, row.id);
    let rallies = each(
        &rows,
        |r: &RallyRow| -> (t: TimelineRally)
            ensures
                t.deep_view() == timeline_rally()(r.deep_view())
            {
                TimelineRally {
                    id: r.id,
                    start_ms: r.start_ms,
                    end_ms: r.end_ms,
                    confidence: r.confidence,
                    flagged: r.flagged,
                }
            },
        Ghost(timeline_rally()),
    );
    Some(
        Timeline {
            segment_state: row.segment_state.clone(),
            duration_ms: row.duration_ms,
            rallies,
            waveform,
        },
    )
}

/// The timeline of a recording that is not registered.
pub open spec fn unknown_timeline() -> TimelineView {
    TimelineView {
        segment_state: "unknown"@,
        duration_ms: None,
        rallies: Seq::empty(),
        waveform: Seq::empty(),
    }
}

/// The draft timeline for the recording at `path`, as the player asks for it: one
/// that is not registered is still unknown, without rallies.
pub fn timeline_or_unknown(conn: &Store, path: &str) -> (r: Timeline)
    ensures
        r.deep_view() == (match row_at(conn@, path@) {
            Some(row) => timeline_of(conn@, row),
            None => unknown_timeline(),
        }),
{
    match recording_timeline(conn, path) {
        Some(t) => t,
        None => {
            let t = Timeline {
                segment_state: "unknown".to_owned(),
                duration_ms: None,
                rallies: Vec::new(),
                waveform: Vec::new(),
            };
            assert(t.deep_view() =~= unknown_timeline());
            t
        },
    }
}

/// The id of the recording at `path`, or `None` when unregistered.
pub fn recording_id(conn: &Store, path: &str) -> (r: Option<i64>)
    ensures
        r == id_of(conn@, path@),
{
    match locate(conn, path) {
        Some(i) => Some(conn.recordings[i].id),
        None => None,
    }
}

/// The rallies of a recording that a hand has touched: flagged or corrected.
pub open spec fn touched_rally(id: i64) -> spec_fn(RallyView) -> bool {
    |r: RallyView| r.recording_id == id && (r.flagged || r.confidence >= CORRECTED_CONFIDENCE)
}

/// Whether a recording carries hand-touched review: a flagged rally, a corrected
/// rally, or any annotation.
pub open spec fn hand_touched(d: StoreView, id: i64) -> bool {
    any(d.rallies, touched_rally(id)) || any(d.annotations, annotations_of(id))
}

/// Whether a recording carries hand-touched review.
pub fn is_hand_touched(conn: &Store, id: i64) -> (r: bool)
    ensures
        r == hand_touched(conn@, id),
{
    if position(
        &conn.rallies,
        |r: &RallyRow| -> (b: bool)
            ensures
                b == (r.recording_id == id && (r.flagged || r.confidence >= CORRECTED_CONFIDENCE))
            { r.recording_id == id && (r.flagged || r.confidence >= CORRECTED_CONFIDENCE) },
        Ghost(touched_rally(id)),
    ).is_some() {
        return true;
    }
    position(
        &conn.annotations,
        |a: &AnnotationRow| -> (b: bool)
            ensures
                b == (a.recording_id == id)
            { a.recording_id == id },
        Ghost(annotations_of(id)),
    ).is_some()
}

/// The rally with an id among those of a recording.
pub open spec fn rally_in(recording: i64, rally: i64) -> spec_fn(RallyView) -> bool {
    |r: RallyView| r.id == rally && r.recording_id == recording
}

/// A rally other than the one with an id among those of a recording.
pub open spec fn rally_not_in(recording: i64, rally: i64) -> spec_fn(RallyView) -> bool {
    |r: RallyView| !(r.id == rally && r.recording_id == recording)
}

/// A rally moved to an interval, and thereby fully certain.
pub open spec fn moved(lo: i64, hi: i64) -> spec_fn(RallyView) -> RallyView {
    |r: RallyView|
        RallyView { start_ms: lo, end_ms: hi, confidence: CORRECTED_CONFIDENCE, ..r }
}

/// A rally with its flag set.
pub open spec fn reflagged(flagged: bool) -> spec_fn(RallyView) -> RallyView {
    |r: RallyView| RallyView { flagged, ..r }
}

/// The lesser of two boundaries.
pub open spec fn lower(a: i64, b: i64) -> i64 {
    if a <= b {
        a
    } else {
        b
    }
}

/// The greater of two boundaries.
pub open spec fn upper(a: i64, b: i64) -> i64 {
    if a <= b {
        b
    } else {
        a
    }
}

/// The two boundaries in ascending order, so a reversed drag still yields a
/// well-formed interval.
pub fn ordered(a: i64, b: i64) -> (r: (i64, i64))
    ensures
        r == (lower(a, b), upper(a, b)),
        r.0 <= r.1,
{
    if a <= b {
        (a, b)
    } else {
        (b, a)
    }
}

/// The store after the boundaries of a rally are moved.
pub open spec fn rally_updated(
    d: StoreView,
    path: Seq<char>,
    rally_id: i64,
    start_ms: i64,
    end_ms: i64,
) -> StoreView {
    match id_of(d, path) {
        Some(id) => StoreView {
            rallies: rewrite(
                d.rallies,
                rally_in(id, rally_id),
                moved(lower(start_ms, end_ms), upper(start_ms, end_ms)),
            ),
            ..d
        },
        None => d,
    }
}

/// Whether a recording is registered at `path` and has the rally.
pub open spec fn has_rally(d: StoreView, path: Seq<char>, rally_id: i64) -> bool {
    match id_of(d, path) {
        Some(id) => any(d.rallies, rally_in(id, rally_id)),
        None => false,
    }
}

/// Whether a recording has a rally with an id.
fn find_rally(conn: &Store, recording: i64, rally_id: i64) -> (r: bool)
    ensures
        r == any(conn@.rallies, rally_in(recording, rally_id)),
{
    position(
        &conn.rallies,
        |r: &RallyRow| -> (b: bool)
            ensures
                b == (r.id == rally_id && r.recording_id == recording)
            { r.id == rally_id && r.recording_id == recording },
        Ghost(rally_in(recording, rally_id)),
    ).is_some()
}

/// Move a rally's boundaries. The edit is scoped to the recording at `path`, and
/// the rally becomes fully certain. Returns `false` when the recording or rally
/// is not found.
pub fn update_rally(
    conn: &mut Store,
    path: &str,
    rally_id: i64,
    start_ms: i64,
    end_ms: i64,
) -> (r: bool)
    ensures
        r == has_rally(old(conn)@, path@, rally_id),
        final(conn)@ == rally_updated(old(conn)@, path@, rally_id, start_ms, end_ms),
        old(conn)@.wf() ==> final(conn)@.wf(),
{
    proof {
        if conn@.wf() {
            crate::upkeep::rally_updated_wf(conn@, path@, rally_id, start_ms, end_ms);
        }
    }
    let rid = match recording_id(conn, path) {
        Some(id) => id,
        None => {
            return false;
        },
    };
    let (lo, hi) = ordered(start_ms, end_ms);
    let found = find_rally(conn, rid, rally_id);
    let ghost p = rally_in(rid, rally_id);
    let ghost f = moved(lo, hi);
    let ghost g = |r: RallyView|
        if p(r) {
            f(r)
        } else {
            r
        };
    conn.rallies =
    each(
        &conn.rallies,
        |r: &RallyRow| -> (n: RallyRow)
            ensures
                n.deep_view() == g(r.deep_view())
            {
                if r.id == rally_id && r.recording_id == rid {
                    RallyRow {
                        id: r.id,
                        recording_id: r.recording_id,
                        start_ms: lo,
                        end_ms: hi,
                        confidence: CORRECTED_CONFIDENCE,
                        flagged: r.flagged,
                    }
                } else {
                    r.dup()
                }
            },
        Ghost(g),
    );
    assert(conn@ =~= rally_updated(old(conn)@, path@, rally_id, start_ms, end_ms));
    found
}

/// A rally over a span that the segmenter missed: fully certain, not flagged.
pub open spec fn new_rally(id: i64, recording: i64, start_ms: i64, end_ms: i64) -> RallyView {
    RallyView {
        id,
        recording_id: recording,
        start_ms: lower(start_ms, end_ms),
        end_ms: upper(start_ms, end_ms),
        confidence: CORRECTED_CONFIDENCE,
        flagged: false,
    }
}

/// The store after a rally is added by hand.
pub open spec fn rally_added(
    d: StoreView,
    path: Seq<char>,
    start_ms: i64,
    end_ms: i64,
) -> StoreView {
    match id_of(d, path) {
        Some(id) => StoreView {
            rallies: d.rallies.push(
                new_rally(next_rally(d.rallies) as i64, id, start_ms, end_ms),
            ),
            ..d
        },
        None => d,
    }
}

/// The id that a rally inserted next gets.
pub(crate) fn fresh_rally(conn: &Store) -> (id: i64)
    requires
        next_rally(conn@.rallies) <= i64::MAX,
    ensures
        id == next_rally(conn@.rallies),
{
    let n: usize = conn.rallies.len();
    if n == 0 {
        1
    } else {
        assert(conn@.rallies.last() == conn.rallies@[n - 1].deep_view());
        conn.rallies[n - 1].id + 1
    }
}

/// Create a rally over a span the segmenter missed. Scoped to the recording at
/// `path`; the new rally is fully certain. Returns the new rally's id, or `None`
/// when `path` is not registered.
pub fn add_rally(conn: &mut Store, path: &str, start_ms: i64, end_ms: i64) -> (r: Option<i64>)
    requires
        next_rally(old(conn)@.rallies) <= i64::MAX,
    ensures
        r == (match id_of(old(conn)@, path@) {
            Some(_) => Some(next_rally(old(conn)@.rallies) as i64),
            None => None,
        }),
        final(conn)@ == rally_added(old(conn)@, path@, start_ms, end_ms),
        old(conn)@.wf() ==> final(conn)@.wf(),
{
    proof {
        if conn@.wf() {
            crate::upkeep::rally_added_wf(conn@, path@, start_ms, end_ms);
        }
    }
    let rid = match recording_id(conn, path) {
        Some(id) => id,
        None => {
            return None;
        },
    };
    let (lo, hi) = ordered(start_ms, end_ms);
    let id = fresh_rally(conn);
    conn.rallies.push(
        RallyRow {
            id,
            recording_id: rid,
            start_ms: lo,
            end_ms: hi,
            confidence: CORRECTED_CONFIDENCE,
            flagged: false,
        },
    );
    assert(conn@.rallies =~= old(conn)@.rallies.push(new_rally(id, rid, start_ms, end_ms)));
    assert(conn@ =~= rally_added(old(conn)@, path@, start_ms, end_ms));
    Some(id)
}

/// The store after a rally is deleted.
pub open spec fn rally_deleted(d: StoreView, path: Seq<char>, rally_id: i64) -> StoreView {
    match id_of(d, path) {
        Some(id) => StoreView { rallies: d.rallies.filter(rally_not_in(id, rally_id)), ..d },
        None => d,
    }
}

/// Remove a rally. Scoped to the recording at `path`. Returns `false` when the
/// recording or rally is not found.
pub fn delete_rally(conn: &mut Store, path: &str, rally_id: i64) -> (r: bool)
    ensures
        r == has_rally(old(conn)@, path@, rally_id),
        final(conn)@ == rally_deleted(old(conn)@, path@, rally_id),
        old(conn)@.wf() ==> final(conn)@.wf(),
{
    proof {
        if conn@.wf() {
            crate::upkeep::rally_deleted_wf(conn@, path@, rally_id);
        }
    }
    let rid = match recording_id(conn, path) {
        Some(id) => id,
        None => {
            return false;
        },
    };
    let found = find_rally(conn, rid, rally_id);
    conn.rallies =
    keep(
        &conn.rallies,
        |r: &RallyRow| -> (b: bool)
            ensures
                b == !(r.id == rally_id && r.recording_id == rid)
            { !(r.id == rally_id && r.recording_id == rid) },
        Ghost(rally_not_in(rid, rally_id)),
    );
    assert(conn@ =~= rally_deleted(old(conn)@, path@, rally_id));
    found
}

/// The store after a rally's flag is set.
pub open spec fn rally_flagged(
    d: StoreView,
    path: Seq<char>,
    rally_id: i64,
    flagged: bool,
) -> StoreView {
    match id_of(d, path) {
        Some(id) => StoreView {
            rallies: rewrite(d.rallies, rally_in(id, rally_id), reflagged(flagged)),
            ..d
        },
        None => d,
    }
}

/// Set a rally's flag. Scoped to the recording at `path`. Returns `false` when
/// the recording or rally is not found.
pub fn set_rally_flag(conn: &mut Store, path: &str, rally_id: i64, flagged: bool) -> (r: bool)
    ensures
        r == has_rally(old(conn)@, path@, rally_id),
        final(conn)@ == rally_flagged(old(conn)@, path@, rally_id, flagged),
        old(conn)@.wf() ==> final(conn)@.wf(),
{
    proof {
        if conn@.wf() {
            crate::upkeep::rally_flagged_wf(conn@, path@, rally_id, flagged);
        }
    }
    let rid = match recording_id(conn, path) {
        Some(id) => id,
        None => {
            return false;
        },
    };
    let found = find_rally(conn, rid, rally_id);
    let ghost p = rally_in(rid, rally_id);
    let ghost f = reflagged(flagged);
    let ghost g = |r: RallyView|
        if p(r) {
            f(r)
        } else {
            r
        };
    conn.rallies =
    each(
        &conn.rallies,
        |r: &RallyRow| -> (n: RallyRow)
            ensures
                n.deep_view() == g(r.deep_view())
            {
                let mut n = r.dup();
                if r.id == rally_id && r.recording_id == rid {
                    n.flagged = flagged;
                }
                n
            },
        Ghost(g),
    );
    assert(conn@ =~= rally_flagged(old(conn)@, path@, rally_id, flagged));
    found
}

} // verus!
