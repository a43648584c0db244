//! Session bundles: a metadata-only snapshot of one session's review, and the
//! receive side that applies what other people share.
use vstd::prelude::*;
use vstd::string::*;

use crate::annotations::{annotation_rows, ordered_annotations};
use crate::drafts::{
    annotations_fit, annotations_replaced, drafts_by_start, rallies_fit, rallies_replaced,
    remarks_by_time, replace_annotations, replace_rallies, Draft, Remark, RemarkView,
};
use crate::grouping::amend;
use crate::store::{
    recording_with, recordings_in, AnnotationRow, AnnotationView, RallyRow, RallyView, RecordingRow,
    RecordingView, SessionRow, Store, StoreView,
};
use crate::table::{each, first, keep, position, rewrite, sort_by, sorted, Row};
use crate::text::{
    alphanumeric, before, chars_of, copy_option, drop_back, drop_front, is_char, same, same_option,
    string_of, strip_back, strip_front, text_before,
};
use crate::timeline::{ordered_rallies, rally_rows};
use crate::waveform::{parse_waveform, peaks_of, waveform_json, waveform_to_json};

verus! {

/// The on-disk bundle format tag.
pub const BUNDLE_FORMAT: &'static str = "voloph-session-bundle";

/// The on-disk bundle format version.
pub const BUNDLE_VERSION: u32 = 1;

/// A rally in a bundled timeline. Confidence is in billionths.
#[derive(Debug, Clone, Copy)]
pub struct BundleRally {
    pub start_ms: i64,
    pub end_ms: i64,
    pub confidence: i64,
    pub flagged: bool,
}

/// A verdict annotation in a bundle, without row ids.
#[derive(Debug)]
pub struct BundleAnnotation {
    pub time_ms: i64,
    pub verdict: String,
    pub aspect: Option<String>,
    pub note: Option<String>,
}

/// One recording's review state in a bundle: everything portable, nothing
/// per-device.
#[derive(Debug)]
pub struct BundleRecording {
    /// Library-relative path.
    pub path: String,
    pub quick_hash: String,
    pub file_size: i64,
    pub capture_day: String,
    pub duration_ms: Option<i64>,
    /// The waveform peaks, each as the text of its number.
    pub waveform: Vec<String>,
    pub rallies: Vec<BundleRally>,
    pub annotations: Vec<BundleAnnotation>,
}

/// A whole session's review state as handed off.
#[derive(Debug)]
pub struct SessionBundle {
    pub format: String,
    pub version: u32,
    pub capture_day: String,
    /// Who shared it.
    pub sharer_label: String,
    pub recordings: Vec<BundleRecording>,
}

/// What one recording of a bundle holds.
#[verifier::ext_equal]
pub struct BundleRecordingView {
    pub path: Seq<char>,
    pub quick_hash: Seq<char>,
    pub file_size: i64,
    pub capture_day: Seq<char>,
    pub duration_ms: Option<i64>,
    pub waveform: Seq<Seq<char>>,
    pub rallies: Seq<Draft>,
    pub annotations: Seq<RemarkView>,
}

/// What a bundle holds.
#[verifier::ext_equal]
pub struct SessionBundleView {
    pub format: Seq<char>,
    pub version: u32,
    pub capture_day: Seq<char>,
    pub sharer_label: Seq<char>,
    pub recordings: Seq<BundleRecordingView>,
}

impl DeepView for BundleRally {
    type V = Draft;

    open spec fn deep_view(&self) -> Draft {
        Draft {
            start_ms: self.start_ms,
            end_ms: self.end_ms,
            confidence: self.confidence,
            flagged: self.flagged,
        }
    }
}

impl Row for BundleRally {
    fn dup(&self) -> (r: Self) {
        *self
    }
}

impl DeepView for BundleAnnotation {
    type V = RemarkView;

    open spec fn deep_view(&self) -> RemarkView {
        RemarkView {
            time_ms: self.time_ms,
            verdict: self.verdict@,
            aspect: self.aspect.deep_view(),
            note: self.note.deep_view(),
        }
    }
}

impl Row for BundleAnnotation {
    fn dup(&self) -> (r: Self) {
        BundleAnnotation {
            time_ms: self.time_ms,
            verdict: self.verdict.clone(),
            aspect: copy_option(&self.aspect),
            note: copy_option(&self.note),
        }
    }
}

impl DeepView for BundleRecording {
    type V = BundleRecordingView;

    open spec fn deep_view(&self) -> BundleRecordingView {
        BundleRecordingView {
            path: self.path@,
            quick_hash: self.quick_hash@,
            file_size: self.file_size,
            capture_day: self.capture_day@,
            duration_ms: self.duration_ms,
            waveform: self.waveform.deep_view(),
            rallies: self.rallies.deep_view(),
            annotations: self.annotations.deep_view(),
        }
    }
}

impl DeepView for SessionBundle {
    type V = SessionBundleView;

    open spec fn deep_view(&self) -> SessionBundleView {
        SessionBundleView {
            format: self.format@,
            version: self.version,
            capture_day: self.capture_day@,
            sharer_label: self.sharer_label@,
            recordings: self.recordings.deep_view(),
        }
    }
}

/// What a rally row contributes to a bundle.
pub open spec fn carried_rally() -> spec_fn(RallyView) -> Draft {
    |r: RallyView|
        Draft {
            start_ms: r.start_ms,
            end_ms: r.end_ms,
            confidence: r.confidence,
            flagged: r.flagged,
        }
}

/// What an annotation row contributes to a bundle.
pub open spec fn carried_annotation() -> spec_fn(AnnotationView) -> RemarkView {
    |a: AnnotationView|
        RemarkView { time_ms: a.time_ms, verdict: a.verdict, aspect: a.aspect, note: a.note }
}

/// Recordings in the order of their paths.
pub open spec fn by_path() -> spec_fn(RecordingView, RecordingView) -> bool {
    |a: RecordingView, b: RecordingView| text_before(a.path, b.path)
}

/// What a recording row contributes to a bundle.
pub open spec fn carried_recording(d: StoreView) -> spec_fn(RecordingView) -> BundleRecordingView {
    |r: RecordingView|
        BundleRecordingView {
            path: r.path,
            quick_hash: r.quick_hash,
            file_size: r.file_size,
            capture_day: r.capture_day,
            duration_ms: r.duration_ms,
            waveform: peaks_of(r.waveform),
            rallies: ordered_rallies(d, r.id).map_values(carried_rally()),
            annotations: ordered_annotations(d, r.id).map_values(carried_annotation()),
        }
}

/// The bundle of a session.
pub open spec fn session_bundle(d: StoreView, session_id: i64, sharer_label: Seq<char>) -> Option<
    SessionBundleView,
> {
    match first(d.sessions, crate::annotations::session_with(session_id)) {
        Some(s) => Some(
            SessionBundleView {
                format: BUNDLE_FORMAT@,
                version: BUNDLE_VERSION,
                capture_day: s.capture_day,
                sharer_label,
                recordings: sort_by(
                    d.recordings.filter(recordings_in(session_id)),
                    by_path(),
                ).map_values(carried_recording(d)),
            },
        ),
        None => None,
    }
}

/// The rallies of a recording as they are bundled.
fn bundle_rallies(conn: &Store, id: i64) -> (r: Vec<BundleRally>)
    ensures
        r.deep_view() == ordered_rallies(conn@, id).map_values(carried_rally()),
{
    each(
        &rally_rows(conn, id),
        |r: &RallyRow| -> (t: BundleRally)
            ensures
                t.deep_view() == carried_rally()(r.deep_view())
            {
                BundleRally {
                    start_ms: r.start_ms,
                    end_ms: r.end_ms,
                    confidence: r.confidence,
                    flagged: r.flagged,
                }
            },
        Ghost(carried_rally()),
    )
}

/// The annotations of a recording as they are bundled.
fn bundle_annotations(conn: &Store, id: i64) -> (r: Vec<BundleAnnotation>)
    ensures
        r.deep_view() == ordered_annotations(conn@, id).map_values(carried_annotation()),
{
    each(
        &annotation_rows(conn, id),
        |a: &AnnotationRow| -> (t: BundleAnnotation)
            ensures
                t.deep_view() == carried_annotation()(a.deep_view())
            {
                BundleAnnotation {
                    time_ms: a.time_ms,
                    verdict: a.verdict.clone(),
                    aspect: copy_option(&a.aspect),
                    note: copy_option(&a.note),
                }
            },
        Ghost(carried_annotation()),
    )
}

/// A recording as it is bundled.
fn bundle_recording(conn: &Store, r: &RecordingRow) -> (b: BundleRecording)
    ensures
        b.deep_view() == carried_recording(conn@)(r.deep_view()),
{
    let waveform = match &r.waveform {
        Some(s) => parse_waveform(Some(s.as_str())),
        None => parse_waveform(None),
    };
    BundleRecording {
        path: r.path.clone(),
        quick_hash: r.quick_hash.clone(),
        file_size: r.file_size,
        capture_day: r.capture_day.clone(),
        duration_ms: r.duration_ms,
        waveform,
        rallies: bundle_rallies(conn, r.id),
        annotations: bundle_annotations(conn, r.id),
    }
}

/// Build the bundle for a session by its row id: every recording's timeline and
/// annotations, in path order. `None` when there is no such session. It does not
/// depend on which library is mounted where.
pub fn build_session_bundle(conn: &Store, session_id: i64, sharer_label: &str) -> (r: Option<
    SessionBundle,
>)
    ensures
        r.deep_view() == session_bundle(conn@, session_id, sharer_label@),
{
    let at = match position(
        &conn.sessions,
        |s: &SessionRow| -> (b: bool)
            ensures
                b == (s.id == session_id)
            { s.id == session_id },
        Ghost(crate::annotations::session_with(session_id)),
    ) {
        Some(i) => i,
        None => {
            return None;
        },
    };
    let own = keep(
        &conn.recordings,
        |r: &RecordingRow| -> (b: bool)
            ensures
                b == (r.session_id == session_id)
            { r.session_id == session_id },
        Ghost(recordings_in(session_id)),
    );
    let rows = sorted(
        &own,
        |a: &RecordingRow, b: &RecordingRow| -> (r: bool)
            ensures
                r == text_before(a.path@, b.path@)
            { before(&a.path, &b.path) },
        Ghost(by_path()),
    );
    let recordings = each(
        &rows,
        |r: &RecordingRow| -> (b: BundleRecording)
            ensures
                b.deep_view() == carried_recording(conn@)(r.deep_view())
            { bundle_recording(conn, r) },
        Ghost(carried_recording(conn@)),
    );
    Some(
        SessionBundle {
            format: BUNDLE_FORMAT.to_owned(),
            version: BUNDLE_VERSION,
            capture_day: conn.sessions[at].capture_day.clone(),
            sharer_label: sharer_label.to_owned(),
            recordings,
        },
    )
}

/// A character of a sharer label as it stands in a file name.
pub open spec fn safe_char(c: char) -> char {
    if alphanumeric(c) || c == '-' || c == '_' {
        c
    } else {
        '-'
    }
}

/// A sharer label as a file stem: unsafe characters replaced by dashes, dashes at
/// the ends dropped, and a stand-in where nothing is left.
pub open spec fn safe_label(label: Seq<char>) -> Seq<char> {
    let all = label.map_values(|c: char| safe_char(c));
    let safe = strip_back(strip_front(all, is_char('-')), is_char('-'));
    if safe.len() == 0 {
        "unnamed"@
    } else {
        safe
    }
}

/// The file name of a bundle.
pub open spec fn bundle_name(capture_day: Seq<char>, sharer_label: Seq<char>) -> Seq<char> {
    capture_day + "__"@ + safe_label(sharer_label) + ".vbundle"@
}

/// The file name for a bundle in the shared library: session day and sharer
/// label, so one person's re-share overwrites only their own.
pub fn bundle_file_name(capture_day: &str, sharer_label: &str) -> (r: String)
    ensures
        r@ == bundle_name(capture_day@, sharer_label@),
{
    let label = chars_of(sharer_label);
    let ghost all = sharer_label@.map_values(|c: char| safe_char(c));
    let mut safe: Vec<char> = Vec::new();
    let mut i: usize = 0;
    while i < label.len()
        invariant
            i <= label@.len(),
            label@ == sharer_label@,
            all == sharer_label@.map_values(|c: char| safe_char(c)),
            safe@ == all.take(i as int),
        decreases label@.len() - i,
    {
        let c: char = label[i];
        let d: char = if c.is_alphanumeric() || c == '-' || c == '_' {
            c
        } else {
            '-'
        };
        safe.push(d);
        assert(safe@ =~= all.take(i + 1));
        i += 1;
    }
    assert(all.take(i as int) =~= all);
    let front = drop_front(
        &safe,
        |c: char| -> (b: bool)
            ensures
                b == (c == '-')
            { c == '-' },
        Ghost(is_char('-')),
    );
    let stem = drop_back(
        &front,
        |c: char| -> (b: bool)
            ensures
                b == (c == '-')
            { c == '-' },
        Ghost(is_char('-')),
    );
    let mut out = capture_day.to_owned();
    out.append("__");
    if stem.len() == 0 {
        out.append("unnamed");
    } else {
        let text = string_of(&stem, 0, stem.len());
        assert(text@ =~= stem@);
        out.append(&text);
    }
    out.append(".vbundle");
    out
}

/// How far two confidences may lie apart, in billionths, and still count as one:
/// a round trip through text is no difference.
pub const CONFIDENCE_SLACK: i64 = 1_000;

/// Whether a stored rally is the bundled one.
pub open spec fn same_rally(r: RallyView, b: Draft) -> bool {
    &&& r.start_ms == b.start_ms
    &&& r.end_ms == b.end_ms
    &&& -CONFIDENCE_SLACK <= r.confidence - b.confidence <= CONFIDENCE_SLACK
    &&& r.flagged == b.flagged
}

/// Whether a recording's timeline and annotations equal those of a bundle, told in
/// order; row ids do not count, nor does the order in which the bundle lists them.
pub open spec fn state_matches(d: StoreView, id: i64, rec: BundleRecordingView) -> bool {
    let rallies = ordered_rallies(d, id);
    let wanted = sort_by(rec.rallies, drafts_by_start());
    &&& rallies.len() == wanted.len()
    &&& forall|i: int| 0 <= i < rallies.len() ==> same_rally(#[trigger] rallies[i], wanted[i])
    &&& ordered_annotations(d, id).map_values(carried_annotation()) == sort_by(
        rec.annotations,
        remarks_by_time(),
    )
}

/// Whether a recording's current timeline and annotations already equal the
/// bundle's.
pub fn state_matches_bundle(conn: &Store, id: i64, rec: &BundleRecording) -> (r: bool)
    ensures
        r == state_matches(conn@, id, rec.deep_view()),
{
    let ghost rv = rec.deep_view();
    let rallies = rally_rows(conn, id);
    let wanted = sorted(
        &rec.rallies,
        |a: &BundleRally, b: &BundleRally| -> (r: bool)
            ensures
                r == drafts_by_start()(a.deep_view(), b.deep_view())
            { a.start_ms < b.start_ms },
        Ghost(drafts_by_start()),
    );
    let ghost sorted_rallies = sort_by(rv.rallies, drafts_by_start());
    assert(wanted.deep_view() == sorted_rallies);
    assert(wanted@.len() == sorted_rallies.len());
    assert(rallies@.len() == rallies.deep_view().len());
    if rallies.len() != wanted.len() {
        return false;
    }
    let mut i: usize = 0;
    while i < rallies.len()
        invariant
            i <= rallies@.len(),
            rv == rec.deep_view(),
            sorted_rallies == sort_by(rv.rallies, drafts_by_start()),
            wanted.deep_view() == sorted_rallies,
            rallies@.len() == wanted@.len(),
            rallies.deep_view() == ordered_rallies(conn@, id),
            forall|j: int|
                0 <= j < i ==> same_rally(
                    #[trigger] ordered_rallies(conn@, id)[j],
                    sorted_rallies[j],
                ),
        decreases rallies@.len() - i,
    {
        let cur = &rallies[i];
        let b: BundleRally = wanted[i];
        assert(ordered_rallies(conn@, id)[i as int] == cur.deep_view());
        assert(sorted_rallies[i as int] == b.deep_view());
        let gap: i128 = cur.confidence as i128 - b.confidence as i128;
        if cur.start_ms != b.start_ms || cur.end_ms != b.end_ms || gap > CONFIDENCE_SLACK as i128
            || gap < -(CONFIDENCE_SLACK as i128) || cur.flagged != b.flagged {
            assert(!same_rally(ordered_rallies(conn@, id)[i as int], sorted_rallies[i as int]));
            return false;
        }
        i += 1;
    }
    let anns = bundle_annotations(conn, id);
    let notes = sorted(
        &rec.annotations,
        |a: &BundleAnnotation, b: &BundleAnnotation| -> (r: bool)
            ensures
                r == remarks_by_time()(a.deep_view(), b.deep_view())
            { a.time_ms < b.time_ms },
        Ghost(remarks_by_time()),
    );
    let ghost want = sort_by(rv.annotations, remarks_by_time());
    assert(notes.deep_view() == want);
    if anns.len() != notes.len() {
        assert(anns.deep_view().len() != want.len());
        return false;
    }
    let mut k: usize = 0;
    while k < anns.len()
        invariant
            k <= anns@.len(),
            rv == rec.deep_view(),
            want == sort_by(rv.annotations, remarks_by_time()),
            notes.deep_view() == want,
            anns@.len() == notes@.len(),
            anns.deep_view() == ordered_annotations(conn@, id).map_values(carried_annotation()),
            forall|j: int| 0 <= j < k ==> #[trigger] anns.deep_view()[j] == want[j],
        decreases anns@.len() - k,
    {
        let cur = &anns[k];
        let b = &notes[k];
        assert(anns.deep_view()[k as int] == cur.deep_view());
        assert(want[k as int] == b.deep_view());
        if cur.time_ms != b.time_ms || !same(&cur.verdict, &b.verdict) || !same_option(
            &cur.aspect,
            &b.aspect,
        ) || !same_option(&cur.note, &b.note) {
            assert(anns.deep_view()[k as int] != want[k as int]);
            return false;
        }
        k += 1;
    }
    assert(anns.deep_view() =~= want);
    true
}

/// A recording with a bundle's state: probed and segmented with the carried
/// timeline.
pub open spec fn received(rec: BundleRecordingView) -> spec_fn(RecordingView) -> RecordingView {
    |r: RecordingView|
        RecordingView {
            probe_state: "ready"@,
            segment_state: "ready"@,
            duration_ms: rec.duration_ms,
            waveform: Some(waveform_json(rec.waveform)),
            ..r
        }
}

/// The store after a bundle's state is written onto a recording, replacing its
/// timeline and annotations as a whole.
pub open spec fn state_applied(d: StoreView, id: i64, rec: BundleRecordingView) -> StoreView {
    StoreView {
        rallies: rallies_replaced(d.rallies, id, rec.rallies),
        annotations: annotations_replaced(d.annotations, id, rec.annotations),
        recordings: rewrite(d.recordings, recording_with(id), received(rec)),
        ..d
    }
}

/// Write a bundle recording's carried state onto a recording, replacing any prior
/// timeline and annotations, so that it plays immediately.
pub(crate) fn apply_bundle_state(conn: &mut Store, id: i64, rec: &BundleRecording)
    requires
        rallies_fit(old(conn)@.rallies, id, rec.rallies@.len()),
        annotations_fit(old(conn)@.annotations, id, rec.annotations@.len()),
    ensures
        final(conn)@ == state_applied(old(conn)@, id, rec.deep_view()),
{
    let ghost rv = rec.deep_view();
    let mut drafts: Vec<Draft> = Vec::new();
    let mut i: usize = 0;
    while i < rec.rallies.len()
        invariant
            i <= rec.rallies@.len(),
            rv == rec.deep_view(),
            drafts@ == rv.rallies.take(i as int),
        decreases rec.rallies@.len() - i,
    {
        let r: BundleRally = rec.rallies[i];
        drafts.push(
            Draft {
                start_ms: r.start_ms,
                end_ms: r.end_ms,
                confidence: r.confidence,
                flagged: r.flagged,
            },
        );
        assert(drafts@ =~= rv.rallies.take(i + 1));
        i += 1;
    }
    assert(rv.rallies.take(i as int) =~= rv.rallies);
    let remarks = each(
        &rec.annotations,
        |a: &BundleAnnotation| -> (r: Remark)
            ensures
                r.deep_view() == a.deep_view()
            {
                Remark {
                    time_ms: a.time_ms,
                    verdict: a.verdict.clone(),
                    aspect: copy_option(&a.aspect),
                    note: copy_option(&a.note),
                }
            },
        Ghost(|r: RemarkView| r),
    );
    assert(remarks.deep_view() =~= rv.annotations);
    assert(remarks@.len() == remarks.deep_view().len());
    replace_rallies(conn, id, &drafts);
    replace_annotations(conn, id, &remarks);
    let ghost g = received(rv);
    amend(
        conn,
        id,
        |r: &RecordingRow| -> (n: RecordingRow)
            ensures
                n.deep_view() == g(r.deep_view())
            {
                let mut n = r.dup();
                n.probe_state = "ready".to_owned();
                n.segment_state = "ready".to_owned();
                n.duration_ms = rec.duration_ms;
                n.waveform = Some(waveform_to_json(&rec.waveform));
                n
            },
        Ghost(g),
    );
    assert(conn@ =~= state_applied(old(conn)@, id, rv));
}

} // verus!
