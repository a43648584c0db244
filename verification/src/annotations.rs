//! Verdict annotations pinned to a moment, and the cross-session filter over
//! rallies and their moments.
use vstd::prelude::*;

use crate::library::{active_kind, library_path_of};
use crate::path::{absolute, joined};
use crate::store::{
    annotations_of, next_annotation, recording_with, AnnotationRow, AnnotationView, RallyRow,
    RallyView, RecordingRow, RecordingView, SessionRow, SessionView, Store, StoreView,
};
use crate::table::{any, each, first, keep, position, rewrite, sort_by, sorted, Row};
use crate::text::{
    before, copy_option, same, text_before, text_before_total, text_before_transitive,
};
use crate::timeline::{id_of, recording_id};

verus! {

/// A verdict annotation as the player needs it.
#[derive(Debug)]
pub struct Annotation {
    pub id: i64,
    pub time_ms: i64,
    pub verdict: String,
    pub aspect: Option<String>,
    pub note: Option<String>,
}

/// What an annotation tells.
#[verifier::ext_equal]
pub struct NoteView {
    pub id: i64,
    pub time_ms: i64,
    pub verdict: Seq<char>,
    pub aspect: Option<Seq<char>>,
    pub note: Option<Seq<char>>,
}

impl DeepView for Annotation {
    type V = NoteView;

    open spec fn deep_view(&self) -> NoteView {
        NoteView {
            id: self.id,
            time_ms: self.time_ms,
            verdict: self.verdict@,
            aspect: self.aspect.deep_view(),
            note: self.note.deep_view(),
        }
    }
}

/// What is told of an annotation row.
pub open spec fn map_annotation_view() -> spec_fn(AnnotationView) -> NoteView {
    |a: AnnotationView|
        NoteView {
            id: a.id,
            time_ms: a.time_ms,
            verdict: a.verdict,
            aspect: a.aspect,
            note: a.note,
        }
}

/// What is told of an annotation row.
fn map_annotation(a: &AnnotationRow) -> (r: Annotation)
    ensures
        r.deep_view() == map_annotation_view()(a.deep_view()),
{
    Annotation {
        id: a.id,
        time_ms: a.time_ms,
        verdict: a.verdict.clone(),
        aspect: copy_option(&a.aspect),
        note: copy_option(&a.note),
    }
}

/// A fast-captured annotation: a verdict at a moment, clamped to the start.
pub open spec fn new_annotation(
    id: i64,
    recording: i64,
    time_ms: i64,
    verdict: Seq<char>,
) -> AnnotationView {
    AnnotationView {
        id,
        recording_id: recording,
        time_ms: if time_ms < 0 {
            0
        } else {
            time_ms
        },
        verdict,
        aspect: None,
        note: None,
    }
}

/// The store after an annotation is dropped.
pub open spec fn annotation_added(
    d: StoreView,
    path: Seq<char>,
    time_ms: i64,
    verdict: Seq<char>,
) -> StoreView {
    match id_of(d, path) {
        Some(id) => StoreView {
            annotations: d.annotations.push(
                new_annotation(next_annotation(d.annotations) as i64, id, time_ms, verdict),
            ),
            ..d
        },
        None => d,
    }
}

/// The id that an annotation inserted next gets.
pub(crate) fn fresh_annotation(conn: &Store) -> (id: i64)
    requires
        next_annotation(conn@.annotations) <= i64::MAX,
    ensures
        id == next_annotation(conn@.annotations),
{
    let n: usize = conn.annotations.len();
    if n == 0 {
        1
    } else {
        assert(conn@.annotations.last() == conn.annotations@[n - 1].deep_view());
        conn.annotations[n - 1].id + 1
    }
}

/// Drop a verdict annotation at `time_ms` on the recording at `path`. Returns the
/// new annotation's id, or `None` when `path` is not a registered recording.
pub fn add_annotation(conn: &mut Store, path: &str, time_ms: i64, verdict: &str) -> (r: Option<
    i64,
>)
    requires
        next_annotation(old(conn)@.annotations) <= i64::MAX,
    ensures
        r == (match id_of(old(conn)@, path@) {
            Some(_) => Some(next_annotation(old(conn)@.annotations) as i64),
            None => None,
        }),
        final(conn)@ == annotation_added(old(conn)@, path@, time_ms, verdict@),
        old(conn)@.wf() ==> final(conn)@.wf(),
{
    proof {
        if conn@.wf() {
            crate::upkeep::annotation_added_wf(conn@, path@, time_ms, verdict@);
        }
    }
    let rid = match recording_id(conn, path) {
        Some(id) => id,
        None => {
            return None;
        },
    };
    let id = fresh_annotation(conn);
    let time: i64 = if time_ms < 0 {
        0
    } else {
        time_ms
    };
    conn.annotations.push(
        AnnotationRow {
            id,
            recording_id: rid,
            time_ms: time,
            verdict: verdict.to_owned(),
            aspect: None,
            note: None,
        },
    );
    assert(conn@.annotations =~= old(conn)@.annotations.push(
        new_annotation(id, rid, time_ms, verdict@),
    ));
    assert(conn@ =~= annotation_added(old(conn)@, path@, time_ms, verdict@));
    Some(id)
}

/// Annotations in the order of their moments.
pub open spec fn by_time() -> spec_fn(AnnotationView, AnnotationView) -> bool {
    |a: AnnotationView, b: AnnotationView| a.time_ms < b.time_ms
}

/// The annotations of a recording in the order of their moments, those of one
/// moment in the order of their ids.
pub open spec fn ordered_annotations(d: StoreView, recording: i64) -> Seq<AnnotationView> {
    sort_by(d.annotations.filter(annotations_of(recording)), by_time())
}

/// The rows of a recording's annotations in the order of their moments.
pub(crate) fn annotation_rows(conn: &Store, recording: i64) -> (rows: Vec<AnnotationRow>)
    ensures
        rows.deep_view() == ordered_annotations(conn@, recording),
{
    let own = keep(
        &conn.annotations,
        |a: &AnnotationRow| -> (b: bool)
            ensures
                b == (a.recording_id == recording)
            { a.recording_id == recording },
        Ghost(annotations_of(recording)),
    );
    sort_annotations(&own)
}

/// The rows in the order of their moments.
fn sort_annotations(rows: &Vec<AnnotationRow>) -> (out: Vec<AnnotationRow>)
    ensures
        out.deep_view() == sort_by(rows.deep_view(), by_time()),
{
    sorted(
        rows,
        |a: &AnnotationRow, b: &AnnotationRow| -> (r: bool)
            ensures
                r == (a.time_ms < b.time_ms)
            { a.time_ms < b.time_ms },
        Ghost(by_time()),
    )
}

/// Every row as an annotation.
fn map_annotations(rows: &Vec<AnnotationRow>) -> (out: Vec<Annotation>)
    ensures
        out.deep_view() == rows.deep_view().map_values(map_annotation_view()),
{
    each(
        rows,
        |a: &AnnotationRow| -> (r: Annotation)
            ensures
                r.deep_view() == map_annotation_view()(a.deep_view())
            { map_annotation(a) },
        Ghost(map_annotation_view()),
    )
}

/// Every verdict annotation on the recording at `path`, in timestamp order; none
/// when `path` is not registered.
pub fn recording_annotations(conn: &Store, path: &str) -> (r: Vec<Annotation>)
    ensures
        r.deep_view() == (match id_of(conn@, path@) {
            Some(id) => ordered_annotations(conn@, id).map_values(map_annotation_view()),
            None => Seq::empty(),
        }),
{
    match recording_id(conn, path) {
        Some(rid) => map_annotations(&annotation_rows(conn, rid)),
        None => {
            let out: Vec<Annotation> = Vec::new();
            assert(out.deep_view() =~= Seq::empty());
            out
        },
    }
}

/// The annotation with an id among those of a recording.
pub open spec fn annotation_in(recording: i64, id: i64) -> spec_fn(AnnotationView) -> bool {
    |a: AnnotationView| a.id == id && a.recording_id == recording
}

/// An annotation other than the one with an id among those of a recording.
pub open spec fn annotation_not_in(recording: i64, id: i64) -> spec_fn(AnnotationView) -> bool {
    |a: AnnotationView| !(a.id == id && a.recording_id == recording)
}

/// An annotation with its verdict, aspect and note replaced.
pub open spec fn enriched(
    verdict: Seq<char>,
    aspect: Option<Seq<char>>,
    note: Option<Seq<char>>,
) -> spec_fn(AnnotationView) -> AnnotationView {
    |a: AnnotationView| AnnotationView { verdict, aspect, note, ..a }
}

/// The characters of an optional borrowed text.
pub open spec fn opt_text(o: Option<&str>) -> Option<Seq<char>> {
    match o {
        Some(s) => Some(s@),
        None => None,
    }
}

/// An owned copy of an optional borrowed text.
fn own(o: Option<&str>) -> (r: Option<String>)
    ensures
        r.deep_view() == opt_text(o),
{
    match o {
        Some(s) => Some(s.to_owned()),
        None => None,
    }
}

/// The store after an annotation is enriched.
pub open spec fn annotation_updated(
    d: StoreView,
    path: Seq<char>,
    id: i64,
    verdict: Seq<char>,
    aspect: Option<Seq<char>>,
    note: Option<Seq<char>>,
) -> StoreView {
    match id_of(d, path) {
        Some(rid) => StoreView {
            annotations: rewrite(
                d.annotations,
                annotation_in(rid, id),
                enriched(verdict, aspect, note),
            ),
            ..d
        },
        None => d,
    }
}

/// Whether a recording is registered at `path` and has the annotation.
pub open spec fn has_annotation(d: StoreView, path: Seq<char>, id: i64) -> bool {
    match id_of(d, path) {
        Some(rid) => any(d.annotations, annotation_in(rid, id)),
        None => false,
    }
}

/// Whether a recording has an annotation with an id.
fn find_annotation(conn: &Store, recording: i64, id: i64) -> (r: bool)
    ensures
        r == any(conn@.annotations, annotation_in(recording, id)),
{
    position(
        &conn.annotations,
        |a: &AnnotationRow| -> (b: bool)
            ensures
                b == (a.id == id && a.recording_id == recording)
            { a.id == id && a.recording_id == recording },
        Ghost(annotation_in(recording, id)),
    ).is_some()
}

/// Enrich or re-classify one annotation. Scoped to the recording at `path`;
/// `None` clears a field. Returns `false` when the recording or annotation is not
/// found.
pub fn update_annotation(
    conn: &mut Store,
    path: &str,
    id: i64,
    verdict: &str,
    aspect: Option<&str>,
    note: Option<&str>,
) -> (r: bool)
    ensures
        r == has_annotation(old(conn)@, path@, id),
        final(conn)@ == annotation_updated(
            old(conn)@,
            path@,
            id,
            verdict@,
            opt_text(aspect),
            opt_text(note),
        ),
        old(conn)@.wf() ==> final(conn)@.wf(),
{
    proof {
        if conn@.wf() {
            crate::upkeep::annotation_updated_wf(
                conn@,
                path@,
                id,
                verdict@,
                opt_text(aspect),
                opt_text(note),
            );
        }
    }
    let rid = match recording_id(conn, path) {
        Some(rid) => rid,
        None => {
            return false;
        },
    };
    let found = find_annotation(conn, rid, id);
    let ghost p = annotation_in(rid, id);
    let ghost f = enriched(verdict@, opt_text(aspect), opt_text(note));
    let ghost g = |a: AnnotationView|
        if p(a) {
            f(a)
        } else {
            a
        };
    conn.annotations =
    each(
        &conn.annotations,
        |a: &AnnotationRow| -> (n: AnnotationRow)
            ensures
                n.deep_view() == g(a.deep_view())
            {
                if a.id == id && a.recording_id == rid {
                    AnnotationRow {
                        id: a.id,
                        recording_id: a.recording_id,
                        time_ms: a.time_ms,
                        verdict: verdict.to_owned(),
                        aspect: own(aspect),
                        note: own(note),
                    }
                } else {
                    a.dup()
                }
            },
        Ghost(g),
    );
    assert(conn@ =~= annotation_updated(
        old(conn)@,
        path@,
        id,
        verdict@,
        opt_text(aspect),
        opt_text(note),
    ));
    found
}

/// The store after an annotation is deleted.
pub open spec fn annotation_deleted(d: StoreView, path: Seq<char>, id: i64) -> StoreView {
    match id_of(d, path) {
        Some(rid) => StoreView {
            annotations: d.annotations.filter(annotation_not_in(rid, id)),
            ..d
        },
        None => d,
    }
}

/// Remove one annotation. Scoped to the recording at `path`. Returns `false` when
/// the recording or annotation is not found.
pub fn delete_annotation(conn: &mut Store, path: &str, id: i64) -> (r: bool)
    ensures
        r == has_annotation(old(conn)@, path@, id),
        final(conn)@ == annotation_deleted(old(conn)@, path@, id),
        old(conn)@.wf() ==> final(conn)@.wf(),
{
    proof {
        if conn@.wf() {
            crate::upkeep::annotation_deleted_wf(conn@, path@, id);
        }
    }
    let rid = match recording_id(conn, path) {
        Some(rid) => rid,
        None => {
            return false;
        },
    };
    let found = find_annotation(conn, rid, id);
    conn.annotations =
    keep(
        &conn.annotations,
        |a: &AnnotationRow| -> (b: bool)
            ensures
                b == !(a.id == id && a.recording_id == rid)
            { !(a.id == id && a.recording_id == rid) },
        Ghost(annotation_not_in(rid, id)),
    );
    assert(conn@ =~= annotation_deleted(old(conn)@, path@, id));
    found
}

/// Rally-length threshold: a rally of at least this duration is long.
pub const LONG_RALLY_MS: i64 = 15_000;

/// A rally matching a cross-session filter, with enough context to identify it
/// and jump straight to it.
#[derive(Debug)]
pub struct FilteredRally {
    pub session_id: i64,
    pub capture_day: String,
    pub recording_id: i64,
    pub recording_path: String,
    pub rally_id: i64,
    pub start_ms: i64,
    pub end_ms: i64,
    /// Derived from duration, never from quality.
    pub long: bool,
    pub flagged: bool,
    /// The rally's matching moments when the filter asks for any.
    pub annotations: Vec<Annotation>,
}

/// What a filtered rally holds.
#[verifier::ext_equal]
pub struct FilteredView {
    pub session_id: i64,
    pub capture_day: Seq<char>,
    pub recording_id: i64,
    pub recording_path: Seq<char>,
    pub rally_id: i64,
    pub start_ms: i64,
    pub end_ms: i64,
    pub long: bool,
    pub flagged: bool,
    pub annotations: Seq<NoteView>,
}

impl DeepView for FilteredRally {
    type V = FilteredView;

    open spec fn deep_view(&self) -> FilteredView {
        FilteredView {
            session_id: self.session_id,
            capture_day: self.capture_day@,
            recording_id: self.recording_id,
            recording_path: self.recording_path@,
            rally_id: self.rally_id,
            start_ms: self.start_ms,
            end_ms: self.end_ms,
            long: self.long,
            flagged: self.flagged,
            annotations: self.annotations.deep_view(),
        }
    }
}

/// A cross-session filter: what a rally must satisfy, each part optional.
#[verifier::ext_equal]
pub struct Filter {
    pub verdict: Option<Seq<char>>,
    pub aspect: Option<Seq<char>>,
    pub length: Option<bool>,
    pub flagged: Option<bool>,
}

/// A rally together with its recording and its session.
pub struct Lifted {
    pub session: SessionRow,
    pub recording: RecordingRow,
    pub rally: RallyRow,
}

/// What a rally with its context holds.
#[verifier::ext_equal]
pub struct LiftedView {
    pub session: SessionView,
    pub recording: RecordingView,
    pub rally: RallyView,
}

impl DeepView for Lifted {
    type V = LiftedView;

    open spec fn deep_view(&self) -> LiftedView {
        LiftedView {
            session: self.session.deep_view(),
            recording: self.recording.deep_view(),
            rally: self.rally.deep_view(),
        }
    }
}

impl Row for Lifted {
    fn dup(&self) -> (r: Self) {
        Lifted {
            session: self.session.dup(),
            recording: self.recording.dup(),
            rally: self.rally.dup(),
        }
    }
}

/// The session with the given id.
pub open spec fn session_with(id: i64) -> spec_fn(SessionView) -> bool {
    |s: SessionView| s.id == id
}

/// Whether a rally is long.
pub open spec fn is_long(r: RallyView) -> bool {
    r.end_ms - r.start_ms >= LONG_RALLY_MS
}

/// Whether the filter asks for a moment.
pub open spec fn wants_moment(f: Filter) -> bool {
    f.verdict is Some || f.aspect is Some
}

/// The moments of a rally that match the filter: annotations of its recording
/// inside its span, its end excluded, with the verdict and aspect asked for.
pub open spec fn matching_moment(f: Filter, r: RallyView) -> spec_fn(AnnotationView) -> bool {
    |a: AnnotationView|
        {
            &&& a.recording_id == r.recording_id
            &&& r.start_ms <= a.time_ms < r.end_ms
            &&& f.verdict is None || f.verdict == Some(a.verdict)
            &&& f.aspect is None || f.aspect == a.aspect
        }
}

/// Whether a rally satisfies every part of the filter.
pub open spec fn passes(d: StoreView, f: Filter, r: RallyView) -> bool {
    &&& f.length is None || f.length == Some(is_long(r))
    &&& f.flagged is None || f.flagged == Some(r.flagged)
    &&& wants_moment(f) ==> any(d.annotations, matching_moment(f, r))
}

/// A rally of the library of `kind` that satisfies the filter, with its context.
pub open spec fn lifted(d: StoreView, kind: Seq<char>, f: Filter) -> spec_fn(RallyView) -> Option<
    LiftedView,
> {
    |r: RallyView|
        match first(d.recordings, recording_with(r.recording_id)) {
            Some(recording) => match first(d.sessions, session_with(recording.session_id)) {
                Some(session) => if recording.library == kind && passes(d, f, r) {
                    Some(LiftedView { session, recording, rally: r })
                } else {
                    None
                },
                None => None,
            },
            None => None,
        }
}

/// Newest session first, then by recording path, then by start.
pub open spec fn review_order() -> spec_fn(LiftedView, LiftedView) -> bool {
    |a: LiftedView, b: LiftedView|
        if a.session.capture_day != b.session.capture_day {
            text_before(b.session.capture_day, a.session.capture_day)
        } else if a.recording.path != b.recording.path {
            text_before(a.recording.path, b.recording.path)
        } else {
            a.rally.start_ms < b.rally.start_ms
        }
}

/// A result: the rally with its context, its path resolved under the library,
/// and its matching moments when the filter asks for any.
pub open spec fn filtered(d: StoreView, library: Seq<char>, f: Filter) -> spec_fn(
    LiftedView,
) -> FilteredView {
    |l: LiftedView|
        FilteredView {
            session_id: l.session.id,
            capture_day: l.session.capture_day,
            recording_id: l.recording.id,
            recording_path: joined(library, l.recording.path),
            rally_id: l.rally.id,
            start_ms: l.rally.start_ms,
            end_ms: l.rally.end_ms,
            long: is_long(l.rally),
            flagged: l.rally.flagged,
            annotations: if wants_moment(f) {
                sort_by(d.annotations.filter(matching_moment(f, l.rally)), by_time()).map_values(
                    map_annotation_view(),
                )
            } else {
                Seq::empty()
            },
        }
}

/// Everything that a filter finds in the active library.
pub open spec fn found(d: StoreView, f: Filter) -> Seq<FilteredView> {
    match d.library_path_of(d.active_kind()) {
        Some(library) => sort_by(
            d.rallies.filter_map(lifted(d, d.active_kind(), f)),
            review_order(),
        ).map_values(filtered(d, library, f)),
        None => Seq::empty(),
    }
}

/// The filter that the arguments of `filter_moments` stand for.
pub open spec fn filter_of(
    verdict: Option<&str>,
    aspect: Option<&str>,
    length: Option<bool>,
    flagged: Option<bool>,
) -> Filter {
    Filter { verdict: opt_text(verdict), aspect: opt_text(aspect), length, flagged }
}

/// Whether an annotation is a moment of a rally that matches.
fn moment_matches(
    a: &AnnotationRow,
    r: &RallyRow,
    verdict: Option<&str>,
    aspect: Option<&str>,
    Ghost(f): Ghost<Filter>,
) -> (b: bool)
    requires
        f.verdict == opt_text(verdict),
        f.aspect == opt_text(aspect),
    ensures
        b == matching_moment(f, r.deep_view())(a.deep_view()),
{
    if a.recording_id != r.recording_id || a.time_ms < r.start_ms || a.time_ms >= r.end_ms {
        return false;
    }
    let verdict_ok = match verdict {
        Some(v) => same(&a.verdict, v),
        None => true,
    };
    let aspect_ok = match aspect {
        Some(x) => match &a.aspect {
            Some(y) => same(x, y),
            None => false,
        },
        None => true,
    };
    verdict_ok && aspect_ok
}

/// Whether a rally is long.
fn long_rally(r: &RallyRow) -> (b: bool)
    ensures
        b == is_long(r.deep_view()),
{
    (r.end_ms as i128) - (r.start_ms as i128) >= LONG_RALLY_MS as i128
}

/// A rally of the library of `kind` that satisfies the filter, with its context.
fn lift(
    conn: &Store,
    kind: &str,
    r: &RallyRow,
    verdict: Option<&str>,
    aspect: Option<&str>,
    length: Option<bool>,
    flagged: Option<bool>,
) -> (out: Option<Lifted>)
    ensures
        out.deep_view() == lifted(conn@, kind@, filter_of(verdict, aspect, length, flagged))(
            r.deep_view(),
        ),
{
    let ghost f = filter_of(verdict, aspect, length, flagged);
    let rec_id = r.recording_id;
    let at = match position(
        &conn.recordings,
        |x: &RecordingRow| -> (b: bool)
            ensures
                b == (x.id == rec_id)
            { x.id == rec_id },
        Ghost(recording_with(rec_id)),
    ) {
        Some(i) => i,
        None => {
            return None;
        },
    };
    let recording = &conn.recordings[at];
    let session_id = recording.session_id;
    let sat = match position(
        &conn.sessions,
        |x: &SessionRow| -> (b: bool)
            ensures
                b == (x.id == session_id)
            { x.id == session_id },
        Ghost(session_with(session_id)),
    ) {
        Some(i) => i,
        None => {
            return None;
        },
    };
    if !same(&recording.library, kind) {
        return None;
    }
    let length_ok = match length {
        Some(l) => l == long_rally(r),
        None => true,
    };
    let flagged_ok = match flagged {
        Some(x) => x == r.flagged,
        None => true,
    };
    if !length_ok || !flagged_ok {
        return None;
    }
    if verdict.is_some() || aspect.is_some() {
        let hit = position(
            &conn.annotations,
            |a: &AnnotationRow| -> (b: bool)
                ensures
                    b == matching_moment(f, r.deep_view())(a.deep_view())
                { moment_matches(a, r, verdict, aspect, Ghost(f)) },
            Ghost(matching_moment(f, r.deep_view())),
        );
        if hit.is_none() {
            return None;
        }
    }
    Some(
        Lifted { session: conn.sessions[sat].dup(), recording: recording.dup(), rally: r.dup() },
    )
}

/// Whether one result comes before another.
fn review_before(a: &Lifted, b: &Lifted) -> (r: bool)
    ensures
        r == review_order()(a.deep_view(), b.deep_view()),
{
    if !same(&a.session.capture_day, &b.session.capture_day) {
        before(&b.session.capture_day, &a.session.capture_day)
    } else if !same(&a.recording.path, &b.recording.path) {
        before(&a.recording.path, &b.recording.path)
    } else {
        a.rally.start_ms < b.rally.start_ms
    }
}

/// Cross-session filter over rallies and their annotations. Every part is
/// optional and they combine with AND; with none set every rally of the active
/// library is returned. Newest session first, then in recording and timeline
/// order.
pub fn filter_moments(
    conn: &Store,
    verdict: Option<&str>,
    aspect: Option<&str>,
    length: Option<bool>,
    flagged: Option<bool>,
) -> (r: Vec<FilteredRally>)
    ensures
        r.deep_view() == found(conn@, filter_of(verdict, aspect, length, flagged)),
{
    let ghost f = filter_of(verdict, aspect, length, flagged);
    let kind = active_kind(conn);
    let library = match library_path_of(conn, &kind) {
        Some(l) => l,
        None => {
            let out: Vec<FilteredRally> = Vec::new();
            assert(out.deep_view() =~= Seq::empty());
            return out;
        },
    };
    let ghost lf = lifted(conn@, kind@, f);
    let mut rows: Vec<Lifted> = Vec::new();
    let mut i: usize = 0;
    assert(rows.deep_view() =~= conn@.rallies.take(0).filter_map(lf));
    while i < conn.rallies.len()
        invariant
            i <= conn.rallies@.len(),
            f == filter_of(verdict, aspect, length, flagged),
            lf == lifted(conn@, kind@, f),
            rows.deep_view() == conn@.rallies.take(i as int).filter_map(lf),
        decreases conn.rallies@.len() - i,
    {
        proof {
            let next = conn@.rallies.take(i + 1);
            assert(next.drop_last() =~= conn@.rallies.take(i as int));
            assert(next.last() == conn.rallies@[i as int].deep_view());
        }
        match lift(conn, &kind, &conn.rallies[i], verdict, aspect, length, flagged) {
            Some(l) => {
                let ghost prev = rows;
                let ghost lv = l.deep_view();
                rows.push(l);
                assert(rows.deep_view() =~= prev.deep_view() + seq![lv]);
            },
            None => {},
        }
        i += 1;
    }
    assert(conn@.rallies.take(i as int) =~= conn@.rallies);
    let rows = sorted(
        &rows,
        |a: &Lifted, b: &Lifted| -> (r: bool)
            ensures
                r == review_order()(a.deep_view(), b.deep_view())
            { review_before(a, b) },
        Ghost(review_order()),
    );
    each(
        &rows,
        |l: &Lifted| -> (r: FilteredRally)
            ensures
                r.deep_view() == filtered(conn@, library@, f)(l.deep_view())
            { attach(conn, &library, l, verdict, aspect, Ghost(f)) },
        Ghost(filtered(conn@, library@, f)),
    )
}

/// A result with its matching moments attached.
fn attach(
    conn: &Store,
    library: &str,
    l: &Lifted,
    verdict: Option<&str>,
    aspect: Option<&str>,
    Ghost(f): Ghost<Filter>,
) -> (r: FilteredRally)
    requires
        f.verdict == opt_text(verdict),
        f.aspect == opt_text(aspect),
    ensures
        r.deep_view() == filtered(conn@, library@, f)(l.deep_view()),
{
    let annotations = if verdict.is_some() || aspect.is_some() {
        let rally = &l.rally;
        let own = keep(
            &conn.annotations,
            |a: &AnnotationRow| -> (b: bool)
                ensures
                    b == matching_moment(f, rally.deep_view())(a.deep_view())
                { moment_matches(a, rally, verdict, aspect, Ghost(f)) },
            Ghost(matching_moment(f, rally.deep_view())),
        );
        map_annotations(&sort_annotations(&own))
    } else {
        let out: Vec<Annotation> = Vec::new();
        assert(out.deep_view() =~= Seq::empty());
        out
    };
    FilteredRally {
        session_id: l.session.id,
        capture_day: l.session.capture_day.clone(),
        recording_id: l.recording.id,
        recording_path: absolute(library, &l.recording.path),
        rally_id: l.rally.id,
        start_ms: l.rally.start_ms,
        end_ms: l.rally.end_ms,
        long: long_rally(&l.rally),
        flagged: l.rally.flagged,
        annotations,
    }
}

/// Whether texts come in strictly ascending order, none twice.
pub open spec fn ascending(s: Seq<Seq<char>>) -> bool {
    forall|i: int, j: int|
        0 <= i < j < s.len() ==> text_before(#[trigger] s[i], #[trigger] s[j])
}

/// Put a text into its place among ascending texts, unless it is there.
pub(crate) fn insert_text(out: &mut Vec<String>, x: &str)
    requires
        ascending(old(out).deep_view()),
    ensures
        ascending(final(out).deep_view()),
        forall|y: Seq<char>|
            #[trigger] final(out).deep_view().contains(y) <==> old(out).deep_view().contains(y) || y
                == x@,
{
    let ghost s = out.deep_view();
    let mut k: usize = 0;
    while k < out.len() && before(&out[k], x)
        invariant
            k <= out@.len(),
            s == out.deep_view(),
            forall|j: int| 0 <= j < k ==> text_before(#[trigger] s[j], x@),
        ensures
            k < out@.len() ==> !text_before(s[k as int], x@),
        decreases out@.len() - k,
    {
        assert(s[k as int] == out@[k as int]@);
        k += 1;
    }
    if k < out.len() {
        assert(s[k as int] == out@[k as int]@);
        if same(&out[k], x) {
            assert(s.contains(x@)) by {
                assert(s[k as int] == x@);
            }
            return;
        }
    }
    out.insert(k, x.to_owned());
    proof {
        let t = out.deep_view();
        assert(t =~= s.insert(k as int, x@));
        assert forall|j: int| k <= j < s.len() implies text_before(x@, #[trigger] s[j]) by {
            text_before_total(s[k as int], x@);
            if j > k {
                text_before_transitive(x@, s[k as int], s[j]);
            }
        }
        assert forall|i: int, j: int| 0 <= i < j < t.len() implies text_before(
            #[trigger] t[i],
            #[trigger] t[j],
        ) by {
            let a = if i < k {
                i
            } else {
                i - 1
            };
            let b = if j < k {
                j
            } else {
                j - 1
            };
            if i == k {
                assert(t[j] == s[b]);
            } else if j == k {
                assert(t[i] == s[a]);
            } else {
                assert(t[i] == s[a] && t[j] == s[b]);
            }
        }
        assert forall|y: Seq<char>| #[trigger] t.contains(y) <==> s.contains(y) || y == x@ by {
            if t.contains(y) {
                let i = choose|i: int| 0 <= i < t.len() && t[i] == y;
                if i < k {
                    assert(s[i] == y);
                } else if i > k {
                    assert(s[i - 1] == y);
                }
            }
            if s.contains(y) {
                let i = choose|i: int| 0 <= i < s.len() && s[i] == y;
                if i < k {
                    assert(t[i] == y);
                } else {
                    assert(t[i + 1] == y);
                }
            }
            assert(t[k as int] == x@);
        }
    }
}

/// The recording with an id, if it is of the library of `kind`.
pub open spec fn recording_within(kind: Seq<char>, id: i64) -> spec_fn(RecordingView) -> bool {
    |r: RecordingView| r.id == id && r.library == kind
}

/// The annotations on recordings of the library of `kind` that carry an aspect.
pub open spec fn carries(d: StoreView, kind: Seq<char>, aspect: Seq<char>) -> spec_fn(
    AnnotationView,
) -> bool {
    |a: AnnotationView|
        a.aspect == Some(aspect) && any(d.recordings, recording_within(kind, a.recording_id))
}

/// The distinct aspects present on annotations in the active library, sorted.
pub fn aspect_vocabulary(conn: &Store) -> (r: Vec<String>)
    ensures
        ascending(r.deep_view()),
        forall|x: Seq<char>|
            #[trigger] r.deep_view().contains(x) <==> any(
                conn@.annotations,
                carries(conn@, conn@.active_kind(), x),
            ),
{
    let kind = active_kind(conn);
    let ghost d = conn@;
    let mut out: Vec<String> = Vec::new();
    let mut i: usize = 0;
    while i < conn.annotations.len()
        invariant
            i <= conn.annotations@.len(),
            d == conn@,
            kind@ == d.active_kind(),
            ascending(out.deep_view()),
            forall|x: Seq<char>|
                #[trigger] out.deep_view().contains(x) <==> any(
                    d.annotations.take(i as int),
                    carries(d, kind@, x),
                ),
        decreases conn.annotations@.len() - i,
    {
        let a = &conn.annotations[i];
        let ghost av = a.deep_view();
        let ghost prev = out.deep_view();
        let id = a.recording_id;
        let ours = position(
            &conn.recordings,
            |r: &RecordingRow| -> (b: bool)
                ensures
                    b == (r.id == id && r.library@ == kind@)
                { r.id == id && same(&r.library, &kind) },
            Ghost(recording_within(kind@, id)),
        ).is_some();
        match &a.aspect {
            Some(x) => {
                if ours {
                    insert_text(&mut out, x);
                }
            },
            None => {},
        }
        proof {
            let now = d.annotations.take(i as int);
            let next = d.annotations.take(i + 1);
            assert(next =~= now.push(av));
            assert forall|x: Seq<char>| #[trigger] out.deep_view().contains(x) <==> any(
                next,
                carries(d, kind@, x),
            ) by {
                let p = carries(d, kind@, x);
                if any(now, p) {
                    let j = choose|j: int| 0 <= j < now.len() && p(#[trigger] now[j]);
                    assert(p(next[j]));
                }
                if any(next, p) {
                    let j = choose|j: int| 0 <= j < next.len() && p(#[trigger] next[j]);
                    if j < now.len() {
                        assert(p(now[j]));
                    }
                }
                if p(av) {
                    assert(p(next[i as int]));
                }
                assert(prev.contains(x) <==> any(now, p));
            }
        }
        i += 1;
    }
    assert(d.annotations.take(i as int) =~= d.annotations);
    out
}

} // verus!
