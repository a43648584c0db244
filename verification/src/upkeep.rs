//! The store's invariant, kept by everything that changes a store.
use vstd::prelude::*;

use crate::analysis::{
    adopt_first, adopted_rally, analyses_adopted, analyzed, awaits_draft, best_analysis,
    best_is_counted, key_prefix, total_rallies, AnalysisFileView,
};
use crate::annotations::{
    annotation_added, annotation_deleted, annotation_in, annotation_not_in, annotation_updated,
    enriched, new_annotation,
};
use crate::bundle::{received, state_applied, BundleRecordingView};
use crate::capture_day::{dated, day_of_moment, refined};
use crate::carry::{copied_annotations, copied_rallies, id_in_any, review_carried, timeline_from};
use crate::disk::{stored_size, DiskEntryView};
use crate::drafts::{
    annotations_fit, annotations_inserted_count, annotations_replaced, rallies_fit,
    rallies_inserted_count, rallies_replaced, replaced_below, Draft, RemarkView,
};
use crate::grouping::{
    other_sessions, registered, session_id_on, session_is_there, with_session, without_empty,
};
use crate::library::{adopted, adoption_collides, designated, key_taken, with_meta};
use crate::path::stripped;
use crate::receive::{annotation_total, ids_fit, rally_total, receive_all, taken, taken_fits};
use crate::scan::{
    all_noticed, entry_met, entry_met_fits, forgotten, hash_or_none, lost, moved_to, other_than,
    rehomed, relinked, scan_fits, scan_start, scanned, walked, with_content, ScanView,
};
use crate::schema::video_path;
use crate::segment::Rally;
use crate::store::{
    annotations_not_of, home_of, library_of, next_annotation, next_library, next_rally,
    next_recording, next_session, rallies_below, rallies_not_of, recording_at, recording_with,
    recordings_below, recordings_in, recordings_of, session_on, sessions_below, setting,
    AnnotationView, LibraryView, RallyView, RecordingView, SessionView, StoreView,
};
use crate::table::{
    any, any_filtered, any_pushed, any_rewritten, filter_elements, filter_ordered, first,
    first_found, rewrite,
};
use crate::timeline::{
    hand_touched, id_of, moved, rally_added, rally_deleted, rally_flagged, rally_in, rally_not_in,
    rally_updated, reflagged, row_at,
};
use crate::work::{
    all_reset, draft_saved, drafted, fresh_rallies, rallies_outside, rallies_saved, requeued,
    segmentation_reset, stale, stale_requeued,
};

verus! {

/// Whether a rewrite of recordings leaves alone what identifies them: id, session,
/// library and key.
pub open spec fn keeps_identity(f: spec_fn(RecordingView) -> RecordingView) -> bool {
    forall|r: RecordingView|
        (#[trigger] f(r)).id == r.id && f(r).session_id == r.session_id && f(r).library == r.library
            && f(r).path == r.path
}

/// A rewrite of recordings that leaves alone what identifies them keeps the
/// invariant.
pub proof fn recordings_rewritten(
    d: StoreView,
    p: spec_fn(RecordingView) -> bool,
    f: spec_fn(RecordingView) -> RecordingView,
)
    requires
        d.wf(),
        keeps_identity(f),
    ensures
        (StoreView { recordings: rewrite(d.recordings, p, f), ..d }).wf(),
{
    let n = StoreView { recordings: rewrite(d.recordings, p, f), ..d };
    assert forall|i: int| 0 <= i < n.recordings.len() implies {
        let a = #[trigger] n.recordings[i];
        let b = d.recordings[i];
        a.id == b.id && a.session_id == b.session_id && a.library == b.library && a.path == b.path
    } by {
        let b = d.recordings[i];
        assert(f(b).id == b.id);
    }
    assert forall|i: int| 0 <= i < n.recordings.len() implies any(
        n.sessions,
        home_of(#[trigger] n.recordings[i]),
    ) by {
        assert(any(d.sessions, home_of(d.recordings[i])));
        let k = choose|k: int|
            0 <= k < d.sessions.len() && home_of(d.recordings[i])(#[trigger] d.sessions[k]);
        assert(home_of(n.recordings[i])(n.sessions[k]));
    }
    assert forall|i: int| 0 <= i < n.rallies.len() implies any(
        n.recordings,
        recording_with((#[trigger] n.rallies[i]).recording_id),
    ) by {
        assert(any(d.recordings, recording_with(d.rallies[i].recording_id)));
        any_rewritten(d.recordings, p, f, recording_with(d.rallies[i].recording_id));
    }
    assert forall|i: int| 0 <= i < n.annotations.len() implies any(
        n.recordings,
        recording_with((#[trigger] n.annotations[i]).recording_id),
    ) by {
        assert(any(d.recordings, recording_with(d.annotations[i].recording_id)));
        any_rewritten(d.recordings, p, f, recording_with(d.annotations[i].recording_id));
    }
}

/// Dropping rallies keeps the invariant.
pub proof fn rallies_filtered(d: StoreView, p: spec_fn(RallyView) -> bool)
    requires
        d.wf(),
    ensures
        (StoreView { rallies: d.rallies.filter(p), ..d }).wf(),
{
    let n = StoreView { rallies: d.rallies.filter(p), ..d };
    let r = |a: RallyView, b: RallyView| a.id < b.id;
    assert forall|i: int, j: int| 0 <= i < j < d.rallies.len() implies r(
        #[trigger] d.rallies[i],
        #[trigger] d.rallies[j],
    ) by {}
    filter_ordered(d.rallies, p, r);
    filter_elements(d.rallies, p);
    assert forall|i: int, j: int| 0 <= i < j < n.rallies.len() implies (#[trigger] n.rallies[i]).id
        < (#[trigger] n.rallies[j]).id by {
        assert(r(n.rallies[i], n.rallies[j]));
    }
    assert forall|i: int| 0 <= i < n.rallies.len() implies any(
        n.recordings,
        recording_with((#[trigger] n.rallies[i]).recording_id),
    ) by {
        assert(d.rallies.contains(n.rallies[i]));
        let k = choose|k: int| 0 <= k < d.rallies.len() && d.rallies[k] == n.rallies[i];
        assert(any(d.recordings, recording_with(d.rallies[k].recording_id)));
    }
}

/// Dropping annotations keeps the invariant.
pub proof fn annotations_filtered(d: StoreView, p: spec_fn(AnnotationView) -> bool)
    requires
        d.wf(),
    ensures
        (StoreView { annotations: d.annotations.filter(p), ..d }).wf(),
{
    let n = StoreView { annotations: d.annotations.filter(p), ..d };
    let r = |a: AnnotationView, b: AnnotationView| a.id < b.id;
    assert forall|i: int, j: int| 0 <= i < j < d.annotations.len() implies r(
        #[trigger] d.annotations[i],
        #[trigger] d.annotations[j],
    ) by {}
    filter_ordered(d.annotations, p, r);
    filter_elements(d.annotations, p);
    assert forall|i: int, j: int| 0 <= i < j < n.annotations.len() implies (
    #[trigger] n.annotations[i]).id < (#[trigger] n.annotations[j]).id by {
        assert(r(n.annotations[i], n.annotations[j]));
    }
    assert forall|i: int| 0 <= i < n.annotations.len() implies any(
        n.recordings,
        recording_with((#[trigger] n.annotations[i]).recording_id),
    ) by {
        assert(d.annotations.contains(n.annotations[i]));
        let k = choose|k: int|
            0 <= k < d.annotations.len() && d.annotations[k] == n.annotations[i];
        assert(any(d.recordings, recording_with(d.annotations[k].recording_id)));
    }
}

/// Adding a rally of a known recording under the next id keeps the invariant.
pub proof fn rally_pushed(d: StoreView, r: RallyView)
    requires
        d.wf(),
        r.id == next_rally(d.rallies),
        any(d.recordings, recording_with(r.recording_id)),
    ensures
        (StoreView { rallies: d.rallies.push(r), ..d }).wf(),
{
    let n = StoreView { rallies: d.rallies.push(r), ..d };
    assert forall|i: int, j: int| 0 <= i < j < n.rallies.len() implies (#[trigger] n.rallies[i]).id
        < (#[trigger] n.rallies[j]).id by {
        if j < d.rallies.len() {
            assert(d.rallies[i].id < d.rallies[j].id);
        } else if i < d.rallies.len() - 1 {
            assert(d.rallies[i].id < d.rallies[d.rallies.len() - 1].id);
        }
    }
    assert forall|i: int| 0 <= i < n.rallies.len() implies any(
        n.recordings,
        recording_with((#[trigger] n.rallies[i]).recording_id),
    ) by {
        if i < d.rallies.len() {
            assert(any(d.recordings, recording_with(d.rallies[i].recording_id)));
        }
    }
}

/// Adding an annotation of a known recording under the next id keeps the
/// invariant.
pub proof fn annotation_pushed(d: StoreView, a: AnnotationView)
    requires
        d.wf(),
        a.id == next_annotation(d.annotations),
        any(d.recordings, recording_with(a.recording_id)),
    ensures
        (StoreView { annotations: d.annotations.push(a), ..d }).wf(),
{
    let n = StoreView { annotations: d.annotations.push(a), ..d };
    assert forall|i: int, j: int| 0 <= i < j < n.annotations.len() implies (
    #[trigger] n.annotations[i]).id < (#[trigger] n.annotations[j]).id by {
        if j < d.annotations.len() {
            assert(d.annotations[i].id < d.annotations[j].id);
        } else if i < d.annotations.len() - 1 {
            assert(d.annotations[i].id < d.annotations[d.annotations.len() - 1].id);
        }
    }
    assert forall|i: int| 0 <= i < n.annotations.len() implies any(
        n.recordings,
        recording_with((#[trigger] n.annotations[i]).recording_id),
    ) by {
        if i < d.annotations.len() {
            assert(any(d.recordings, recording_with(d.annotations[i].recording_id)));
        }
    }
}

/// Replacing the rallies of a recording keeps the invariant, unless rallies are
/// written onto a recording that is not there.
pub proof fn rallies_replaced_wf(d: StoreView, id: i64, drafts: Seq<Draft>)
    requires
        d.wf(),
        rallies_fit(d.rallies, id, drafts.len()),
        drafts.len() > 0 ==> any(d.recordings, recording_with(id)),
    ensures
        (StoreView { rallies: rallies_replaced(d.rallies, id, drafts), ..d }).wf(),
    decreases drafts.len(),
{
    let base = d.rallies.filter(rallies_not_of(id));
    if drafts.len() == 0 {
        rallies_filtered(d, rallies_not_of(id));
    } else {
        let less = drafts.drop_last();
        rallies_replaced_wf(d, id, less);
        let m = StoreView { rallies: rallies_replaced(d.rallies, id, less), ..d };
        rallies_inserted_count(base, id, less);
        let n = StoreView { rallies: rallies_replaced(d.rallies, id, drafts), ..d };
        rally_pushed(m, n.rallies.last());
        assert(n.rallies == m.rallies.push(n.rallies.last()));
        assert(n == (StoreView { rallies: m.rallies.push(n.rallies.last()), ..m }));
    }
}

/// Replacing the annotations of a recording keeps the invariant, unless
/// annotations are written onto a recording that is not there.
pub proof fn annotations_replaced_wf(d: StoreView, id: i64, remarks: Seq<RemarkView>)
    requires
        d.wf(),
        annotations_fit(d.annotations, id, remarks.len()),
        remarks.len() > 0 ==> any(d.recordings, recording_with(id)),
    ensures
        (StoreView { annotations: annotations_replaced(d.annotations, id, remarks), ..d }).wf(),
    decreases remarks.len(),
{
    let base = d.annotations.filter(annotations_not_of(id));
    if remarks.len() == 0 {
        annotations_filtered(d, annotations_not_of(id));
    } else {
        let less = remarks.drop_last();
        annotations_replaced_wf(d, id, less);
        let m = StoreView { annotations: annotations_replaced(d.annotations, id, less), ..d };
        annotations_inserted_count(base, id, less);
        let n = StoreView { annotations: annotations_replaced(d.annotations, id, remarks), ..d };
        annotation_pushed(m, n.annotations.last());
        assert(n.annotations == m.annotations.push(n.annotations.last()));
        assert(n == (StoreView { annotations: m.annotations.push(n.annotations.last()), ..m }));
    }
}

/// What is found at a path is a recording of the store.
pub proof fn row_is_known(d: StoreView, path: Seq<char>)
    ensures
        row_at(d, path) matches Some(r) ==> d.recordings.contains(r) && any(
            d.recordings,
            recording_with(r.id),
        ),
{
    if let Some((kind, key)) = crate::library::key_of(d, path) {
        first_found(d.recordings, recording_at(kind, key));
        if let Some(r) = row_at(d, path) {
            let k = choose|k: int| 0 <= k < d.recordings.len() && d.recordings[k] == r;
            assert(recording_with(r.id)(d.recordings[k]));
        }
    }
}

/// A rewrite of rallies that leaves their ids and recordings alone keeps the
/// invariant.
proof fn rallies_rewritten(
    d: StoreView,
    p: spec_fn(RallyView) -> bool,
    f: spec_fn(RallyView) -> RallyView,
)
    requires
        d.wf(),
        forall|r: RallyView|
            (#[trigger] f(r)).id == r.id && f(r).recording_id == r.recording_id,
    ensures
        (StoreView { rallies: rewrite(d.rallies, p, f), ..d }).wf(),
{
    let n = StoreView { rallies: rewrite(d.rallies, p, f), ..d };
    assert forall|i: int| 0 <= i < n.rallies.len() implies (#[trigger] n.rallies[i]).id
        == d.rallies[i].id && n.rallies[i].recording_id == d.rallies[i].recording_id by {
        assert(f(d.rallies[i]).id == d.rallies[i].id);
    }
}

/// A rewrite of annotations that leaves their ids and recordings alone keeps the
/// invariant.
proof fn annotations_rewritten(
    d: StoreView,
    p: spec_fn(AnnotationView) -> bool,
    f: spec_fn(AnnotationView) -> AnnotationView,
)
    requires
        d.wf(),
        forall|a: AnnotationView|
            (#[trigger] f(a)).id == a.id && f(a).recording_id == a.recording_id,
    ensures
        (StoreView { annotations: rewrite(d.annotations, p, f), ..d }).wf(),
{
    let n = StoreView { annotations: rewrite(d.annotations, p, f), ..d };
    assert forall|i: int| 0 <= i < n.annotations.len() implies (#[trigger] n.annotations[i]).id
        == d.annotations[i].id && n.annotations[i].recording_id == d.annotations[i].recording_id by {
        assert(f(d.annotations[i]).id == d.annotations[i].id);
    }
}

/// Moving a rally's boundaries keeps the invariant.
pub proof fn rally_updated_wf(d: StoreView, path: Seq<char>, rally: i64, start: i64, end: i64)
    requires
        d.wf(),
    ensures
        rally_updated(d, path, rally, start, end).wf(),
{
    if let Some(id) = id_of(d, path) {
        rallies_rewritten(
            d,
            rally_in(id, rally),
            moved(crate::timeline::lower(start, end), crate::timeline::upper(start, end)),
        );
    }
}

/// Adding a rally by hand keeps the invariant.
pub proof fn rally_added_wf(d: StoreView, path: Seq<char>, start: i64, end: i64)
    requires
        d.wf(),
        next_rally(d.rallies) <= i64::MAX,
    ensures
        rally_added(d, path, start, end).wf(),
{
    row_is_known(d, path);
    if let Some(id) = id_of(d, path) {
        rally_pushed(
            d,
            crate::timeline::new_rally(next_rally(d.rallies) as i64, id, start, end),
        );
    }
}

/// Deleting a rally keeps the invariant.
pub proof fn rally_deleted_wf(d: StoreView, path: Seq<char>, rally: i64)
    requires
        d.wf(),
    ensures
        rally_deleted(d, path, rally).wf(),
{
    if let Some(id) = id_of(d, path) {
        rallies_filtered(d, rally_not_in(id, rally));
    }
}

/// Setting a rally's flag keeps the invariant.
pub proof fn rally_flagged_wf(d: StoreView, path: Seq<char>, rally: i64, flagged: bool)
    requires
        d.wf(),
    ensures
        rally_flagged(d, path, rally, flagged).wf(),
{
    if let Some(id) = id_of(d, path) {
        rallies_rewritten(d, rally_in(id, rally), reflagged(flagged));
    }
}

/// Dropping an annotation onto a recording keeps the invariant.
pub proof fn annotation_added_wf(d: StoreView, path: Seq<char>, time: i64, verdict: Seq<char>)
    requires
        d.wf(),
        next_annotation(d.annotations) <= i64::MAX,
    ensures
        annotation_added(d, path, time, verdict).wf(),
{
    row_is_known(d, path);
    if let Some(id) = id_of(d, path) {
        annotation_pushed(
            d,
            new_annotation(next_annotation(d.annotations) as i64, id, time, verdict),
        );
    }
}

/// Enriching an annotation keeps the invariant.
pub proof fn annotation_updated_wf(
    d: StoreView,
    path: Seq<char>,
    id: i64,
    verdict: Seq<char>,
    aspect: Option<Seq<char>>,
    note: Option<Seq<char>>,
)
    requires
        d.wf(),
    ensures
        annotation_updated(d, path, id, verdict, aspect, note).wf(),
{
    if let Some(rid) = id_of(d, path) {
        annotations_rewritten(d, annotation_in(rid, id), enriched(verdict, aspect, note));
    }
}

/// Deleting an annotation keeps the invariant.
pub proof fn annotation_deleted_wf(d: StoreView, path: Seq<char>, id: i64)
    requires
        d.wf(),
    ensures
        annotation_deleted(d, path, id).wf(),
{
    if let Some(rid) = id_of(d, path) {
        annotations_filtered(d, annotation_not_in(rid, id));
    }
}

/// Writing a setting keeps the invariant.
pub proof fn with_meta_wf(d: StoreView, key: Seq<char>, value: Seq<char>)
    requires
        d.wf(),
    ensures
        with_meta(d, key, value).wf(),
{
    let n = with_meta(d, key, value);
    if any(d.meta, setting(key)) {
        assert forall|i: int| 0 <= i < n.meta.len() implies (#[trigger] n.meta[i]).key
            == d.meta[i].key by {}
    } else {
        assert forall|i: int, j: int| 0 <= i < j < n.meta.len() implies (#[trigger] n.meta[i]).key
            != (#[trigger] n.meta[j]).key by {
            if j == d.meta.len() && n.meta[i].key == key {
                assert(setting(key)(d.meta[i]));
            }
        }
    }
}

/// Designating a library keeps the invariant.
pub proof fn designated_wf(d: StoreView, kind: Seq<char>, folder: Seq<char>, mount: Seq<char>)
    requires
        d.wf(),
        next_library(d.libraries) <= i64::MAX,
        !adoption_collides(d.recordings, kind, d.library_path_of(kind), folder),
    ensures
        designated(d, kind, folder, mount).wf(),
{
    let n = designated(d, kind, folder, mount);
    let s = d.recordings;
    let prev = d.library_path_of(kind);
    let f = adopted(kind, prev, folder);
    with_meta_wf(d, "active_library"@, kind);
    assert(n.meta == with_meta(d, "active_library"@, kind).meta);
    assert forall|i: int| 0 <= i < s.len() implies {
        let a = #[trigger] n.recordings[i];
        a == f(s[i]) && a.id == s[i].id && a.session_id == s[i].session_id && a.library
            == s[i].library
    } by {}
    assert(n.recordings_wf()) by {
        assert forall|i: int, j: int| 0 <= i < j < n.recordings.len() implies (
        #[trigger] n.recordings[i]).id < (#[trigger] n.recordings[j]).id by {
            assert(s[i].id < s[j].id);
        }
        assert forall|i: int, j: int| 0 <= i < j < n.recordings.len() implies !((
        #[trigger] n.recordings[i]).library == (#[trigger] n.recordings[j]).library
            && n.recordings[i].path == n.recordings[j].path) by {
            assert(!(s[i].library == s[j].library && s[i].path == s[j].path));
            if s[i].library == kind && s[j].library == kind {
                assert(!key_taken(s, kind, prev, folder, j, i));
                assert(!key_taken(s, kind, prev, folder, i, j));
            }
        }
    }
    assert forall|i: int| 0 <= i < n.recordings.len() implies any(
        n.sessions,
        home_of(#[trigger] n.recordings[i]),
    ) by {
        assert(any(d.sessions, home_of(s[i])));
        let k = choose|k: int| 0 <= k < d.sessions.len() && home_of(s[i])(#[trigger] d.sessions[k]);
        assert(home_of(n.recordings[i])(n.sessions[k]));
    }
    assert forall|id: i64| any(s, recording_with(id)) implies #[trigger] any(
        n.recordings,
        recording_with(id),
    ) by {
        let k = choose|k: int| 0 <= k < s.len() && recording_with(id)(#[trigger] s[k]);
        assert(recording_with(id)(n.recordings[k]));
    }
    assert(n.rallies_wf()) by {
        assert forall|i: int| 0 <= i < n.rallies.len() implies any(
            n.recordings,
            recording_with((#[trigger] n.rallies[i]).recording_id),
        ) by {
            assert(any(s, recording_with(d.rallies[i].recording_id)));
        }
    }
    assert(n.annotations_wf()) by {
        assert forall|i: int| 0 <= i < n.annotations.len() implies any(
            n.recordings,
            recording_with((#[trigger] n.annotations[i]).recording_id),
        ) by {
            assert(any(s, recording_with(d.annotations[i].recording_id)));
        }
    }
    assert(n.libraries_wf()) by {
        let l = d.libraries;
        if any(l, library_of(kind)) {
            assert forall|i: int| 0 <= i < n.libraries.len() implies (#[trigger] n.libraries[i]).id
                == l[i].id && n.libraries[i].kind == l[i].kind by {}
        } else {
            assert forall|i: int, j: int| 0 <= i < j < n.libraries.len() implies (
            #[trigger] n.libraries[i]).id < (#[trigger] n.libraries[j]).id && n.libraries[i].kind
                != n.libraries[j].kind by {
                if j == l.len() {
                    if i < l.len() - 1 {
                        assert(l[i].id < l[l.len() - 1].id);
                    }
                    if l[i].kind == kind {
                        assert(library_of(kind)(l[i]));
                    }
                }
            }
        }
    }
}

/// Asking for a session keeps the invariant, and gives one of that library and
/// day.
pub proof fn with_session_wf(d: StoreView, kind: Seq<char>, day: Seq<char>)
    requires
        d.wf(),
        next_session(d.sessions) <= i64::MAX,
    ensures
        (StoreView { sessions: with_session(d.sessions, kind, day), ..d }).wf(),
        exists|k: int|
            0 <= k < with_session(d.sessions, kind, day).len() && (
            #[trigger] with_session(d.sessions, kind, day)[k]).id == session_id_on(
                d.sessions,
                kind,
                day,
            ) && with_session(d.sessions, kind, day)[k].library == kind && with_session(
                d.sessions,
                kind,
                day,
            )[k].capture_day == day,
{
    let t = with_session(d.sessions, kind, day);
    let n = StoreView { sessions: t, ..d };
    session_is_there(d.sessions, kind, day);
    first_found(t, session_on(kind, day));
    let x = first(t, session_on(kind, day))->0;
    let at = choose|k: int| 0 <= k < t.len() && t[k] == x;
    assert(t[at].id == session_id_on(d.sessions, kind, day));
    if !any(d.sessions, session_on(kind, day)) {
        let s = d.sessions;
        assert(n.sessions_wf()) by {
            assert forall|i: int, j: int| 0 <= i < j < t.len() implies (#[trigger] t[i]).id < (
            #[trigger] t[j]).id && !(t[i].library == t[j].library && t[i].capture_day
                == t[j].capture_day) by {
                if j == s.len() {
                    if i < s.len() - 1 {
                        assert(s[i].id < s[s.len() - 1].id);
                    }
                    if s[i].library == kind && s[i].capture_day == day {
                        assert(session_on(kind, day)(s[i]));
                    }
                }
            }
        }
        assert forall|i: int| 0 <= i < n.recordings.len() implies any(
            n.sessions,
            home_of(#[trigger] n.recordings[i]),
        ) by {
            assert(any(s, home_of(d.recordings[i])));
            any_pushed(s, t.last(), home_of(d.recordings[i]));
        }
    }
}

/// Collecting an empty session keeps the invariant.
pub proof fn without_empty_wf(d: StoreView, id: i64)
    requires
        d.wf(),
    ensures
        (StoreView { sessions: without_empty(d.sessions, d.recordings, id), ..d }).wf(),
{
    let s = d.sessions;
    let t = without_empty(s, d.recordings, id);
    let n = StoreView { sessions: t, ..d };
    if !any(d.recordings, recordings_in(id)) {
        let p = other_sessions(id);
        let r = |a: SessionView, b: SessionView|
            a.id < b.id && !(a.library == b.library && a.capture_day == b.capture_day);
        assert forall|i: int, j: int| 0 <= i < j < s.len() implies r(
            #[trigger] s[i],
            #[trigger] s[j],
        ) by {}
        filter_ordered(s, p, r);
        assert(n.sessions_wf()) by {
            assert forall|i: int, j: int| 0 <= i < j < t.len() implies (#[trigger] t[i]).id < (
            #[trigger] t[j]).id && !(t[i].library == t[j].library && t[i].capture_day
                == t[j].capture_day) by {
                assert(r(t[i], t[j]));
            }
        }
        assert forall|i: int| 0 <= i < n.recordings.len() implies any(
            n.sessions,
            home_of(#[trigger] n.recordings[i]),
        ) by {
            let h = home_of(d.recordings[i]);
            assert(any(s, h));
            let k = choose|k: int| 0 <= k < s.len() && h(#[trigger] s[k]);
            if s[k].id == id {
                assert(recordings_in(id)(d.recordings[i]));
            }
            any_filtered(s, p, h);
            assert(p(s[k]) && h(s[k]));
        }
    }
}

/// A recording given a session of its library and a free key keeps the invariant.
pub proof fn recording_moved(
    d: StoreView,
    id: i64,
    f: spec_fn(RecordingView) -> RecordingView,
    row: RecordingView,
)
    requires
        d.wf(),
        first(d.recordings, recording_with(id)) == Some(row),
        forall|r: RecordingView| (#[trigger] f(r)).id == r.id,
        any(d.sessions, home_of(f(row))),
        forall|k: int|
            0 <= k < d.recordings.len() && (#[trigger] d.recordings[k]).id != id ==> !(
            d.recordings[k].library == f(row).library && d.recordings[k].path == f(row).path),
    ensures
        (StoreView { recordings: rewrite(d.recordings, recording_with(id), f), ..d }).wf(),
{
    let s = d.recordings;
    let t = rewrite(s, recording_with(id), f);
    let n = StoreView { recordings: t, ..d };
    first_found(s, recording_with(id));
    let at = choose|k: int| 0 <= k < s.len() && s[k] == row;
    assert forall|k: int| 0 <= k < s.len() implies (#[trigger] t[k]).id == s[k].id && (if k == at {
        t[k] == f(row)
    } else {
        s[k].id != id && t[k] == s[k]
    }) by {
        assert(f(s[k]).id == s[k].id);
        if k < at {
            assert(s[k].id < s[at].id);
        } else if k > at {
            assert(s[at].id < s[k].id);
        }
    }
    assert(n.recordings_wf()) by {
        assert forall|i: int, j: int| 0 <= i < j < t.len() implies (#[trigger] t[i]).id < (
        #[trigger] t[j]).id && !(t[i].library == t[j].library && t[i].path == t[j].path) by {
            assert(s[i].id < s[j].id);
            if i == at {
                assert(s[j].id != id);
            } else if j == at {
                assert(s[i].id != id);
            }
        }
    }
    assert forall|i: int| 0 <= i < t.len() implies any(n.sessions, home_of(#[trigger] t[i])) by {
        if i != at {
            assert(any(d.sessions, home_of(s[i])));
        }
    }
    assert forall|x: i64| any(s, recording_with(x)) implies #[trigger] any(
        t,
        recording_with(x),
    ) by {
        any_rewritten(s, recording_with(id), f, recording_with(x));
    }
    assert(n.rallies_wf()) by {
        assert forall|i: int| 0 <= i < n.rallies.len() implies any(
            n.recordings,
            recording_with((#[trigger] n.rallies[i]).recording_id),
        ) by {
            assert(any(s, recording_with(d.rallies[i].recording_id)));
        }
    }
    assert(n.annotations_wf()) by {
        assert forall|i: int| 0 <= i < n.annotations.len() implies any(
            n.recordings,
            recording_with((#[trigger] n.annotations[i]).recording_id),
        ) by {
            assert(any(s, recording_with(d.annotations[i].recording_id)));
        }
    }
}

/// Registering a recording under a free key keeps the invariant.
pub proof fn registered_wf(
    d: StoreView,
    kind: Seq<char>,
    path: Seq<char>,
    file_size: i64,
    quick_hash: Seq<char>,
    day: Seq<char>,
)
    requires
        d.wf(),
        next_session(d.sessions) <= i64::MAX,
        next_recording(d.recordings) <= i64::MAX,
        !any(d.recordings, recording_at(kind, path)),
    ensures
        registered(d, kind, path, file_size, quick_hash, day).wf(),
{
    with_session_wf(d, kind, day);
    let m = StoreView { sessions: with_session(d.sessions, kind, day), ..d };
    let n = registered(d, kind, path, file_size, quick_hash, day);
    let s = m.recordings;
    let t = n.recordings;
    let k = choose|k: int|
        0 <= k < m.sessions.len() && (#[trigger] m.sessions[k]).id == session_id_on(
            d.sessions,
            kind,
            day,
        ) && m.sessions[k].library == kind && m.sessions[k].capture_day == day;
    assert(n.recordings_wf()) by {
        assert forall|i: int, j: int| 0 <= i < j < t.len() implies (#[trigger] t[i]).id < (
        #[trigger] t[j]).id && !(t[i].library == t[j].library && t[i].path == t[j].path) by {
            if j == s.len() {
                if i < s.len() - 1 {
                    assert(s[i].id < s[s.len() - 1].id);
                }
                if s[i].library == kind && s[i].path == path {
                    assert(recording_at(kind, path)(s[i]));
                }
            }
        }
    }
    assert forall|i: int| 0 <= i < t.len() implies any(n.sessions, home_of(#[trigger] t[i])) by {
        if i < s.len() {
            assert(any(m.sessions, home_of(s[i])));
        } else {
            assert(home_of(t[i])(n.sessions[k]));
        }
    }
    assert forall|x: i64| any(s, recording_with(x)) implies #[trigger] any(
        t,
        recording_with(x),
    ) by {
        any_pushed(s, t.last(), recording_with(x));
    }
    assert(n.rallies_wf()) by {
        assert forall|i: int| 0 <= i < n.rallies.len() implies any(
            n.recordings,
            recording_with((#[trigger] n.rallies[i]).recording_id),
        ) by {
            assert(any(s, recording_with(d.rallies[i].recording_id)));
        }
    }
    assert(n.annotations_wf()) by {
        assert forall|i: int| 0 <= i < n.annotations.len() implies any(
            n.recordings,
            recording_with((#[trigger] n.annotations[i]).recording_id),
        ) by {
            assert(any(s, recording_with(d.annotations[i].recording_id)));
        }
    }
}

/// Re-homing a recording under a free key of a library keeps the invariant.
pub proof fn rehomed_wf(d: StoreView, id: i64, kind: Seq<char>, path: Seq<char>)
    requires
        d.wf(),
        next_session(d.sessions) <= i64::MAX,
        !any(d.recordings, recording_at(kind, path)),
    ensures
        rehomed(d, id, kind, path).wf(),
{
    if let Some(row) = first(d.recordings, recording_with(id)) {
        let day = row.capture_day;
        with_session_wf(d, kind, day);
        let m = StoreView { sessions: with_session(d.sessions, kind, day), ..d };
        let session = session_id_on(d.sessions, kind, day);
        let f = moved_to(kind, path, session);
        let k = choose|k: int|
            0 <= k < m.sessions.len() && (#[trigger] m.sessions[k]).id == session
                && m.sessions[k].library == kind && m.sessions[k].capture_day == day;
        assert(home_of(f(row))(m.sessions[k]));
        assert forall|k: int|
            0 <= k < d.recordings.len() && (#[trigger] d.recordings[k]).id != id implies !(
        d.recordings[k].library == f(row).library && d.recordings[k].path == f(row).path) by {
            if d.recordings[k].library == kind && d.recordings[k].path == path {
                assert(recording_at(kind, path)(d.recordings[k]));
            }
        }
        recording_moved(m, id, f, row);
        let n = StoreView { recordings: rewrite(d.recordings, recording_with(id), f), ..m };
        without_empty_wf(n, row.session_id);
        assert(rehomed(d, id, kind, path) == (if row.session_id != session {
            StoreView {
                sessions: without_empty(n.sessions, n.recordings, row.session_id),
                ..n
            }
        } else {
            n
        }));
    }
}

/// Re-homing a recording to another day keeps the invariant.
pub proof fn refined_wf(d: StoreView, id: i64, day: Seq<char>)
    requires
        d.wf(),
        next_session(d.sessions) <= i64::MAX,
    ensures
        refined(d, id, day).wf(),
{
    if let Some(row) = first(d.recordings, recording_with(id)) {
        let kind = row.library;
        first_found(d.recordings, recording_with(id));
        let at = choose|k: int| 0 <= k < d.recordings.len() && d.recordings[k] == row;
        with_session_wf(d, kind, day);
        let m = StoreView { sessions: with_session(d.sessions, kind, day), ..d };
        let session = session_id_on(d.sessions, kind, day);
        let f = dated(day, session);
        let k = choose|k: int|
            0 <= k < m.sessions.len() && (#[trigger] m.sessions[k]).id == session
                && m.sessions[k].library == kind && m.sessions[k].capture_day == day;
        assert(home_of(f(row))(m.sessions[k]));
        assert forall|k: int|
            0 <= k < d.recordings.len() && (#[trigger] d.recordings[k]).id != id implies !(
        d.recordings[k].library == f(row).library && d.recordings[k].path == f(row).path) by {
            if k < at {
                assert(d.recordings[k].id < d.recordings[at].id);
            } else {
                assert(d.recordings[at].id < d.recordings[k].id);
            }
        }
        recording_moved(m, id, f, row);
        let n = StoreView { recordings: rewrite(d.recordings, recording_with(id), f), ..m };
        without_empty_wf(n, row.session_id);
        assert(refined(d, id, day) == (if row.session_id != session {
            StoreView {
                sessions: without_empty(n.sessions, n.recordings, row.session_id),
                ..n
            }
        } else {
            n
        }));
    }
}

/// Forgetting a recording keeps the invariant.
pub proof fn forgotten_wf(d: StoreView, row: RecordingView)
    requires
        d.wf(),
    ensures
        forgotten(d, row).wf(),
{
    let id = row.id;
    let p = other_than(id);
    rallies_filtered(d, rallies_not_of(id));
    let m1 = StoreView { rallies: d.rallies.filter(rallies_not_of(id)), ..d };
    annotations_filtered(m1, annotations_not_of(id));
    let m = StoreView { annotations: d.annotations.filter(annotations_not_of(id)), ..m1 };
    let s = d.recordings;
    let t = s.filter(p);
    let n = StoreView { recordings: t, ..m };
    let r = |a: RecordingView, b: RecordingView|
        a.id < b.id && !(a.library == b.library && a.path == b.path);
    assert forall|i: int, j: int| 0 <= i < j < s.len() implies r(
        #[trigger] s[i],
        #[trigger] s[j],
    ) by {}
    filter_ordered(s, p, r);
    filter_elements(s, p);
    filter_elements(d.rallies, rallies_not_of(id));
    filter_elements(d.annotations, annotations_not_of(id));
    assert(n.recordings_wf()) by {
        assert forall|i: int, j: int| 0 <= i < j < t.len() implies (#[trigger] t[i]).id < (
        #[trigger] t[j]).id && !(t[i].library == t[j].library && t[i].path == t[j].path) by {
            assert(r(t[i], t[j]));
        }
    }
    assert forall|i: int| 0 <= i < t.len() implies any(n.sessions, home_of(#[trigger] t[i])) by {
        assert(s.contains(t[i]));
        let k = choose|k: int| 0 <= k < s.len() && s[k] == t[i];
        assert(any(d.sessions, home_of(s[k])));
    }
    assert forall|x: i64| x != id && any(s, recording_with(x)) implies #[trigger] any(
        t,
        recording_with(x),
    ) by {
        let k = choose|k: int| 0 <= k < s.len() && recording_with(x)(#[trigger] s[k]);
        any_filtered(s, p, recording_with(x));
        assert(p(s[k]) && recording_with(x)(s[k]));
    }
    assert(n.rallies_wf()) by {
        assert forall|i: int| 0 <= i < n.rallies.len() implies any(
            n.recordings,
            recording_with((#[trigger] n.rallies[i]).recording_id),
        ) by {
            assert(rallies_not_of(id)(n.rallies[i]));
            assert(any(m.recordings, recording_with(m.rallies[i].recording_id)));
        }
    }
    assert(n.annotations_wf()) by {
        assert forall|i: int| 0 <= i < n.annotations.len() implies any(
            n.recordings,
            recording_with((#[trigger] n.annotations[i]).recording_id),
        ) by {
            assert(annotations_not_of(id)(n.annotations[i]));
            assert(any(m.recordings, recording_with(m.annotations[i].recording_id)));
        }
    }
    without_empty_wf(n, row.session_id);
    assert(forgotten(d, row) == (StoreView {
        sessions: without_empty(n.sessions, n.recordings, row.session_id),
        ..n
    }));
}

/// Persisting a draft timeline keeps the invariant.
pub proof fn rallies_saved_wf(
    d: StoreView,
    id: i64,
    duration_ms: i64,
    rallies: Seq<Rally>,
    waveform: Seq<Seq<char>>,
)
    requires
        d.wf(),
        rallies_fit(d.rallies, id, rallies.len()),
        rallies.len() > 0 ==> any(d.recordings, recording_with(id)),
    ensures
        rallies_saved(d, id, duration_ms, rallies, waveform).wf(),
{
    let drafts = rallies.map_values(drafted());
    rallies_replaced_wf(d, id, drafts);
    let m = StoreView { rallies: rallies_replaced(d.rallies, id, drafts), ..d };
    recordings_rewritten(m, recording_with(id), draft_saved(duration_ms, waveform));
}

/// Dropping the draft of one recording keeps the invariant.
pub proof fn segmentation_reset_wf(d: StoreView, path: Seq<char>)
    requires
        d.wf(),
    ensures
        segmentation_reset(d, path).wf(),
{
    if let Some(row) = row_at(d, path) {
        rallies_filtered(d, rallies_not_of(row.id));
        let m = StoreView { rallies: d.rallies.filter(rallies_not_of(row.id)), ..d };
        recordings_rewritten(m, recording_with(row.id), requeued());
    }
}

/// Dropping every draft of a library keeps the invariant.
pub proof fn all_reset_wf(d: StoreView, kind: Seq<char>)
    requires
        d.wf(),
    ensures
        all_reset(d, kind).wf(),
{
    rallies_filtered(d, rallies_outside(d, kind));
    let m = StoreView { rallies: d.rallies.filter(rallies_outside(d, kind)), ..d };
    recordings_rewritten(m, recordings_of(kind), requeued());
}

/// Queueing stale drafts again keeps the invariant.
pub proof fn stale_requeued_wf(d: StoreView, kind: Seq<char>)
    requires
        d.wf(),
    ensures
        stale_requeued(d, kind).wf(),
{
    rallies_filtered(d, fresh_rallies(d, kind));
    let m = StoreView { rallies: d.rallies.filter(fresh_rallies(d, kind)), ..d };
    recordings_rewritten(m, stale(d, kind), requeued());
}

/// Adopting published Analyses keeps the invariant; no recording is added or
/// dropped.
proof fn adopt_first_wf(
    d: StoreView,
    files: Seq<AnalysisFileView>,
    rows: Seq<RecordingView>,
    n: nat,
)
    requires
        d.wf(),
        n <= rows.len(),
        forall|i: int|
            0 <= i < rows.len() ==> any(d.recordings, recording_with((#[trigger] rows[i]).id)),
        rallies_below(d.rallies, i64::MAX - n * total_rallies(files)),
    ensures
        adopt_first(d, files, rows, n).wf(),
        forall|id: i64|
            any(d.recordings, recording_with(id)) ==> #[trigger] any(
                adopt_first(d, files, rows, n).recordings,
                recording_with(id),
            ),
        rallies_below(adopt_first(d, files, rows, n).rallies, i64::MAX as int),
        forall|bound: int|
            #![trigger rallies_below(d.rallies, bound)]
            rallies_below(d.rallies, bound) && bound + n * total_rallies(files) <= i64::MAX
                ==> rallies_below(
                adopt_first(d, files, rows, n).rallies,
                bound + n * total_rallies(files),
            ),
    decreases n,
{
    let k = total_rallies(files);
    if n == 0 {
        assert(0 * k == 0) by (nonlinear_arith);
    } else {
        let p = (n - 1) as nat;
        assert(n * k == p * k + k && p * k >= 0) by (nonlinear_arith)
            requires
                p == n - 1,
                p >= 0,
                k >= 0,
        ;
        assert(rallies_below(d.rallies, i64::MAX - p * k));
        adopt_first_wf(d, files, rows, p);
        let e = adopt_first(d, files, rows, p);
        let r = rows[n - 1];
        let prefix = key_prefix(r.quick_hash, r.file_size as int);
        let best = best_analysis(files, prefix);
        if awaits_draft(r) && !hand_touched(e, r.id) && best is Some {
            best_is_counted(files, prefix);
            let drafts = best->0.rallies.map_values(adopted_rally());
            assert(rallies_below(e.rallies, i64::MAX - k)) by {
                assert(rallies_below(d.rallies, i64::MAX - n * k));
            }
            replaced_below(e.rallies, r.id, drafts, i64::MAX - k);
            assert(any(d.recordings, recording_with(r.id)));
            rallies_replaced_wf(e, r.id, drafts);
            let m = StoreView { rallies: rallies_replaced(e.rallies, r.id, drafts), ..e };
            recordings_rewritten(m, recording_with(r.id), analyzed(best->0));
            assert forall|id: i64| any(d.recordings, recording_with(id)) implies #[trigger] any(
                adopt_first(d, files, rows, n).recordings,
                recording_with(id),
            ) by {
                assert(any(e.recordings, recording_with(id)));
                any_rewritten(
                    e.recordings,
                    recording_with(r.id),
                    analyzed(best->0),
                    recording_with(id),
                );
            }
            assert forall|bound: int|
                #![trigger rallies_below(d.rallies, bound)]
                rallies_below(d.rallies, bound) && bound + n * k <= i64::MAX implies rallies_below(
                adopt_first(d, files, rows, n).rallies,
                bound + n * k,
            ) by {
                assert(rallies_below(e.rallies, bound + p * k));
                replaced_below(e.rallies, r.id, drafts, bound + p * k);
            }
        }
    }
}

/// Adopting published Analyses keeps the invariant.
pub proof fn analyses_adopted_wf(d: StoreView, files: Seq<AnalysisFileView>)
    requires
        d.wf(),
        rallies_below(d.rallies, i64::MAX - d.recordings.len() * total_rallies(files)),
    ensures
        analyses_adopted(d, files).wf(),
{
    assert forall|i: int| 0 <= i < d.recordings.len() implies any(
        d.recordings,
        recording_with((#[trigger] d.recordings[i]).id),
    ) by {
        assert(recording_with(d.recordings[i].id)(d.recordings[i]));
    }
    adopt_first_wf(d, files, d.recordings, d.recordings.len());
}

/// Writing a bundle's state onto a known recording keeps the invariant.
pub proof fn state_applied_wf(d: StoreView, id: i64, rec: BundleRecordingView)
    requires
        d.wf(),
        any(d.recordings, recording_with(id)),
        rallies_fit(d.rallies, id, rec.rallies.len()),
        annotations_fit(d.annotations, id, rec.annotations.len()),
    ensures
        state_applied(d, id, rec).wf(),
{
    rallies_replaced_wf(d, id, rec.rallies);
    let m = StoreView { rallies: rallies_replaced(d.rallies, id, rec.rallies), ..d };
    annotations_replaced_wf(m, id, rec.annotations);
    let n = StoreView { annotations: annotations_replaced(d.annotations, id, rec.annotations), ..m };
    recordings_rewritten(n, recording_with(id), received(rec));
}

/// Applying one recording of a bundle keeps the invariant.
pub proof fn taken_wf(d: StoreView, rec: BundleRecordingView)
    requires
        d.wf(),
        ids_fit(d, 1, rec.rallies.len() as int, rec.annotations.len() as int),
    ensures
        taken(d, rec).wf(),
{
    taken_fits(d, rec, 0, 0, 0);
    let kind = "shared"@;
    first_found(d.recordings, recording_at(kind, rec.path));
    match first(d.recordings, recording_at(kind, rec.path)) {
        Some(r) => {
            let k = choose|k: int| 0 <= k < d.recordings.len() && d.recordings[k] == r;
            assert(recording_with(r.id)(d.recordings[k]));
            state_applied_wf(d, r.id, rec);
        },
        None => {
            registered_wf(
                d,
                kind,
                rec.path,
                rec.file_size,
                rec.quick_hash,
                rec.capture_day,
            );
            let m = registered(
                d,
                kind,
                rec.path,
                rec.file_size,
                rec.quick_hash,
                rec.capture_day,
            );
            let id = next_recording(d.recordings) as i64;
            assert(recording_with(id)(m.recordings[m.recordings.len() - 1]));
            state_applied_wf(m, id, rec);
        },
    }
}

/// Receiving a bundle keeps the invariant.
pub proof fn receive_all_wf(
    d: StoreView,
    library: Seq<char>,
    disk: Seq<DiskEntryView>,
    recs: Seq<BundleRecordingView>,
    n: int,
    r: int,
    a: int,
)
    requires
        d.wf(),
        n >= 0,
        r >= 0,
        a >= 0,
        ids_fit(d, n + recs.len(), r + rally_total(recs), a + annotation_total(recs)),
    ensures
        receive_all(d, library, disk, recs).store.wf(),
        ids_fit(receive_all(d, library, disk, recs).store, n, r, a),
    decreases recs.len(),
{
    if recs.len() > 0 {
        let rec = recs.last();
        receive_all_wf(
            d,
            library,
            disk,
            recs.drop_last(),
            n + 1,
            r + rec.rallies.len(),
            a + rec.annotations.len(),
        );
        let e = receive_all(d, library, disk, recs.drop_last()).store;
        taken_fits(e, rec, n, r, a);
        taken_wf(e, rec);
    }
}

/// Carrying a review between two known recordings keeps the invariant.
pub proof fn review_carried_wf(d: StoreView, from: RecordingView, to: i64)
    requires
        d.wf(),
        any(d.recordings, recording_with(to)),
        rallies_fit(d.rallies, to, copied_rallies(d, from.id).len()),
        annotations_fit(d.annotations, to, copied_annotations(d, from.id).len()),
    ensures
        review_carried(d, from, to).wf(),
{
    let rallies = copied_rallies(d, from.id);
    let annotations = copied_annotations(d, from.id);
    rallies_replaced_wf(d, to, rallies);
    let m = StoreView { rallies: rallies_replaced(d.rallies, to, rallies), ..d };
    annotations_replaced_wf(m, to, annotations);
    let n = StoreView { annotations: annotations_replaced(d.annotations, to, annotations), ..m };
    recordings_rewritten(n, recording_with(to), timeline_from(from));
}

/// What is found at a path in some library is a recording of the store.
pub proof fn id_in_any_is_known(d: StoreView, libraries: Seq<LibraryView>, path: Seq<char>)
    ensures
        id_in_any(d, libraries, path) matches Some(id) ==> any(d.recordings, recording_with(id)),
    decreases libraries.len(),
{
    if libraries.len() > 0 {
        id_in_any_is_known(d, libraries.drop_last(), path);
        if let Some(rel) = crate::path::stripped(libraries.last().path, path) {
            let p = recording_at(libraries.last().kind, rel);
            first_found(d.recordings, p);
            if let Some(r) = first(d.recordings, p) {
                let k = choose|k: int| 0 <= k < d.recordings.len() && d.recordings[k] == r;
                assert(recording_with(r.id)(d.recordings[k]));
            }
        }
    }
}

/// Whether the lost recordings of a scan are recordings of its library.
pub open spec fn lost_belong(s: ScanView, kind: Seq<char>) -> bool {
    forall|i: int, k: int|
        0 <= i < s.missing.len() && 0 <= k < s.store.recordings.len() && (
        #[trigger] s.missing[i]).id == (#[trigger] s.store.recordings[k]).id
            ==> s.store.recordings[k].library == kind
}

/// Taking in one entry keeps the invariant.
proof fn entry_met_wf(s: ScanView, kind: Seq<char>, folder: Seq<char>, e: DiskEntryView)
    requires
        s.store.wf(),
        lost_belong(s, kind),
        next_session(s.store.sessions) <= i64::MAX,
        next_recording(s.store.recordings) <= i64::MAX,
    ensures
        entry_met(s, kind, folder, e).store.wf(),
        lost_belong(entry_met(s, kind, folder, e), kind),
{
    let n = entry_met(s, kind, folder, e);
    let d = s.store;
    if let Some(rel) = stripped(folder, e.path) {
        if let Some(meta) = e.meta {
            if e.is_file && video_path(e.path) && !any(d.recordings, recording_at(kind, rel)) {
                let p = with_content(stored_size(meta.size), hash_or_none(meta));
                first_found(s.missing, p);
                if let Some(r) = first(s.missing, p) {
                    let f = relinked(rel);
                    let at = choose|i: int| 0 <= i < s.missing.len() && s.missing[i] == r;
                    first_found(d.recordings, recording_with(r.id));
                    match first(d.recordings, recording_with(r.id)) {
                        Some(row) => {
                            let k = choose|k: int|
                                0 <= k < d.recordings.len() && d.recordings[k] == row;
                            assert(s.missing[at].id == d.recordings[k].id);
                            assert(row.library == kind);
                            assert(any(d.sessions, home_of(d.recordings[k])));
                            let h = choose|h: int|
                                0 <= h < d.sessions.len() && home_of(row)(#[trigger] d.sessions[h]);
                            assert(home_of(f(row))(d.sessions[h]));
                            assert forall|k: int|
                                0 <= k < d.recordings.len() && (#[trigger] d.recordings[k]).id
                                    != r.id implies !(d.recordings[k].library == f(row).library
                                && d.recordings[k].path == f(row).path) by {
                                if d.recordings[k].library == kind && d.recordings[k].path == rel {
                                    assert(recording_at(kind, rel)(d.recordings[k]));
                                }
                            }
                            recording_moved(d, r.id, f, row);
                        },
                        None => {
                            assert forall|k: int| 0 <= k < d.recordings.len() implies (
                            #[trigger] d.recordings[k]).id != r.id by {
                                if d.recordings[k].id == r.id {
                                    assert(recording_with(r.id)(d.recordings[k]));
                                }
                            }
                            assert(n.store.recordings =~= d.recordings);
                        },
                    }
                    filter_elements(s.missing, other_than(r.id));
                    assert forall|i: int, k: int|
                        0 <= i < n.missing.len() && 0 <= k < n.store.recordings.len() && (
                        #[trigger] n.missing[i]).id == (
                        #[trigger] n.store.recordings[k]).id implies n.store.recordings[k].library
                        == kind by {
                        assert(s.missing.contains(n.missing[i]));
                        let j = choose|j: int|
                            0 <= j < s.missing.len() && s.missing[j] == n.missing[i];
                        assert(s.missing[j].id == d.recordings[k].id);
                    }
                } else if let Some(r) = first(s.cross, p) {
                    rehomed_wf(d, r.id, kind, rel);
                    assert forall|i: int, k: int|
                        0 <= i < n.missing.len() && 0 <= k < n.store.recordings.len() && (
                        #[trigger] n.missing[i]).id == (
                        #[trigger] n.store.recordings[k]).id implies n.store.recordings[k].library
                        == kind by {
                        assert(s.missing[i].id == d.recordings[k].id);
                    }
                } else {
                    registered_wf(
                        d,
                        kind,
                        rel,
                        stored_size(meta.size),
                        hash_or_none(meta),
                        day_of_moment(meta.modified as int),
                    );
                    assert forall|i: int, k: int|
                        0 <= i < n.missing.len() && 0 <= k < n.store.recordings.len() && (
                        #[trigger] n.missing[i]).id == (
                        #[trigger] n.store.recordings[k]).id implies n.store.recordings[k].library
                        == kind by {
                        if k < d.recordings.len() {
                            assert(s.missing[i].id == d.recordings[k].id);
                        }
                    }
                }
            }
        }
    }
}

/// What a scan of a library looks for are lost recordings of it.
pub proof fn missing_is_lost(
    d: StoreView,
    kind: Seq<char>,
    folder: Seq<char>,
    disk: Seq<DiskEntryView>,
)
    ensures
        forall|i: int|
            0 <= i < scan_start(d, kind, folder, disk).missing.len() ==> d.recordings.contains(
                #[trigger] scan_start(d, kind, folder, disk).missing[i],
            ) && lost(kind, folder, disk)(scan_start(d, kind, folder, disk).missing[i]),
{
    filter_elements(d.recordings, lost(kind, folder, disk));
}

/// The walk of a scan keeps the invariant.
pub proof fn walked_wf(
    d: StoreView,
    kind: Seq<char>,
    folder: Seq<char>,
    disk: Seq<DiskEntryView>,
    walk: Seq<DiskEntryView>,
    bound: int,
)
    requires
        d.wf(),
        sessions_below(d.sessions, bound),
        recordings_below(d.recordings, bound),
        bound + walk.len() <= i64::MAX,
    ensures
        walked(d, kind, folder, disk, walk).store.wf(),
        lost_belong(walked(d, kind, folder, disk, walk), kind),
        sessions_below(walked(d, kind, folder, disk, walk).store.sessions, bound + walk.len()),
        recordings_below(walked(d, kind, folder, disk, walk).store.recordings, bound + walk.len()),
        walked(d, kind, folder, disk, walk).store.recordings.len() <= d.recordings.len()
            + walk.len(),
        walked(d, kind, folder, disk, walk).store.rallies == d.rallies,
    decreases walk.len(),
{
    if walk.len() == 0 {
        let s = scan_start(d, kind, folder, disk);
        missing_is_lost(d, kind, folder, disk);
        assert forall|i: int, k: int|
            0 <= i < s.missing.len() && 0 <= k < s.store.recordings.len() && (
            #[trigger] s.missing[i]).id == (
            #[trigger] s.store.recordings[k]).id implies s.store.recordings[k].library == kind by {
            assert(lost(kind, folder, disk)(s.missing[i]));
            assert(d.recordings.contains(s.missing[i]));
            let j = choose|j: int| 0 <= j < d.recordings.len() && d.recordings[j] == s.missing[i];
            if j < k {
                assert(d.recordings[j].id < d.recordings[k].id);
            } else if k < j {
                assert(d.recordings[k].id < d.recordings[j].id);
            }
        }
    } else {
        walked_wf(d, kind, folder, disk, walk.drop_last(), bound);
        let s = walked(d, kind, folder, disk, walk.drop_last());
        entry_met_fits(s, kind, folder, walk.last(), bound + walk.len() - 1);
        if s.store.sessions.len() > 0 {
            assert(s.store.sessions[s.store.sessions.len() - 1].id < bound + walk.len() - 1);
        }
        if s.store.recordings.len() > 0 {
            assert(s.store.recordings[s.store.recordings.len() - 1].id < bound + walk.len() - 1);
        }
        entry_met_wf(s, kind, folder, walk.last());
    }
}

/// Noticing what is found keeps the invariant.
pub proof fn all_noticed_wf(
    d: StoreView,
    kind: Seq<char>,
    folder: Seq<char>,
    disk: Seq<DiskEntryView>,
)
    requires
        d.wf(),
    ensures
        all_noticed(d, kind, folder, disk).wf(),
{
    let n = all_noticed(d, kind, folder, disk);
    let s = d.recordings;
    let t = n.recordings;
    assert forall|i: int| 0 <= i < s.len() implies {
        let a = #[trigger] t[i];
        a.id == s[i].id && a.session_id == s[i].session_id && a.library == s[i].library && a.path
            == s[i].path
    } by {}
    assert(n.recordings_wf()) by {
        assert forall|i: int, j: int| 0 <= i < j < t.len() implies (#[trigger] t[i]).id < (
        #[trigger] t[j]).id && !(t[i].library == t[j].library && t[i].path == t[j].path) by {
            assert(s[i].id < s[j].id);
            assert(!(s[i].library == s[j].library && s[i].path == s[j].path));
        }
    }
    assert(n.grouping_wf()) by {
        assert forall|i: int| 0 <= i < t.len() implies any(
            n.sessions,
            home_of(#[trigger] t[i]),
        ) by {
            assert(any(d.sessions, home_of(s[i])));
            let k = choose|k: int|
                0 <= k < d.sessions.len() && home_of(s[i])(#[trigger] d.sessions[k]);
            assert(home_of(t[i])(n.sessions[k]));
        }
    }
    assert forall|id: i64| #[trigger] any(s, recording_with(id)) implies any(
        t,
        recording_with(id),
    ) by {
        let k = choose|k: int| 0 <= k < s.len() && recording_with(id)(#[trigger] s[k]);
        assert(recording_with(id)(t[k]));
    }
    assert(n.rallies_wf()) by {
        assert forall|i: int| 0 <= i < n.rallies.len() implies any(
            n.recordings,
            recording_with((#[trigger] n.rallies[i]).recording_id),
        ) by {
            assert(any(s, recording_with(d.rallies[i].recording_id)));
        }
    }
    assert(n.annotations_wf()) by {
        assert forall|i: int| 0 <= i < n.annotations.len() implies any(
            n.recordings,
            recording_with((#[trigger] n.annotations[i]).recording_id),
        ) by {
            assert(any(s, recording_with(d.annotations[i].recording_id)));
        }
    }
}

/// A scan keeps the invariant.
pub proof fn scanned_wf(
    d: StoreView,
    disk: Seq<DiskEntryView>,
    walk: Seq<DiskEntryView>,
    files: Seq<AnalysisFileView>,
)
    requires
        d.wf(),
        scan_fits(d, walk, files),
    ensures
        scanned(d, disk, walk, files).wf(),
{
    let kind = d.active_kind();
    if let Some(folder) = d.library_path_of(kind) {
        walked_wf(d, kind, folder, disk, walk, i64::MAX - walk.len());
        let w = walked(d, kind, folder, disk, walk).store;
        all_noticed_wf(w, kind, folder, disk);
        let s = all_noticed(w, kind, folder, disk);
        let k = total_rallies(files);
        let a = s.recordings.len();
        let b = d.recordings.len() + walk.len();
        assert(a * k <= b * k) by (nonlinear_arith)
            requires
                a <= b,
                k >= 0,
        ;
        analyses_adopted_wf(s, files);
        stale_requeued_wf(analyses_adopted(s, files), kind);
    }
}

} // verus!
