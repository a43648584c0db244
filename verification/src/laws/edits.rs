//! Hand edits and the lifecycle of a recording: each edit stays on its recording,
//! can be undone, and counts as the user's own work.
use vstd::prelude::*;

use crate::annotations::{
    annotation_added, annotation_deleted, annotation_in, annotation_not_in, annotation_updated,
    enriched, has_annotation, new_annotation,
};
use crate::bundle::carried_rally;
use crate::capture_day::{dated, refined};
use crate::carry::{
    copied_annotations, copied_rallies, dismissal_key, dismissed, offer_between, review_carried,
    timeline_from,
};
use crate::disk::DiskEntryView;
use crate::drafts::{drafts_by_start, Draft};
use crate::grouping::{other_sessions, session_id_on, session_is_there, with_session};
use crate::laws::reviews::{
    replaced_annotations_are_read_back, replaced_rallies_are_read_back, same_review,
    timeline_of_drafts,
};
use crate::laws::texts::waveform_is_read_back;
use crate::library::key_of;
use crate::scan::{
    forgotten, newest_first, other_than, session_entry, session_list, sessions_of, SessionEntry,
};
use crate::schema::{
    library_upgraded, rally_upgraded, recording_upgraded, session_upgraded, OldLibraryView,
    OldRallyView, OldRecordingView, OldSessionView,
};
use crate::segment::Rally;
use crate::store::{
    annotations_not_of, annotations_of, next_annotation, next_rally, next_session, rallies_not_of,
    rallies_of, recording_at, recording_with, recordings_in, session_on, RecordingView, SessionView,
    StoreView,
};
use crate::table::{
    any, any_filtered, filter_apart, filter_elements, filter_keeps_all, filter_map_ordered,
    filter_pushed, filter_rewritten, filter_within, first, first_found, first_is, first_rewritten,
    is_order, rewrite, rewrite_nothing, sort_by, sort_by_sorted,
};
use crate::text::{text_before, text_before_irreflexive, text_before_total, text_before_transitive};
use crate::timeline::{
    hand_touched, has_rally, id_of, lower, moved, new_rally, ordered_rallies, rally_added,
    rally_deleted, rally_flagged, rally_in, rally_not_in, rally_updated, reflagged, row_at,
    timeline_of, timeline_rally, touched_rally, upper, TimelineRallyView,
};
use crate::waveform::all_floats;
use crate::work::{draft_saved, drafted, rallies_saved, segmentation_reset};

verus! {

/// Whether two stores differ in rallies at most.
pub open spec fn only_rallies_differ(a: StoreView, b: StoreView) -> bool {
    StoreView { rallies: b.rallies, ..a } == b
}

/// Whether two stores differ in annotations at most.
pub open spec fn only_annotations_differ(a: StoreView, b: StoreView) -> bool {
    StoreView { annotations: b.annotations, ..a } == b
}

/// Whether the edit that led from one store to another stayed on the recording at
/// a path.
pub open spec fn stays_at(a: StoreView, b: StoreView, path: Seq<char>, other: i64) -> bool {
    id_of(a, path) != Some(other) ==> same_review(a, b, other)
}

/// Moving, adding, deleting and flagging a rally change rallies of the recording
/// at the path alone.
pub proof fn rally_edits_stay_on_their_recording(
    d: StoreView,
    path: Seq<char>,
    rally: i64,
    start: i64,
    end: i64,
    flagged: bool,
    other: i64,
)
    ensures
        stays_at(d, rally_updated(d, path, rally, start, end), path, other),
        only_rallies_differ(d, rally_updated(d, path, rally, start, end)),
        stays_at(d, rally_added(d, path, start, end), path, other),
        only_rallies_differ(d, rally_added(d, path, start, end)),
        stays_at(d, rally_deleted(d, path, rally), path, other),
        only_rallies_differ(d, rally_deleted(d, path, rally)),
        stays_at(d, rally_flagged(d, path, rally, flagged), path, other),
        only_rallies_differ(d, rally_flagged(d, path, rally, flagged)),
{
    if let Some(id) = id_of(d, path) {
        if id != other {
            let q = rallies_of(other);
            let f = moved(lower(start, end), upper(start, end));
            filter_rewritten(d.rallies, rally_in(id, rally), f, q);
            filter_pushed(
                d.rallies,
                new_rally(next_rally(d.rallies) as i64, id, start, end),
                q,
            );
            filter_within(d.rallies, rally_not_in(id, rally), q);
            filter_rewritten(d.rallies, rally_in(id, rally), reflagged(flagged), q);
        }
    }
}

/// Dropping, enriching and deleting an annotation change annotations of the
/// recording at the path alone.
pub proof fn annotation_edits_stay_on_their_recording(
    d: StoreView,
    path: Seq<char>,
    id: i64,
    time: i64,
    verdict: Seq<char>,
    aspect: Option<Seq<char>>,
    note: Option<Seq<char>>,
    other: i64,
)
    ensures
        stays_at(d, annotation_added(d, path, time, verdict), path, other),
        only_annotations_differ(d, annotation_added(d, path, time, verdict)),
        stays_at(d, annotation_updated(d, path, id, verdict, aspect, note), path, other),
        only_annotations_differ(d, annotation_updated(d, path, id, verdict, aspect, note)),
        stays_at(d, annotation_deleted(d, path, id), path, other),
        only_annotations_differ(d, annotation_deleted(d, path, id)),
{
    if let Some(rid) = id_of(d, path) {
        if rid != other {
            let q = annotations_of(other);
            filter_pushed(
                d.annotations,
                new_annotation(next_annotation(d.annotations) as i64, rid, time, verdict),
                q,
            );
            filter_rewritten(
                d.annotations,
                annotation_in(rid, id),
                enriched(verdict, aspect, note),
                q,
            );
            filter_within(d.annotations, annotation_not_in(rid, id), q);
        }
    }
}

/// An edit of a rally that the recording at the path does not have changes
/// nothing.
pub proof fn refused_rally_edits_change_nothing(
    d: StoreView,
    path: Seq<char>,
    rally: i64,
    start: i64,
    end: i64,
    flagged: bool,
)
    requires
        !has_rally(d, path, rally),
    ensures
        rally_updated(d, path, rally, start, end) == d,
        rally_deleted(d, path, rally) == d,
        rally_flagged(d, path, rally, flagged) == d,
{
    if let Some(id) = id_of(d, path) {
        let p = rally_in(id, rally);
        rewrite_nothing(d.rallies, p, moved(lower(start, end), upper(start, end)));
        rewrite_nothing(d.rallies, p, reflagged(flagged));
        assert forall|i: int| 0 <= i < d.rallies.len() implies rally_not_in(id, rally)(
            #[trigger] d.rallies[i],
        ) by {
            if p(d.rallies[i]) {
                assert(any(d.rallies, p));
            }
        }
        filter_keeps_all(d.rallies, rally_not_in(id, rally));
    }
}

/// An edit of an annotation that the recording at the path does not have changes
/// nothing.
pub proof fn refused_annotation_edits_change_nothing(
    d: StoreView,
    path: Seq<char>,
    id: i64,
    verdict: Seq<char>,
    aspect: Option<Seq<char>>,
    note: Option<Seq<char>>,
)
    requires
        !has_annotation(d, path, id),
    ensures
        annotation_updated(d, path, id, verdict, aspect, note) == d,
        annotation_deleted(d, path, id) == d,
{
    if let Some(rid) = id_of(d, path) {
        let p = annotation_in(rid, id);
        rewrite_nothing(d.annotations, p, enriched(verdict, aspect, note));
        assert forall|i: int| 0 <= i < d.annotations.len() implies annotation_not_in(rid, id)(
            #[trigger] d.annotations[i],
        ) by {
            if p(d.annotations[i]) {
                assert(any(d.annotations, p));
            }
        }
        filter_keeps_all(d.annotations, annotation_not_in(rid, id));
    }
}

/// Deleting the rally that was just added restores the store.
pub proof fn deleting_undoes_adding(d: StoreView, path: Seq<char>, start: i64, end: i64)
    requires
        d.wf(),
        next_rally(d.rallies) <= i64::MAX,
    ensures
        rally_deleted(
            rally_added(d, path, start, end),
            path,
            next_rally(d.rallies) as i64,
        ) == d,
{
    if let Some(id) = id_of(d, path) {
        let new = next_rally(d.rallies) as i64;
        let n = rally_added(d, path, start, end);
        let p = rally_not_in(id, new);
        assert(id_of(n, path) == Some(id));
        filter_pushed(d.rallies, new_rally(new, id, start, end), p);
        assert forall|i: int| 0 <= i < d.rallies.len() implies p(#[trigger] d.rallies[i]) by {
            if i < d.rallies.len() - 1 {
                assert(d.rallies[i].id < d.rallies[d.rallies.len() - 1].id);
            }
        }
        filter_keeps_all(d.rallies, p);
    }
}

/// Deleting the annotation that was just dropped restores the store.
pub proof fn deleting_undoes_dropping(d: StoreView, path: Seq<char>, time: i64, verdict: Seq<char>)
    requires
        d.wf(),
        next_annotation(d.annotations) <= i64::MAX,
    ensures
        annotation_deleted(
            annotation_added(d, path, time, verdict),
            path,
            next_annotation(d.annotations) as i64,
        ) == d,
{
    if let Some(id) = id_of(d, path) {
        let new = next_annotation(d.annotations) as i64;
        let n = annotation_added(d, path, time, verdict);
        let p = annotation_not_in(id, new);
        assert(id_of(n, path) == Some(id));
        filter_pushed(d.annotations, new_annotation(new, id, time, verdict), p);
        assert forall|i: int| 0 <= i < d.annotations.len() implies p(
            #[trigger] d.annotations[i],
        ) by {
            if i < d.annotations.len() - 1 {
                assert(d.annotations[i].id < d.annotations[d.annotations.len() - 1].id);
            }
        }
        filter_keeps_all(d.annotations, p);
    }
}

/// Correcting, adding or flagging a rally, or dropping an annotation, makes a
/// recording hand-touched.
pub proof fn edits_count_as_touch(
    d: StoreView,
    path: Seq<char>,
    rally: i64,
    start: i64,
    end: i64,
    time: i64,
    verdict: Seq<char>,
    id: i64,
)
    requires
        id_of(d, path) == Some(id),
    ensures
        has_rally(d, path, rally) ==> hand_touched(
            rally_updated(d, path, rally, start, end),
            id,
        ),
        has_rally(d, path, rally) ==> hand_touched(rally_flagged(d, path, rally, true), id),
        hand_touched(rally_added(d, path, start, end), id),
        hand_touched(annotation_added(d, path, time, verdict), id),
{
    if has_rally(d, path, rally) {
        let p = rally_in(id, rally);
        let i = choose|i: int| 0 <= i < d.rallies.len() && p(#[trigger] d.rallies[i]);
        let u = rally_updated(d, path, rally, start, end);
        assert(touched_rally(id)(u.rallies[i]));
        let v = rally_flagged(d, path, rally, true);
        assert(touched_rally(id)(v.rallies[i]));
    }
    let a = rally_added(d, path, start, end);
    assert(touched_rally(id)(a.rallies[d.rallies.len() as int]));
    let b = annotation_added(d, path, time, verdict);
    assert(annotations_of(id)(b.annotations[d.annotations.len() as int]));
}

/// A draft that is persisted is read back in order, none of it flagged; other
/// recordings keep their reviews.
pub proof fn saved_draft_is_read_back(
    d: StoreView,
    id: i64,
    duration_ms: i64,
    rallies: Seq<Rally>,
    waveform: Seq<Seq<char>>,
    other: i64,
)
    ensures
        ordered_rallies(rallies_saved(d, id, duration_ms, rallies, waveform), id).map_values(
            carried_rally(),
        ) == sort_by(rallies.map_values(drafted()), drafts_by_start()),
        other != id ==> same_review(
            d,
            rallies_saved(d, id, duration_ms, rallies, waveform),
            other,
        ),
{
    let drafts = rallies.map_values(drafted());
    replaced_rallies_are_read_back(d.rallies, id, drafts, other);
    timeline_of_drafts(rallies_saved(d, id, duration_ms, rallies, waveform), id);
}

/// A draft that is reset is gone, and queued again; other recordings keep their
/// reviews.
pub proof fn reset_draft_is_gone(d: StoreView, path: Seq<char>, row: RecordingView, other: i64)
    requires
        row_at(d, path) == Some(row),
    ensures
        segmentation_reset(d, path).rallies.filter(rallies_of(row.id)).len() == 0,
        segmentation_reset(d, path).annotations == d.annotations,
        forall|k: int|
            0 <= k < d.recordings.len() && d.recordings[k].id == row.id ==> (
            #[trigger] segmentation_reset(d, path).recordings[k]).segment_state == "unknown"@,
        other != row.id ==> same_review(d, segmentation_reset(d, path), other),
{
    filter_apart(d.rallies, rallies_not_of(row.id), rallies_of(row.id));
    if other != row.id {
        filter_within(d.rallies, rallies_not_of(row.id), rallies_of(other));
    }
}

/// A recording that is forgotten leaves no trace: no row, no rally, no annotation,
/// and no session that it emptied. Other recordings and their reviews stay.
pub proof fn forgotten_leaves_no_trace(d: StoreView, row: RecordingView, other: i64)
    ensures
        ({
            let n = forgotten(d, row);
            &&& !any(n.recordings, recording_with(row.id))
            &&& n.rallies.filter(rallies_of(row.id)).len() == 0
            &&& n.annotations.filter(annotations_of(row.id)).len() == 0
            &&& any(n.sessions, crate::annotations::session_with(row.session_id)) ==> any(
                n.recordings,
                recordings_in(row.session_id),
            )
            &&& other != row.id ==> same_review(d, n, other)
            &&& other != row.id && any(d.recordings, recording_with(other)) ==> any(
                n.recordings,
                recording_with(other),
            )
        }),
{
    let n = forgotten(d, row);
    let id = row.id;
    any_filtered(d.recordings, other_than(id), recording_with(id));
    filter_apart(d.rallies, rallies_not_of(id), rallies_of(id));
    filter_apart(d.annotations, annotations_not_of(id), annotations_of(id));
    any_filtered(
        d.sessions,
        other_sessions(row.session_id),
        crate::annotations::session_with(row.session_id),
    );
    if other != id {
        filter_within(d.rallies, rallies_not_of(id), rallies_of(other));
        filter_within(d.annotations, annotations_not_of(id), annotations_of(other));
        any_filtered(d.recordings, other_than(id), recording_with(other));
        if any(d.recordings, recording_with(other)) {
            let k = choose|k: int|
                0 <= k < d.recordings.len() && recording_with(other)(#[trigger] d.recordings[k]);
            assert(other_than(id)(d.recordings[k]) && recording_with(other)(d.recordings[k]));
        }
    }
}

/// A carried review is the source's: the copy has the same rallies with their
/// flags and the same annotations, the source keeps its own, and no offer between
/// the two is left.
pub proof fn carried_review_is_the_sources(
    d: StoreView,
    from: RecordingView,
    to: i64,
    disk: Seq<DiskEntryView>,
    local: Seq<char>,
    shared: Seq<char>,
    l: RecordingView,
    s: RecordingView,
)
    requires
        from.id != to,
        hand_touched(d, from.id),
        (l.id == from.id && s.id == to) || (l.id == to && s.id == from.id),
    ensures
        ({
            let n = review_carried(d, from, to);
            &&& copied_rallies(n, to) == copied_rallies(d, from.id)
            &&& copied_annotations(n, to) == copied_annotations(d, from.id)
            &&& same_review(d, n, from.id)
            &&& hand_touched(n, to)
            &&& offer_between(n, disk, local, shared, l, s) is None
        }),
{
    let n = review_carried(d, from, to);
    let rallies = copied_rallies(d, from.id);
    let annotations = copied_annotations(d, from.id);
    replaced_rallies_are_read_back(d.rallies, to, rallies, from.id);
    replaced_annotations_are_read_back(d.annotations, to, annotations, from.id);
    crate::laws::reviews::touch_shows_in_review(d, n, from.id);
    copied_touch(d, from.id, n, to);
}

/// A copy of a touched review is touched.
proof fn copied_touch(d: StoreView, from: i64, n: StoreView, to: i64)
    requires
        hand_touched(d, from),
        copied_rallies(n, to) == copied_rallies(d, from),
        copied_annotations(n, to) == copied_annotations(d, from),
    ensures
        hand_touched(n, to),
{
    let a = d.rallies.filter(rallies_of(from));
    let b = n.rallies.filter(rallies_of(to));
    let x = d.annotations.filter(annotations_of(from));
    let y = n.annotations.filter(annotations_of(to));
    filter_elements(d.rallies, rallies_of(from));
    filter_elements(n.rallies, rallies_of(to));
    filter_elements(d.annotations, annotations_of(from));
    filter_elements(n.annotations, annotations_of(to));
    if any(d.rallies, touched_rally(from)) {
        let i = choose|i: int|
            0 <= i < d.rallies.len() && touched_rally(from)(#[trigger] d.rallies[i]);
        assert(rallies_of(from)(d.rallies[i]));
        assert(a.contains(d.rallies[i]));
        let k = choose|k: int| 0 <= k < a.len() && a[k] == d.rallies[i];
        assert(a.map_values(carried_rally()).len() == b.map_values(carried_rally()).len());
        assert(a.map_values(carried_rally())[k] == b.map_values(carried_rally())[k]);
        assert(rallies_of(to)(b[k]) && n.rallies.contains(b[k]));
        let j = choose|j: int| 0 <= j < n.rallies.len() && n.rallies[j] == b[k];
        assert(touched_rally(to)(n.rallies[j]));
    } else {
        let i = choose|i: int|
            0 <= i < d.annotations.len() && annotations_of(from)(#[trigger] d.annotations[i]);
        assert(x.contains(d.annotations[i]));
        let k = choose|k: int| 0 <= k < x.len() && x[k] == d.annotations[i];
        assert(x.map_values(crate::bundle::carried_annotation()).len() == y.map_values(
            crate::bundle::carried_annotation(),
        ).len());
        assert(annotations_of(to)(y[k]) && n.annotations.contains(y[k]));
        let j = choose|j: int| 0 <= j < n.annotations.len() && n.annotations[j] == y[k];
        assert(annotations_of(to)(n.annotations[j]));
    }
}

/// A dismissed offer is not made again: nothing is offered into a library whose
/// dismissal of that content is kept.
pub proof fn dismissed_offers_stay_quiet(
    d: StoreView,
    disk: Seq<DiskEntryView>,
    local: Seq<char>,
    shared: Seq<char>,
    l: RecordingView,
    s: RecordingView,
    to_kind: Seq<char>,
)
    requires
        dismissed(d).contains(dismissal_key(to_kind, l.quick_hash)),
    ensures
        offer_between(d, disk, local, shared, l, s) matches Some(o) ==> o.to_kind != to_kind,
{
}

/// Deriving a recording's day a second time changes nothing.
pub proof fn refining_again_changes_nothing(d: StoreView, id: i64, day: Seq<char>)
    requires
        d.wf(),
        next_session(d.sessions) <= i64::MAX,
    ensures
        refined(refined(d, id, day), id, day) == refined(d, id, day),
{
    if let Some(row) = first(d.recordings, recording_with(id)) {
        let kind = row.library;
        let t = with_session(d.sessions, kind, day);
        let session = session_id_on(d.sessions, kind, day);
        let f = dated(day, session);
        let n = refined(d, id, day);
        crate::upkeep::with_session_wf(d, kind, day);
        session_is_there(d.sessions, kind, day);
        first_found(t, session_on(kind, day));
        first_found(d.recordings, recording_with(id));
        let at = choose|k: int| 0 <= k < d.recordings.len() && d.recordings[k] == row;
        assert forall|k: int| 0 <= k < at implies (#[trigger] d.recordings[k]).id != id by {
            assert(d.recordings[k].id < d.recordings[at].id);
        }
        assert forall|k: int| 0 <= k < at implies !recording_with(id)(
            #[trigger] n.recordings[k],
        ) by {
            assert(d.recordings[k].id != id);
        }
        assert(n.recordings[at] == f(row));
        first_is(n.recordings, recording_with(id), at);
        let x = first(t, session_on(kind, day))->0;
        assert(x.id == session);
        let j = choose|j: int| 0 <= j < t.len() && t[j] == x;
        if row.session_id != session && !any(n.recordings, recordings_in(row.session_id)) {
            let p = other_sessions(row.session_id);
            any_filtered(t, p, session_on(kind, day));
            assert(p(t[j]) && session_on(kind, day)(t[j]));
            assert(any(n.sessions, session_on(kind, day)));
            first_found(n.sessions, session_on(kind, day));
            filter_elements(t, p);
            let y = first(n.sessions, session_on(kind, day))->0;
            assert(t.contains(y));
            let i = choose|i: int| 0 <= i < t.len() && t[i] == y;
            assert(y.id == session) by {
                let m = StoreView { sessions: t, ..d };
                assert(m.sessions_wf());
                if i < j {
                    assert(!(m.sessions[i].library == m.sessions[j].library
                        && m.sessions[i].capture_day == m.sessions[j].capture_day));
                } else if j < i {
                    assert(!(m.sessions[j].library == m.sessions[i].library
                        && m.sessions[j].capture_day == m.sessions[i].capture_day));
                }
            }
        } else {
            assert(n.sessions == t);
            assert(session_on(kind, day)(t[j]));
        }
        assert(with_session(n.sessions, kind, day) == n.sessions);
        assert(session_id_on(n.sessions, kind, day) == session);
        assert(rewrite(n.recordings, recording_with(id), f) =~= n.recordings);
    }
}

/// Sessions are listed with the newest day first, and only those that list a
/// recording.
pub proof fn sessions_come_newest_first(d: StoreView)
    ensures
        forall|i: int, j: int|
            0 <= i < j < session_list(d).len() ==> !text_before(
                (#[trigger] session_list(d)[i]).capture_day,
                (#[trigger] session_list(d)[j]).capture_day,
            ),
        forall|i: int|
            0 <= i < session_list(d).len() ==> (#[trigger] session_list(d)[i]).recordings.len() > 0,
{
    if let Some(library) = d.library_path_of(d.active_kind()) {
        let own = d.sessions.filter(sessions_of(d.active_kind()));
        let b = newest_first();
        assert(is_order(b)) by {
            assert forall|x: SessionView, y: SessionView| #[trigger] b(x, y) implies !b(y, x) by {
                if b(y, x) {
                    text_before_transitive(x.capture_day, y.capture_day, x.capture_day);
                    text_before_irreflexive(x.capture_day);
                }
            }
            assert forall|x: SessionView, y: SessionView, z: SessionView|
                !#[trigger] b(x, y) && !#[trigger] b(y, z) implies !b(x, z) by {
                if b(x, z) {
                    text_before_total(x.capture_day, y.capture_day);
                    text_before_total(y.capture_day, z.capture_day);
                    if x.capture_day != y.capture_day {
                        if y.capture_day != z.capture_day {
                            text_before_transitive(
                                x.capture_day,
                                y.capture_day,
                                z.capture_day,
                            );
                            text_before_transitive(
                                x.capture_day,
                                z.capture_day,
                                x.capture_day,
                            );
                            text_before_irreflexive(x.capture_day);
                        }
                    }
                }
            }
        }
        sort_by_sorted(own, b);
        let s = sort_by(own, b);
        let r = |x: SessionView, y: SessionView| !b(y, x);
        let q = |x: SessionEntry, y: SessionEntry| !text_before(x.capture_day, y.capture_day);
        let f = session_entry(d, library);
        assert forall|i: int, j: int| 0 <= i < j < s.len() implies r(
            #[trigger] s[i],
            #[trigger] s[j],
        ) by {}
        filter_map_ordered(s, f, r, q);
        let list = session_list(d);
        assert forall|i: int, j: int| 0 <= i < j < list.len() implies !text_before(
            (#[trigger] list[i]).capture_day,
            (#[trigger] list[j]).capture_day,
        ) by {
            assert(q(list[i], list[j]));
        }
    }
}

/// Bringing a row up to date keeps every value that it has.
pub proof fn upgrading_keeps_values(
    s: OldSessionView,
    r: OldRecordingView,
    x: OldRallyView,
    l: OldLibraryView,
)
    ensures
        s.library matches Some(v) ==> session_upgraded()(s).library == v,
        session_upgraded()(s).id == s.id && session_upgraded()(s).capture_day == s.capture_day,
        r.library matches Some(v) ==> recording_upgraded()(r).library == v,
        r.probe_state matches Some(v) ==> recording_upgraded()(r).probe_state == v,
        r.probe_state is None ==> (r.transcode_state matches Some(v)
            ==> recording_upgraded()(r).probe_state == v),
        r.segment_state matches Some(v) ==> recording_upgraded()(r).segment_state == v,
        r.date_state matches Some(v) ==> recording_upgraded()(r).date_state == v,
        r.segmenter_version matches Some(v) ==> recording_upgraded()(r).segmenter_version == v,
        recording_upgraded()(r).duration_ms == r.duration_ms,
        recording_upgraded()(r).waveform == r.waveform,
        recording_upgraded()(r).path == r.path,
        x.flagged matches Some(v) ==> rally_upgraded()(x).flagged == v,
        rally_upgraded()(x).recording_id == x.recording_id,
        l.mount matches Some(v) ==> library_upgraded()(l).mount == v,
        library_upgraded()(l).path == l.path,
{
}

/// A rewrite has the last word over an earlier one of the same elements.
proof fn last_rewrite_stays<A>(
    s: Seq<A>,
    p: spec_fn(A) -> bool,
    f: spec_fn(A) -> A,
    g: spec_fn(A) -> A,
)
    requires
        forall|x: A| #[trigger] p(x) ==> p(f(x)) && g(f(x)) == g(x),
    ensures
        rewrite(rewrite(s, p, f), p, g) == rewrite(s, p, g),
{
    let a = rewrite(rewrite(s, p, f), p, g);
    let b = rewrite(s, p, g);
    assert forall|i: int| 0 <= i < s.len() implies #[trigger] a[i] == b[i] by {
        assert(p(s[i]) ==> p(f(s[i])) && g(f(s[i])) == g(s[i]));
    }
    assert(a =~= b);
}

/// The last edit stays: moving, flagging or enriching twice is the second edit
/// alone, and the same edit made again changes nothing.
pub proof fn last_edit_stays(
    d: StoreView,
    path: Seq<char>,
    id: i64,
    first_span: (i64, i64),
    span: (i64, i64),
    first_flag: bool,
    flag: bool,
    first_remark: (Seq<char>, Option<Seq<char>>, Option<Seq<char>>),
    remark: (Seq<char>, Option<Seq<char>>, Option<Seq<char>>),
)
    ensures
        rally_updated(
            rally_updated(d, path, id, first_span.0, first_span.1),
            path,
            id,
            span.0,
            span.1,
        ) == rally_updated(d, path, id, span.0, span.1),
        rally_flagged(rally_flagged(d, path, id, first_flag), path, id, flag) == rally_flagged(
            d,
            path,
            id,
            flag,
        ),
        annotation_updated(
            annotation_updated(d, path, id, first_remark.0, first_remark.1, first_remark.2),
            path,
            id,
            remark.0,
            remark.1,
            remark.2,
        ) == annotation_updated(d, path, id, remark.0, remark.1, remark.2),
{
    if let Some(rid) = id_of(d, path) {
        last_rewrite_stays(
            d.rallies,
            rally_in(rid, id),
            moved(lower(first_span.0, first_span.1), upper(first_span.0, first_span.1)),
            moved(lower(span.0, span.1), upper(span.0, span.1)),
        );
        last_rewrite_stays(d.rallies, rally_in(rid, id), reflagged(first_flag), reflagged(flag));
        last_rewrite_stays(
            d.annotations,
            annotation_in(rid, id),
            enriched(first_remark.0, first_remark.1, first_remark.2),
            enriched(remark.0, remark.1, remark.2),
        );
        let a = rally_updated(d, path, id, first_span.0, first_span.1);
        assert(id_of(a, path) == Some(rid));
        let b = rally_flagged(d, path, id, first_flag);
        assert(id_of(b, path) == Some(rid));
        let c = annotation_updated(d, path, id, first_remark.0, first_remark.1, first_remark.2);
        assert(id_of(c, path) == Some(rid));
    }
}

/// Carrying a review again leaves the copy with the same review.
pub proof fn carrying_again_changes_nothing(d: StoreView, from: RecordingView, to: i64)
    ensures
        ({
            let once = review_carried(d, from, to);
            let twice = review_carried(once, from, to);
            &&& copied_rallies(twice, to) == copied_rallies(once, to)
            &&& copied_annotations(twice, to) == copied_annotations(once, to)
            &&& twice.recordings == once.recordings
            &&& twice.sessions == once.sessions
        }),
{
    let once = review_carried(d, from, to);
    replaced_rallies_are_read_back(d.rallies, to, copied_rallies(d, from.id), from.id);
    replaced_annotations_are_read_back(
        d.annotations,
        to,
        copied_annotations(d, from.id),
        from.id,
    );
    replaced_rallies_are_read_back(once.rallies, to, copied_rallies(once, from.id), from.id);
    replaced_annotations_are_read_back(
        once.annotations,
        to,
        copied_annotations(once, from.id),
        from.id,
    );
    last_rewrite_stays(
        d.recordings,
        recording_with(to),
        timeline_from(from),
        timeline_from(from),
    );
}

/// A rally of a timeline without its id.
pub open spec fn untold() -> spec_fn(TimelineRallyView) -> Draft {
    |r: TimelineRallyView|
        Draft {
            start_ms: r.start_ms,
            end_ms: r.end_ms,
            confidence: r.confidence,
            flagged: r.flagged,
        }
}

/// What is saved of a recording is what its timeline then tells: ready, with the
/// duration, the rallies in the order of their starts, none of them flagged and no
/// earlier one left, and the waveform.
pub proof fn saved_timeline_is_told(
    d: StoreView,
    path: Seq<char>,
    row: RecordingView,
    duration_ms: i64,
    rallies: Seq<Rally>,
    waveform: Seq<Seq<char>>,
)
    requires
        row_at(d, path) == Some(row),
        all_floats(waveform),
    ensures
        ({
            let n = rallies_saved(d, row.id, duration_ms, rallies, waveform);
            let r = draft_saved(duration_ms, waveform)(row);
            let t = timeline_of(n, r);
            &&& row_at(n, path) == Some(r)
            &&& t.segment_state == "ready"@
            &&& t.duration_ms == Some(duration_ms)
            &&& t.rallies.map_values(untold()) == sort_by(
                rallies.map_values(drafted()),
                drafts_by_start(),
            )
            &&& t.waveform == waveform
        }),
{
    let n = rallies_saved(d, row.id, duration_ms, rallies, waveform);
    let (kind, key) = key_of(d, path)->0;
    let q = recording_at(kind, key);
    let f = draft_saved(duration_ms, waveform);
    first_rewritten(d.recordings, recording_with(row.id), f, q);
    assert(key_of(n, path) == key_of(d, path));
    saved_draft_is_read_back(d, row.id, duration_ms, rallies, waveform, row.id);
    waveform_is_read_back(waveform);
    let o = ordered_rallies(n, row.id);
    assert(o.map_values(timeline_rally()).map_values(untold()) =~= o.map_values(carried_rally()));
}

} // verus!
