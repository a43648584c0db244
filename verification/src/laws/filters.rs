//! The filter over moments: it finds exactly what passes every part of it, in the
//! order the user reviews by.
use vstd::prelude::*;

use crate::annotations::{
    by_time, filtered, found, lifted, map_annotation_view, matching_moment, passes,
    recording_within, review_order, session_with, Filter, FilteredView, LiftedView,
};
use crate::laws::timelines::tells_note;
use crate::path::joined;
use crate::store::{
    home_of, recording_with, AnnotationView, RallyView, RecordingView, SessionView, StoreView,
};
use crate::table::{
    any, filter_elements, filter_map_elements, first, first_found, is_order, sort_by,
    sort_by_elements, sort_by_sorted,
};
use crate::text::{before_one_way, not_before_is_carried, text_before, text_before_irreflexive};

verus! {

/// A filter with no part set.
pub open spec fn no_filter() -> Filter {
    Filter { verdict: None, aspect: None, length: None, flagged: None }
}

/// Every rally passes a filter with no part set.
pub proof fn unset_filters_keep_every_rally(d: StoreView, r: RallyView)
    ensures
        passes(d, no_filter(), r),
{
}

/// The parts of a filter combine: a rally passes exactly when it passes its length,
/// its flag and its moment each alone.
pub proof fn filters_combine(d: StoreView, f: Filter, r: RallyView)
    ensures
        passes(d, f, r) <==> {
            &&& passes(d, (Filter { length: f.length, ..no_filter() }), r)
            &&& passes(d, (Filter { flagged: f.flagged, ..no_filter() }), r)
            &&& passes(d, (Filter { verdict: f.verdict, aspect: f.aspect, ..no_filter() }), r)
        },
{
    let m = Filter { verdict: f.verdict, aspect: f.aspect, ..no_filter() };
    assert(crate::annotations::matching_moment(f, r)
        =~= crate::annotations::matching_moment(m, r));
}

/// The order of a review is an order.
proof fn review_order_is_order()
    ensures
        is_order(review_order()),
{
    let b = review_order();
    assert forall|x: LiftedView, y: LiftedView| #[trigger] b(x, y) implies !b(y, x) by {
        if x.session.capture_day != y.session.capture_day {
            before_one_way(y.session.capture_day, x.session.capture_day);
        } else if x.recording.path != y.recording.path {
            before_one_way(x.recording.path, y.recording.path);
        }
    }
    assert forall|x: LiftedView, y: LiftedView, z: LiftedView|
        !#[trigger] b(x, y) && !#[trigger] b(y, z) implies !b(x, z) by {
        let (dx, dy, dz) = (x.session.capture_day, y.session.capture_day, z.session.capture_day);
        text_before_irreflexive(dx);
        text_before_irreflexive(dy);
        assert(!text_before(dy, dx) && !text_before(dz, dy));
        not_before_is_carried(dz, dy, dx);
        if dx == dz {
            let (px, py, pz) = (x.recording.path, y.recording.path, z.recording.path);
            text_before_irreflexive(px);
            text_before_irreflexive(py);
            assert(!text_before(px, py) && !text_before(py, pz));
            not_before_is_carried(px, py, pz);
        }
    }
}

/// A rally of a library that passes is lifted with its recording and session.
proof fn passing_rally_is_lifted(d: StoreView, kind: Seq<char>, f: Filter, k: int)
    requires
        d.wf(),
        0 <= k < d.rallies.len(),
    ensures
        ({
            let r = d.rallies[k];
            let l = lifted(d, kind, f)(r);
            &&& l is Some <==> passes(d, f, r) && any(
                d.recordings,
                recording_within(kind, r.recording_id),
            )
            &&& l matches Some(x) ==> x.rally == r && first(
                d.recordings,
                recording_with(r.recording_id),
            ) == Some(x.recording)
        }),
{
    let r = d.rallies[k];
    let p = recording_with(r.recording_id);
    assert(any(d.recordings, p));
    first_found(d.recordings, p);
    let rec = first(d.recordings, p)->0;
    let i = choose|i: int| 0 <= i < d.recordings.len() && d.recordings[i] == rec;
    assert(any(d.sessions, home_of(d.recordings[i])));
    let s = choose|s: int|
        0 <= s < d.sessions.len() && home_of(rec)(#[trigger] d.sessions[s]);
    let q = session_with(rec.session_id);
    assert(q(d.sessions[s]));
    first_found(d.sessions, q);
    let w = recording_within(kind, r.recording_id);
    if any(d.recordings, w) {
        let j = choose|j: int| 0 <= j < d.recordings.len() && w(#[trigger] d.recordings[j]);
        if i < j {
            assert(d.recordings[i].id < d.recordings[j].id);
        } else if j < i {
            assert(d.recordings[j].id < d.recordings[i].id);
        }
    }
    if rec.library == kind {
        assert(w(d.recordings[i]));
    }
}

/// A filter finds what passes it: every result is a rally of the active library
/// that passes, and every such rally is among the results.
pub proof fn filters_find_what_passes(d: StoreView, f: Filter)
    requires
        d.wf(),
        d.library_path_of(d.active_kind()) is Some,
    ensures
        forall|i: int|
            0 <= i < found(d, f).len() ==> exists|k: int|
                0 <= k < d.rallies.len() && (#[trigger] d.rallies[k]).id == (#[trigger] found(
                    d,
                    f,
                )[i]).rally_id && passes(d, f, d.rallies[k]) && any(
                    d.recordings,
                    recording_within(d.active_kind(), d.rallies[k].recording_id),
                ),
        forall|k: int|
            0 <= k < d.rallies.len() && passes(d, f, #[trigger] d.rallies[k]) && any(
                d.recordings,
                recording_within(d.active_kind(), d.rallies[k].recording_id),
            ) ==> exists|i: int|
                0 <= i < found(d, f).len() && (#[trigger] found(d, f)[i]).rally_id
                    == d.rallies[k].id,
{
    let kind = d.active_kind();
    let library = d.library_path_of(kind)->0;
    let g = lifted(d, kind, f);
    let l = d.rallies.filter_map(g);
    let s = sort_by(l, review_order());
    filter_map_elements(d.rallies, g);
    sort_by_elements(l, review_order());
    let out = found(d, f);
    assert(out == s.map_values(filtered(d, library, f)));
    assert forall|i: int| 0 <= i < out.len() implies exists|k: int|
        0 <= k < d.rallies.len() && (#[trigger] d.rallies[k]).id == (
        #[trigger] out[i]).rally_id && passes(d, f, d.rallies[k]) && any(
            d.recordings,
            recording_within(kind, d.rallies[k].recording_id),
        ) by {
        assert(s.contains(s[i]));
        assert(l.contains(s[i]));
        let j = choose|j: int| 0 <= j < l.len() && l[j] == s[i];
        let k = choose|k: int|
            0 <= k < d.rallies.len() && g(#[trigger] d.rallies[k]) == Some(l[j]);
        passing_rally_is_lifted(d, kind, f, k);
        assert(d.rallies[k].id == out[i].rally_id);
    }
    assert forall|k: int|
        0 <= k < d.rallies.len() && passes(d, f, #[trigger] d.rallies[k]) && any(
            d.recordings,
            recording_within(kind, d.rallies[k].recording_id),
        ) implies exists|i: int|
        0 <= i < out.len() && (#[trigger] out[i]).rally_id == d.rallies[k].id by {
        passing_rally_is_lifted(d, kind, f, k);
        let x = g(d.rallies[k])->0;
        assert(l.contains(x));
        assert(s.contains(x));
        let i = choose|i: int| 0 <= i < s.len() && s[i] == x;
        assert(out[i].rally_id == d.rallies[k].id);
    }
}

/// Results come in the order the user reviews by: the newest day first, and those
/// of one recording as they start.
pub proof fn filters_tell_in_review_order(d: StoreView, f: Filter)
    requires
        d.wf(),
    ensures
        forall|i: int, j: int|
            0 <= i < j < found(d, f).len() ==> {
                &&& !text_before(
                    (#[trigger] found(d, f)[i]).capture_day,
                    (#[trigger] found(d, f)[j]).capture_day,
                )
                &&& found(d, f)[i].recording_id == found(d, f)[j].recording_id
                    ==> found(d, f)[i].start_ms <= found(d, f)[j].start_ms
            },
{
    let kind = d.active_kind();
    if let Some(library) = d.library_path_of(kind) {
        let g = lifted(d, kind, f);
        let l = d.rallies.filter_map(g);
        let b = review_order();
        let s = sort_by(l, b);
        filter_map_elements(d.rallies, g);
        sort_by_elements(l, b);
        review_order_is_order();
        sort_by_sorted(l, b);
        let out = found(d, f);
        assert(out == s.map_values(filtered(d, library, f)));
        assert forall|i: int, j: int| 0 <= i < j < out.len() implies {
            &&& !text_before((#[trigger] out[i]).capture_day, (#[trigger] out[j]).capture_day)
            &&& out[i].recording_id == out[j].recording_id ==> out[i].start_ms <= out[j].start_ms
        } by {
            assert(!b(s[j], s[i]));
            text_before_irreflexive(s[i].session.capture_day);
            assert(s.contains(s[i]) && s.contains(s[j]));
            assert(l.contains(s[i]) && l.contains(s[j]));
            let a = choose|a: int| 0 <= a < l.len() && l[a] == s[i];
            let c = choose|c: int| 0 <= c < l.len() && l[c] == s[j];
            let p = choose|k: int|
                0 <= k < d.rallies.len() && g(#[trigger] d.rallies[k]) == Some(l[a]);
            let q = choose|k: int|
                0 <= k < d.rallies.len() && g(#[trigger] d.rallies[k]) == Some(l[c]);
            passing_rally_is_lifted(d, kind, f, p);
            passing_rally_is_lifted(d, kind, f, q);
            first_found(d.recordings, recording_with(d.rallies[p].recording_id));
            first_found(d.recordings, recording_with(d.rallies[q].recording_id));
        }
    }
}

/// Whether an annotation is what a filter asks for: of its verdict where it asks for
/// one, and of its aspect where it asks for one.
pub open spec fn asked_for(
    verdict: Option<Seq<char>>,
    aspect: Option<Seq<char>>,
    a: AnnotationView,
) -> bool {
    &&& verdict matches Some(v) ==> a.verdict == v
    &&& aspect matches Some(x) ==> a.aspect == Some(x)
}

/// Whether an annotation is pinned to a moment of a rally.
pub open spec fn pinned_within(a: AnnotationView, recording: i64, start: i64, end: i64) -> bool {
    a.recording_id == recording && start <= a.time_ms && a.time_ms < end
}

/// Whether a result tells a rally of the store with its recording and its session.
pub open spec fn result_tells(
    d: StoreView,
    x: FilteredView,
    r: RallyView,
    rec: RecordingView,
    s: SessionView,
) -> bool {
    &&& d.rallies.contains(r) && d.recordings.contains(rec) && d.sessions.contains(s)
    &&& r.recording_id == rec.id && rec.session_id == s.id
    &&& x.rally_id == r.id && x.recording_id == rec.id && x.session_id == s.id
    &&& x.start_ms == r.start_ms && x.end_ms == r.end_ms && x.flagged == r.flagged
    &&& x.capture_day == s.capture_day
    &&& rec.library == d.active_kind()
    &&& d.library_path_of(d.active_kind()) matches Some(folder) && x.recording_path == joined(
        folder,
        rec.path,
    )
}

/// Every result tells a rally of the active library as the store has it, long from
/// fifteen seconds on, and of the length and the flag that the filter asks for.
pub proof fn results_are_rallies_of_the_library(d: StoreView, f: Filter, i: int)
    requires
        d.wf(),
        0 <= i < found(d, f).len(),
    ensures
        ({
            let x = found(d, f)[i];
            &&& exists|r: RallyView, rec: RecordingView, s: SessionView|
                result_tells(d, x, r, rec, s)
            &&& x.long <==> x.end_ms - x.start_ms >= 15_000
            &&& f.length matches Some(b) ==> b == x.long
            &&& f.flagged matches Some(b) ==> b == x.flagged
        }),
{
    let kind = d.active_kind();
    let library = d.library_path_of(kind)->0;
    let (k, l) = result_comes_from(d, f, i);
    first_found(d.recordings, recording_with(d.rallies[k].recording_id));
    first_found(d.sessions, session_with(l.recording.session_id));
    assert(d.rallies.contains(d.rallies[k]));
    assert(result_tells(d, found(d, f)[i], l.rally, l.recording, l.session));
}

/// Where a result comes from.
proof fn result_comes_from(d: StoreView, f: Filter, i: int) -> (r: (int, LiftedView))
    requires
        0 <= i < found(d, f).len(),
    ensures
        d.library_path_of(d.active_kind()) is Some,
        0 <= r.0 < d.rallies.len(),
        lifted(d, d.active_kind(), f)(d.rallies[r.0]) == Some(r.1),
        found(d, f)[i] == filtered(d, d.library_path_of(d.active_kind())->0, f)(r.1),
{
    let kind = d.active_kind();
    let library = d.library_path_of(kind)->0;
    let g = lifted(d, kind, f);
    let l = d.rallies.filter_map(g);
    let s = sort_by(l, review_order());
    filter_map_elements(d.rallies, g);
    sort_by_elements(l, review_order());
    assert(s.contains(s[i]));
    assert(l.contains(s[i]));
    let j = choose|j: int| 0 <= j < l.len() && l[j] == s[i];
    let k = choose|k: int| 0 <= k < d.rallies.len() && g(#[trigger] d.rallies[k]) == Some(l[j]);
    (k, l[j])
}

/// What is attached to a result are exactly the annotations of its rally that the filter
/// asks for, in the order of their moments: at least one where it asks for a verdict or
/// an aspect, and none where it asks for neither.
pub proof fn results_carry_what_was_asked_for(d: StoreView, f: Filter, i: int)
    requires
        d.wf(),
        0 <= i < found(d, f).len(),
    ensures
        ({
            let x = found(d, f)[i];
            if f.verdict is None && f.aspect is None {
                x.annotations.len() == 0
            } else {
                &&& x.annotations.len() > 0
                &&& forall|j: int|
                    0 <= j < x.annotations.len() ==> exists|m: int|
                        0 <= m < d.annotations.len() && tells_note(
                            #[trigger] x.annotations[j],
                            #[trigger] d.annotations[m],
                        ) && pinned_within(
                            d.annotations[m],
                            x.recording_id,
                            x.start_ms,
                            x.end_ms,
                        ) && asked_for(f.verdict, f.aspect, d.annotations[m])
                &&& forall|m: int|
                    0 <= m < d.annotations.len() && pinned_within(
                        #[trigger] d.annotations[m],
                        x.recording_id,
                        x.start_ms,
                        x.end_ms,
                    ) && asked_for(f.verdict, f.aspect, d.annotations[m]) ==> exists|j: int|
                        0 <= j < x.annotations.len() && tells_note(
                            #[trigger] x.annotations[j],
                            d.annotations[m],
                        )
                &&& forall|a: int, b: int|
                    0 <= a < b < x.annotations.len() ==> (#[trigger] x.annotations[a]).time_ms <= (
                    #[trigger] x.annotations[b]).time_ms
            }
        }),
{
    let (k, l) = result_comes_from(d, f, i);
    let x = found(d, f)[i];
    if f.verdict is Some || f.aspect is Some {
        let r = l.rally;
        assert(r == d.rallies[k]);
        first_found(d.recordings, recording_with(r.recording_id));
        assert(x.recording_id == r.recording_id);
        let p = matching_moment(f, r);
        let own = d.annotations.filter(p);
        let s = sort_by(own, by_time());
        filter_elements(d.annotations, p);
        sort_by_elements(own, by_time());
        assert(is_order(by_time()));
        sort_by_sorted(own, by_time());
        assert(x.annotations == s.map_values(map_annotation_view()));
        assert forall|a: AnnotationView| #[trigger] p(a) <==> pinned_within(
            a,
            x.recording_id,
            x.start_ms,
            x.end_ms,
        ) && asked_for(f.verdict, f.aspect, a) by {}
        assert forall|j: int| 0 <= j < x.annotations.len() implies exists|m: int|
            0 <= m < d.annotations.len() && tells_note(
                #[trigger] x.annotations[j],
                #[trigger] d.annotations[m],
            ) && pinned_within(d.annotations[m], x.recording_id, x.start_ms, x.end_ms)
                && asked_for(f.verdict, f.aspect, d.annotations[m]) by {
            assert(s.contains(s[j]));
            assert(own.contains(s[j]));
            let q = choose|q: int| 0 <= q < own.len() && own[q] == s[j];
            assert(p(own[q]) && d.annotations.contains(own[q]));
            let m = choose|m: int| 0 <= m < d.annotations.len() && d.annotations[m] == own[q];
            assert(tells_note(x.annotations[j], d.annotations[m]));
        }
        assert forall|m: int|
            0 <= m < d.annotations.len() && pinned_within(
                #[trigger] d.annotations[m],
                x.recording_id,
                x.start_ms,
                x.end_ms,
            ) && asked_for(f.verdict, f.aspect, d.annotations[m]) implies exists|j: int|
            0 <= j < x.annotations.len() && tells_note(
                #[trigger] x.annotations[j],
                d.annotations[m],
            ) by {
            assert(p(d.annotations[m]));
            assert(own.contains(d.annotations[m]));
            assert(s.contains(d.annotations[m]));
            let j = choose|j: int| 0 <= j < s.len() && s[j] == d.annotations[m];
            assert(tells_note(x.annotations[j], d.annotations[m]));
        }
        assert forall|a: int, b: int| 0 <= a < b < x.annotations.len() implies (
        #[trigger] x.annotations[a]).time_ms <= (#[trigger] x.annotations[b]).time_ms by {
            assert(!by_time()(s[b], s[a]));
        }
        let m = choose|m: int| 0 <= m < d.annotations.len() && p(#[trigger] d.annotations[m]);
        assert(own.contains(d.annotations[m]));
        assert(s.contains(d.annotations[m]));
    }
}

/// Whether a rally has a moment that a filter asks for, where it asks for one.
pub open spec fn has_asked_moment(d: StoreView, f: Filter, r: RallyView) -> bool {
    f.verdict is None && f.aspect is None || exists|m: int|
        0 <= m < d.annotations.len() && pinned_within(
            #[trigger] d.annotations[m],
            r.recording_id,
            r.start_ms,
            r.end_ms,
        ) && asked_for(f.verdict, f.aspect, d.annotations[m])
}

/// Every rally of the active library of the length, the flag and the moment that a
/// filter asks for is among its results, and no other.
pub proof fn filters_find_what_was_asked_for(d: StoreView, f: Filter, k: int)
    requires
        d.wf(),
        d.library_path_of(d.active_kind()) is Some,
        0 <= k < d.rallies.len(),
    ensures
        ({
            let r = d.rallies[k];
            (exists|i: int|
                0 <= i < found(d, f).len() && (#[trigger] found(d, f)[i]).rally_id == r.id) <==> {
                &&& exists|c: int|
                    0 <= c < d.recordings.len() && (#[trigger] d.recordings[c]).id
                        == r.recording_id && d.recordings[c].library == d.active_kind()
                &&& f.length matches Some(b) ==> b == (r.end_ms - r.start_ms >= 15_000)
                &&& f.flagged matches Some(b) ==> b == r.flagged
                &&& has_asked_moment(d, f, r)
            }
        }),
{
    let r = d.rallies[k];
    let kind = d.active_kind();
    filters_find_what_passes(d, f);
    let w = recording_within(kind, r.recording_id);
    assert(any(d.recordings, w) <==> exists|c: int|
        0 <= c < d.recordings.len() && (#[trigger] d.recordings[c]).id == r.recording_id
            && d.recordings[c].library == kind) by {
        if any(d.recordings, w) {
            let c = choose|c: int| 0 <= c < d.recordings.len() && w(#[trigger] d.recordings[c]);
            assert(d.recordings[c].id == r.recording_id && d.recordings[c].library == kind);
        }
        if exists|c: int|
            0 <= c < d.recordings.len() && (#[trigger] d.recordings[c]).id == r.recording_id
                && d.recordings[c].library == kind {
            let c = choose|c: int|
                0 <= c < d.recordings.len() && (#[trigger] d.recordings[c]).id == r.recording_id
                    && d.recordings[c].library == kind;
            assert(w(d.recordings[c]));
        }
    }
    let p = matching_moment(f, r);
    assert(passes(d, f, r) <==> {
        &&& f.length matches Some(b) ==> b == (r.end_ms - r.start_ms >= 15_000)
        &&& f.flagged matches Some(b) ==> b == r.flagged
        &&& has_asked_moment(d, f, r)
    }) by {
        if any(d.annotations, p) {
            let m = choose|m: int| 0 <= m < d.annotations.len() && p(#[trigger] d.annotations[m]);
            assert(pinned_within(d.annotations[m], r.recording_id, r.start_ms, r.end_ms));
        }
        if exists|m: int|
            0 <= m < d.annotations.len() && pinned_within(
                #[trigger] d.annotations[m],
                r.recording_id,
                r.start_ms,
                r.end_ms,
            ) && asked_for(f.verdict, f.aspect, d.annotations[m]) {
            let m = choose|m: int|
                0 <= m < d.annotations.len() && pinned_within(
                    #[trigger] d.annotations[m],
                    r.recording_id,
                    r.start_ms,
                    r.end_ms,
                ) && asked_for(f.verdict, f.aspect, d.annotations[m]);
            assert(p(d.annotations[m]));
        }
    }
    if exists|i: int| 0 <= i < found(d, f).len() && (#[trigger] found(d, f)[i]).rally_id == r.id {
        let i = choose|i: int|
            0 <= i < found(d, f).len() && (#[trigger] found(d, f)[i]).rally_id == r.id;
        let j = choose|j: int|
            0 <= j < d.rallies.len() && (#[trigger] d.rallies[j]).id == found(d, f)[i].rally_id
                && passes(d, f, d.rallies[j]) && any(
                d.recordings,
                recording_within(kind, d.rallies[j].recording_id),
            );
        if j < k {
            assert(d.rallies[j].id < d.rallies[k].id);
        } else if k < j {
            assert(d.rallies[k].id < d.rallies[j].id);
        }
    }
}

/// An annotation is what a verdict and an aspect together ask for exactly where it is
/// what each of them asks for alone.
pub proof fn verdict_and_aspect_are_both_asked_for(
    verdict: Seq<char>,
    aspect: Seq<char>,
    r: RallyView,
    a: AnnotationView,
)
    ensures
        ({
            let both = Filter { verdict: Some(verdict), aspect: Some(aspect), ..no_filter() };
            let one = Filter { verdict: Some(verdict), ..no_filter() };
            let other = Filter { aspect: Some(aspect), ..no_filter() };
            matching_moment(both, r)(a) <==> matching_moment(one, r)(a) && matching_moment(
                other,
                r,
            )(a)
        }),
{
}

/// Results of one day come in the order of the keys of their recordings.
pub proof fn results_of_a_day_come_by_recording(d: StoreView, f: Filter, i: int, j: int)
    requires
        d.wf(),
        0 <= i < j < found(d, f).len(),
        found(d, f)[i].capture_day == found(d, f)[j].capture_day,
    ensures
        exists|a: RecordingView, b: RecordingView|
            {
                &&& #[trigger] d.recordings.contains(a) && a.id == found(d, f)[i].recording_id
                &&& #[trigger] d.recordings.contains(b) && b.id == found(d, f)[j].recording_id
                &&& !text_before(b.path, a.path)
            },
{
    let kind = d.active_kind();
    let library = d.library_path_of(kind)->0;
    let g = lifted(d, kind, f);
    let l = d.rallies.filter_map(g);
    let b = review_order();
    let s = sort_by(l, b);
    filter_map_elements(d.rallies, g);
    sort_by_elements(l, b);
    review_order_is_order();
    sort_by_sorted(l, b);
    assert(found(d, f) == s.map_values(filtered(d, library, f)));
    assert(!b(s[j], s[i]));
    assert(s.contains(s[i]) && s.contains(s[j]));
    assert(l.contains(s[i]) && l.contains(s[j]));
    let x = choose|x: int| 0 <= x < l.len() && l[x] == s[i];
    let y = choose|y: int| 0 <= y < l.len() && l[y] == s[j];
    let p = choose|k: int| 0 <= k < d.rallies.len() && g(#[trigger] d.rallies[k]) == Some(l[x]);
    let q = choose|k: int| 0 <= k < d.rallies.len() && g(#[trigger] d.rallies[k]) == Some(l[y]);
    first_found(d.recordings, recording_with(d.rallies[p].recording_id));
    first_found(d.recordings, recording_with(d.rallies[q].recording_id));
    text_before_irreflexive(s[i].recording.path);
    assert(d.recordings.contains(s[i].recording) && d.recordings.contains(s[j].recording));
}

} // verus!
