//! Timelines and annotations, row by row: what is told is what the store holds, and what
//! an edit changes of it.
use vstd::prelude::*;

use crate::annotations::{
    annotation_added, annotation_deleted, annotation_in, annotation_not_in, annotation_updated,
    by_time, has_annotation, map_annotation_view, ordered_annotations, NoteView,
};
use crate::drafts::drafts_by_start;
use crate::segment::Rally;
use crate::store::{
    annotations_of, next_annotation, next_rally, rallies_of, AnnotationView, RallyView,
    RecordingView, StoreView,
};
use crate::table::{
    any, filter_elements, is_order, sort_by, sort_by_elements, sort_by_len, sort_by_permutes,
    sort_by_sorted,
};
use crate::timeline::{
    by_start, hand_touched, has_rally, id_of, ordered_rallies, rally_added, rally_deleted,
    rally_flagged, rally_in, rally_not_in, rally_updated, timeline_of, timeline_rally,
    touched_rally, TimelineRallyView,
};
use crate::work::{draft_saved, drafted, rallies_saved};

verus! {

/// Whether a rally of a timeline tells a row of the store.
pub open spec fn tells_rally(t: TimelineRallyView, r: RallyView) -> bool {
    &&& t.id == r.id
    &&& t.start_ms == r.start_ms
    &&& t.end_ms == r.end_ms
    &&& t.confidence == r.confidence
    &&& t.flagged == r.flagged
}

/// A timeline tells every rally of its recording and no other, in the order of their
/// starts, with the state and the duration of the recording.
pub proof fn timelines_tell_every_rally(d: StoreView, row: RecordingView)
    ensures
        ({
            let t = timeline_of(d, row);
            &&& t.segment_state == row.segment_state
            &&& t.duration_ms == row.duration_ms
            &&& t.rallies.len() == d.rallies.filter(|r: RallyView| r.recording_id == row.id).len()
            &&& forall|i: int|
                0 <= i < t.rallies.len() ==> exists|k: int|
                    0 <= k < d.rallies.len() && (#[trigger] d.rallies[k]).recording_id == row.id
                        && tells_rally(#[trigger] t.rallies[i], d.rallies[k])
            &&& forall|k: int|
                0 <= k < d.rallies.len() && (#[trigger] d.rallies[k]).recording_id == row.id
                    ==> exists|i: int|
                    0 <= i < t.rallies.len() && tells_rally(#[trigger] t.rallies[i], d.rallies[k])
            &&& forall|i: int, j: int|
                0 <= i < j < t.rallies.len() ==> (#[trigger] t.rallies[i]).start_ms <= (
                #[trigger] t.rallies[j]).start_ms
        }),
{
    let id = row.id;
    let own = d.rallies.filter(rallies_of(id));
    let s = ordered_rallies(d, id);
    let t = timeline_of(d, row).rallies;
    assert(rallies_of(id) =~= (|r: RallyView| r.recording_id == row.id));
    filter_elements(d.rallies, rallies_of(id));
    sort_by_elements(own, by_start());
    sort_by_len(own, by_start());
    assert(is_order(by_start()));
    sort_by_sorted(own, by_start());
    assert(t == s.map_values(timeline_rally()));
    assert forall|i: int| 0 <= i < t.len() implies exists|k: int|
        0 <= k < d.rallies.len() && (#[trigger] d.rallies[k]).recording_id == id && tells_rally(
            #[trigger] t[i],
            d.rallies[k],
        ) by {
        assert(s.contains(s[i]));
        assert(own.contains(s[i]));
        let q = choose|q: int| 0 <= q < own.len() && own[q] == s[i];
        assert(d.rallies.contains(own[q]) && rallies_of(id)(own[q]));
        let k = choose|k: int| 0 <= k < d.rallies.len() && d.rallies[k] == own[q];
        assert(d.rallies[k].recording_id == id && tells_rally(t[i], d.rallies[k]));
    }
    assert forall|k: int|
        0 <= k < d.rallies.len() && (#[trigger] d.rallies[k]).recording_id
            == id implies exists|i: int|
        0 <= i < t.len() && tells_rally(#[trigger] t[i], d.rallies[k]) by {
        assert(rallies_of(id)(d.rallies[k]));
        assert(own.contains(d.rallies[k]));
        assert(s.contains(d.rallies[k]));
        let i = choose|i: int| 0 <= i < s.len() && s[i] == d.rallies[k];
        assert(tells_rally(t[i], d.rallies[k]));
    }
    assert forall|i: int, j: int| 0 <= i < j < t.len() implies (#[trigger] t[i]).start_ms <= (
    #[trigger] t[j]).start_ms by {
        assert(!by_start()(s[j], s[i]));
    }
}

/// Whether a note tells a row of the store.
pub open spec fn tells_note(n: NoteView, a: AnnotationView) -> bool {
    &&& n.id == a.id
    &&& n.time_ms == a.time_ms
    &&& n.verdict == a.verdict
    &&& n.aspect == a.aspect
    &&& n.note == a.note
}

/// The annotations of a recording are told, all of them and no other, in the order of
/// their moments.
pub proof fn notes_tell_every_annotation(d: StoreView, id: i64)
    ensures
        ({
            let t = ordered_annotations(d, id).map_values(map_annotation_view());
            &&& t.len() == d.annotations.filter(|a: AnnotationView| a.recording_id == id).len()
            &&& forall|i: int|
                0 <= i < t.len() ==> exists|k: int|
                    0 <= k < d.annotations.len() && (#[trigger] d.annotations[k]).recording_id == id
                        && tells_note(#[trigger] t[i], d.annotations[k])
            &&& forall|k: int|
                0 <= k < d.annotations.len() && (#[trigger] d.annotations[k]).recording_id == id
                    ==> exists|i: int|
                    0 <= i < t.len() && tells_note(#[trigger] t[i], d.annotations[k])
            &&& forall|i: int, j: int|
                0 <= i < j < t.len() ==> (#[trigger] t[i]).time_ms <= (#[trigger] t[j]).time_ms
        }),
{
    let own = d.annotations.filter(annotations_of(id));
    let s = ordered_annotations(d, id);
    let t = s.map_values(map_annotation_view());
    assert(annotations_of(id) =~= (|a: AnnotationView| a.recording_id == id));
    filter_elements(d.annotations, annotations_of(id));
    sort_by_elements(own, by_time());
    sort_by_len(own, by_time());
    assert(is_order(by_time()));
    sort_by_sorted(own, by_time());
    assert forall|i: int| 0 <= i < t.len() implies exists|k: int|
        0 <= k < d.annotations.len() && (#[trigger] d.annotations[k]).recording_id == id
            && tells_note(#[trigger] t[i], d.annotations[k]) by {
        assert(s.contains(s[i]));
        assert(own.contains(s[i]));
        let q = choose|q: int| 0 <= q < own.len() && own[q] == s[i];
        assert(d.annotations.contains(own[q]) && annotations_of(id)(own[q]));
        let k = choose|k: int| 0 <= k < d.annotations.len() && d.annotations[k] == own[q];
        assert(d.annotations[k].recording_id == id && tells_note(t[i], d.annotations[k]));
    }
    assert forall|k: int|
        0 <= k < d.annotations.len() && (#[trigger] d.annotations[k]).recording_id
            == id implies exists|i: int|
        0 <= i < t.len() && tells_note(#[trigger] t[i], d.annotations[k]) by {
        assert(annotations_of(id)(d.annotations[k]));
        assert(own.contains(d.annotations[k]));
        assert(s.contains(d.annotations[k]));
        let i = choose|i: int| 0 <= i < s.len() && s[i] == d.annotations[k];
        assert(tells_note(t[i], d.annotations[k]));
    }
    assert forall|i: int, j: int| 0 <= i < j < t.len() implies (#[trigger] t[i]).time_ms <= (
    #[trigger] t[j]).time_ms by {
        assert(!by_time()(s[j], s[i]));
    }
}

/// A recording is hand-touched exactly where a rally of it is flagged or fully certain,
/// or an annotation is pinned to it.
pub proof fn touch_is_a_flag_a_correction_or_an_annotation(d: StoreView, id: i64)
    ensures
        hand_touched(d, id) <==> {
            ||| exists|k: int|
                0 <= k < d.rallies.len() && (#[trigger] d.rallies[k]).recording_id == id && (
                d.rallies[k].flagged || d.rallies[k].confidence >= 1_000_000_000)
            ||| exists|k: int|
                0 <= k < d.annotations.len() && (#[trigger] d.annotations[k]).recording_id == id
        },
{
    if any(d.rallies, touched_rally(id)) {
        let k = choose|k: int|
            0 <= k < d.rallies.len() && touched_rally(id)(#[trigger] d.rallies[k]);
        assert(d.rallies[k].recording_id == id);
    }
    if any(d.annotations, annotations_of(id)) {
        let k = choose|k: int|
            0 <= k < d.annotations.len() && annotations_of(id)(#[trigger] d.annotations[k]);
        assert(d.annotations[k].recording_id == id);
    }
    if exists|k: int|
        0 <= k < d.rallies.len() && (#[trigger] d.rallies[k]).recording_id == id && (
        d.rallies[k].flagged || d.rallies[k].confidence >= 1_000_000_000) {
        let k = choose|k: int|
            0 <= k < d.rallies.len() && (#[trigger] d.rallies[k]).recording_id == id && (
            d.rallies[k].flagged || d.rallies[k].confidence >= 1_000_000_000);
        assert(touched_rally(id)(d.rallies[k]));
    }
    if exists|k: int|
        0 <= k < d.annotations.len() && (#[trigger] d.annotations[k]).recording_id == id {
        let k = choose|k: int|
            0 <= k < d.annotations.len() && (#[trigger] d.annotations[k]).recording_id == id;
        assert(annotations_of(id)(d.annotations[k]));
    }
}

/// Whether an interval has two boundaries, in ascending order.
pub open spec fn spans_bounds_of(r: RallyView, a: i64, b: i64) -> bool {
    r.start_ms <= r.end_ms && (r.start_ms == a && r.end_ms == b || r.start_ms == b && r.end_ms
        == a)
}

/// A rally that is moved has the new boundaries, in ascending order, is fully certain and
/// keeps its flag; every other rally stays as it is.
pub proof fn moved_rallies_have_their_new_bounds(
    d: StoreView,
    path: Seq<char>,
    rally: i64,
    a: i64,
    b: i64,
    id: i64,
)
    requires
        id_of(d, path) == Some(id),
    ensures
        ({
            let n = rally_updated(d, path, rally, a, b);
            &&& n.rallies.len() == d.rallies.len()
            &&& forall|k: int|
                0 <= k < d.rallies.len() ==> {
                    let old_row = d.rallies[k];
                    let new_row = #[trigger] n.rallies[k];
                    if old_row.id == rally && old_row.recording_id == id {
                        &&& new_row.id == rally && new_row.recording_id == id
                        &&& spans_bounds_of(new_row, a, b)
                        &&& new_row.confidence == 1_000_000_000
                        &&& new_row.flagged == old_row.flagged
                    } else {
                        new_row == old_row
                    }
                }
        }),
        has_rally(d, path, rally) <==> exists|k: int|
            0 <= k < d.rallies.len() && (#[trigger] d.rallies[k]).id == rally
                && d.rallies[k].recording_id == id,
{
    let p = rally_in(id, rally);
    if has_rally(d, path, rally) {
        let k = choose|k: int| 0 <= k < d.rallies.len() && p(#[trigger] d.rallies[k]);
        assert(d.rallies[k].id == rally && d.rallies[k].recording_id == id);
    }
    if exists|k: int|
        0 <= k < d.rallies.len() && (#[trigger] d.rallies[k]).id == rally
            && d.rallies[k].recording_id == id {
        let k = choose|k: int|
            0 <= k < d.rallies.len() && (#[trigger] d.rallies[k]).id == rally
                && d.rallies[k].recording_id == id;
        assert(p(d.rallies[k]));
    }
}

/// A rally that is added by hand is one more of its recording, with an id that no rally
/// has, the boundaries in ascending order, fully certain and not flagged.
pub proof fn added_rallies_are_there(d: StoreView, path: Seq<char>, a: i64, b: i64, id: i64)
    requires
        d.wf(),
        id_of(d, path) == Some(id),
        next_rally(d.rallies) <= i64::MAX,
    ensures
        ({
            let n = rally_added(d, path, a, b);
            let r = n.rallies.last();
            &&& n.rallies.len() == d.rallies.len() + 1
            &&& n.rallies.drop_last() == d.rallies
            &&& r.id == next_rally(d.rallies)
            &&& forall|k: int| 0 <= k < d.rallies.len() ==> (#[trigger] d.rallies[k]).id != r.id
            &&& r.recording_id == id
            &&& spans_bounds_of(r, a, b)
            &&& r.confidence == 1_000_000_000
            &&& !r.flagged
        }),
{
    let n = rally_added(d, path, a, b);
    assert(n.rallies.drop_last() =~= d.rallies);
    assert forall|k: int| 0 <= k < d.rallies.len() implies (#[trigger] d.rallies[k]).id
        != n.rallies.last().id by {
        if k < d.rallies.len() - 1 {
            assert(d.rallies[k].id < d.rallies[d.rallies.len() - 1].id);
        }
    }
}

/// A rally that is deleted is gone, and no other.
pub proof fn deleted_rallies_are_gone(d: StoreView, path: Seq<char>, rally: i64, id: i64)
    requires
        id_of(d, path) == Some(id),
    ensures
        ({
            let n = rally_deleted(d, path, rally);
            forall|r: RallyView|
                #[trigger] n.rallies.contains(r) <==> d.rallies.contains(r) && !(r.id == rally
                    && r.recording_id == id)
        }),
{
    let p = rally_not_in(id, rally);
    let n = rally_deleted(d, path, rally);
    filter_elements(d.rallies, p);
    assert forall|r: RallyView| #[trigger] n.rallies.contains(r) <==> d.rallies.contains(r) && !(
    r.id == rally && r.recording_id == id) by {
        if n.rallies.contains(r) {
            let i = choose|i: int| 0 <= i < n.rallies.len() && n.rallies[i] == r;
            assert(p(n.rallies[i]) && d.rallies.contains(n.rallies[i]));
        }
        if d.rallies.contains(r) && !(r.id == rally && r.recording_id == id) {
            let k = choose|k: int| 0 <= k < d.rallies.len() && d.rallies[k] == r;
            assert(p(d.rallies[k]));
        }
    }
}

/// A flag that is set is set on its rally alone, and nothing else of it changes.
pub proof fn flags_are_set_on_their_rally(
    d: StoreView,
    path: Seq<char>,
    rally: i64,
    flagged: bool,
    id: i64,
)
    requires
        id_of(d, path) == Some(id),
    ensures
        ({
            let n = rally_flagged(d, path, rally, flagged);
            &&& n.rallies.len() == d.rallies.len()
            &&& forall|k: int|
                0 <= k < d.rallies.len() ==> {
                    let old_row = d.rallies[k];
                    let new_row = #[trigger] n.rallies[k];
                    if old_row.id == rally && old_row.recording_id == id {
                        &&& new_row.flagged == flagged
                        &&& new_row.id == rally && new_row.recording_id == id
                        &&& new_row.start_ms == old_row.start_ms
                        &&& new_row.end_ms == old_row.end_ms
                        &&& new_row.confidence == old_row.confidence
                    } else {
                        new_row == old_row
                    }
                }
        }),
{
}

/// An annotation that is dropped is one more of its recording, with an id that no
/// annotation has, at its moment or at the start where that lies before it, with its
/// verdict and nothing else.
pub proof fn dropped_annotations_are_there(
    d: StoreView,
    path: Seq<char>,
    time: i64,
    verdict: Seq<char>,
    id: i64,
)
    requires
        d.wf(),
        id_of(d, path) == Some(id),
        next_annotation(d.annotations) <= i64::MAX,
    ensures
        ({
            let n = annotation_added(d, path, time, verdict);
            let a = n.annotations.last();
            &&& n.annotations.len() == d.annotations.len() + 1
            &&& n.annotations.drop_last() == d.annotations
            &&& a.id == next_annotation(d.annotations)
            &&& forall|k: int|
                0 <= k < d.annotations.len() ==> (#[trigger] d.annotations[k]).id != a.id
            &&& a.recording_id == id
            &&& time >= 0 ==> a.time_ms == time
            &&& time <= 0 ==> a.time_ms == 0
            &&& a.verdict == verdict
            &&& a.aspect is None
            &&& a.note is None
        }),
{
    let n = annotation_added(d, path, time, verdict);
    assert(n.annotations.drop_last() =~= d.annotations);
    assert forall|k: int| 0 <= k < d.annotations.len() implies (#[trigger] d.annotations[k]).id
        != n.annotations.last().id by {
        if k < d.annotations.len() - 1 {
            assert(d.annotations[k].id < d.annotations[d.annotations.len() - 1].id);
        }
    }
}

/// An annotation that is enriched has the new verdict, aspect and note, and stays at its
/// moment; every other annotation stays as it is.
pub proof fn enriched_annotations_have_what_was_said(
    d: StoreView,
    path: Seq<char>,
    note_id: i64,
    verdict: Seq<char>,
    aspect: Option<Seq<char>>,
    note: Option<Seq<char>>,
    id: i64,
)
    requires
        id_of(d, path) == Some(id),
    ensures
        ({
            let n = annotation_updated(d, path, note_id, verdict, aspect, note);
            &&& n.annotations.len() == d.annotations.len()
            &&& forall|k: int|
                0 <= k < d.annotations.len() ==> {
                    let old_row = d.annotations[k];
                    let new_row = #[trigger] n.annotations[k];
                    if old_row.id == note_id && old_row.recording_id == id {
                        &&& new_row.id == note_id && new_row.recording_id == id
                        &&& new_row.time_ms == old_row.time_ms
                        &&& new_row.verdict == verdict
                        &&& new_row.aspect == aspect
                        &&& new_row.note == note
                    } else {
                        new_row == old_row
                    }
                }
        }),
        has_annotation(d, path, note_id) <==> exists|k: int|
            0 <= k < d.annotations.len() && (#[trigger] d.annotations[k]).id == note_id
                && d.annotations[k].recording_id == id,
{
    let p = annotation_in(id, note_id);
    if has_annotation(d, path, note_id) {
        let k = choose|k: int| 0 <= k < d.annotations.len() && p(#[trigger] d.annotations[k]);
        assert(d.annotations[k].id == note_id && d.annotations[k].recording_id == id);
    }
    if exists|k: int|
        0 <= k < d.annotations.len() && (#[trigger] d.annotations[k]).id == note_id
            && d.annotations[k].recording_id == id {
        let k = choose|k: int|
            0 <= k < d.annotations.len() && (#[trigger] d.annotations[k]).id == note_id
                && d.annotations[k].recording_id == id;
        assert(p(d.annotations[k]));
    }
}

/// An annotation that is deleted is gone, and no other.
pub proof fn deleted_annotations_are_gone(d: StoreView, path: Seq<char>, note_id: i64, id: i64)
    requires
        id_of(d, path) == Some(id),
    ensures
        ({
            let n = annotation_deleted(d, path, note_id);
            forall|a: AnnotationView|
                #[trigger] n.annotations.contains(a) <==> d.annotations.contains(a) && !(a.id
                    == note_id && a.recording_id == id)
        }),
{
    let p = annotation_not_in(id, note_id);
    let n = annotation_deleted(d, path, note_id);
    filter_elements(d.annotations, p);
    assert forall|a: AnnotationView| #[trigger]
        n.annotations.contains(a) <==> d.annotations.contains(a) && !(a.id == note_id
            && a.recording_id == id) by {
        if n.annotations.contains(a) {
            let i = choose|i: int| 0 <= i < n.annotations.len() && n.annotations[i] == a;
            assert(p(n.annotations[i]) && d.annotations.contains(n.annotations[i]));
        }
        if d.annotations.contains(a) && !(a.id == note_id && a.recording_id == id) {
            let k = choose|k: int| 0 <= k < d.annotations.len() && d.annotations[k] == a;
            assert(p(d.annotations[k]));
        }
    }
}

/// A draft that is saved is what the timeline then tells: the same rallies in the order
/// of their starts with the segmenter's own confidence, none of them flagged, and none of
/// an earlier draft.
pub proof fn saved_drafts_are_told(
    d: StoreView,
    row: RecordingView,
    duration_ms: i64,
    rallies: Seq<Rally>,
    waveform: Seq<Seq<char>>,
)
    ensures
        ({
            let n = rallies_saved(d, row.id, duration_ms, rallies, waveform);
            let r = draft_saved(duration_ms, waveform)(row);
            let t = timeline_of(n, r);
            &&& r.segment_state == "ready"@
            &&& r.duration_ms == Some(duration_ms)
            &&& r.segmenter_version == Some(1i64)
            &&& r.probe_state == row.probe_state && r.path == row.path && r.id == row.id
            &&& n.annotations == d.annotations
            &&& exists|w: Seq<Rally>|
                {
                    &&& #[trigger] w.to_multiset() == rallies.to_multiset()
                    &&& w.len() == rallies.len()
                    &&& w.len() == t.rallies.len()
                    &&& forall|k: int|
                        0 <= k < t.rallies.len() ==> {
                            &&& (#[trigger] t.rallies[k]).start_ms == w[k].start_ms
                            &&& t.rallies[k].end_ms == w[k].end_ms
                            &&& t.rallies[k].confidence == w[k].confidence
                            &&& !t.rallies[k].flagged
                        }
                    &&& forall|i: int, j: int|
                        0 <= i < j < w.len() ==> w[i].start_ms <= w[j].start_ms
                }
        }),
{
    let n = rallies_saved(d, row.id, duration_ms, rallies, waveform);
    let r = draft_saved(duration_ms, waveform)(row);
    let t = timeline_of(n, r);
    let early = |a: Rally, b: Rally| a.start_ms < b.start_ms;
    let w = sort_by(rallies, early);
    sort_by_permutes(rallies, early);
    sort_by_len(rallies, early);
    assert(is_order(early));
    sort_by_sorted(rallies, early);
    crate::table::sort_by_mapped(rallies, drafted(), early, drafts_by_start());
    crate::laws::edits::saved_draft_is_read_back(
        d,
        row.id,
        duration_ms,
        rallies,
        waveform,
        row.id,
    );
    let o = ordered_rallies(n, row.id);
    let c = o.map_values(crate::bundle::carried_rally());
    assert(c == w.map_values(drafted()));
    assert(c.len() == o.len());
    assert forall|k: int| 0 <= k < t.rallies.len() implies {
        &&& (#[trigger] t.rallies[k]).start_ms == w[k].start_ms
        &&& t.rallies[k].end_ms == w[k].end_ms
        &&& t.rallies[k].confidence == w[k].confidence
        &&& !t.rallies[k].flagged
    } by {
        assert(c[k] == crate::bundle::carried_rally()(o[k]));
        assert(c[k] == drafted()(w[k]));
    }
    assert forall|i: int, j: int| 0 <= i < j < w.len() implies w[i].start_ms
        <= w[j].start_ms by {
        assert(!early(w[j], w[i]));
    }
}

} // verus!
