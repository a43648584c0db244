//! What moves: libraries to new folders, reviews from one copy to another or out of a
//! bundle, recordings out of the store, and older stores into the current shape.
use vstd::prelude::*;

use crate::annotations::{carries, map_annotation_view, ordered_annotations, recording_within};
use crate::bundle::{
    carried_annotation, carried_rally, state_applied, BundleRecordingView, SessionBundleView,
};
use crate::carry::{copied_annotations, copied_rallies, review_carried, timeline_from};
use crate::disk::{file_verified, DiskEntryView};
use crate::grouping::{session_id_on, with_session};
use crate::laws::libraries::stripped_keys_lead_back;
use crate::laws::reviews::{
    annotations_of_remarks, replaced_annotations_are_read_back, replaced_rallies_are_read_back,
    timeline_of_drafts,
};
use crate::library::designated;
use crate::path::{component, joined, spans, stripped};
use crate::receive::{bundled_at, receive_error, resolve_error};
use crate::scan::forgotten;
use crate::schema::{
    library_upgraded, rally_upgraded, recording_upgraded, session_upgraded, OldLibraryView,
    OldRallyView, OldRecordingView, OldSessionView,
};
use crate::store::{
    library_of, next_session, recordings_in, session_on, AnnotationView, RallyView, RecordingView,
    SessionView, StoreView,
};
use crate::table::{any, filter_elements, first, first_found};
use crate::timeline::{ordered_rallies, timeline_of};

verus! {

/// Whether two timelines tell the same rallies, whatever their ids.
pub open spec fn same_rallies_told(d: StoreView, a: RecordingView, n: StoreView, b: RecordingView)
    -> bool {
    let s = timeline_of(d, a).rallies;
    let t = timeline_of(n, b).rallies;
    &&& s.len() == t.len()
    &&& forall|k: int|
        0 <= k < s.len() ==> {
            &&& (#[trigger] s[k]).start_ms == t[k].start_ms
            &&& s[k].end_ms == t[k].end_ms
            &&& s[k].confidence == t[k].confidence
            &&& s[k].flagged == t[k].flagged
        }
}

/// Whether the same annotations are told of two recordings, whatever their ids.
pub open spec fn same_notes_told(d: StoreView, a: i64, n: StoreView, b: i64) -> bool {
    let s = ordered_annotations(d, a).map_values(map_annotation_view());
    let t = ordered_annotations(n, b).map_values(map_annotation_view());
    &&& s.len() == t.len()
    &&& forall|k: int|
        0 <= k < s.len() ==> {
            &&& (#[trigger] s[k]).time_ms == t[k].time_ms
            &&& s[k].verdict == t[k].verdict
            &&& s[k].aspect == t[k].aspect
            &&& s[k].note == t[k].note
        }
}

/// A review that is carried onto a copy is told of the copy as of its source: every rally
/// with its flag, every annotation, the duration and the waveform; and the copy counts as
/// segmented.
pub proof fn carried_reviews_are_told_alike(d: StoreView, from: RecordingView, to: RecordingView)
    ensures
        ({
            let n = review_carried(d, from, to.id);
            let copy = timeline_from(from)(to);
            &&& same_rallies_told(d, from, n, copy)
            &&& same_notes_told(d, from.id, n, to.id)
            &&& timeline_of(n, copy).duration_ms == timeline_of(d, from).duration_ms
            &&& timeline_of(n, copy).waveform == timeline_of(d, from).waveform
            &&& timeline_of(n, copy).segment_state == "ready"@
            &&& copy.id == to.id && copy.path == to.path && copy.library == to.library
        }),
{
    let n = review_carried(d, from, to.id);
    let copy = timeline_from(from)(to);
    replaced_rallies_are_read_back(d.rallies, to.id, copied_rallies(d, from.id), from.id);
    replaced_annotations_are_read_back(
        d.annotations,
        to.id,
        copied_annotations(d, from.id),
        from.id,
    );
    timeline_of_drafts(d, from.id);
    timeline_of_drafts(n, to.id);
    annotations_of_remarks(d, from.id);
    annotations_of_remarks(n, to.id);
    let a = ordered_rallies(d, from.id);
    let b = ordered_rallies(n, to.id);
    assert(a.map_values(carried_rally()) == b.map_values(carried_rally()));
    assert(a.map_values(carried_rally()).len() == a.len());
    assert(b.map_values(carried_rally()).len() == b.len());
    let s = timeline_of(d, from).rallies;
    let t = timeline_of(n, copy).rallies;
    assert forall|k: int| 0 <= k < s.len() implies {
        &&& (#[trigger] s[k]).start_ms == t[k].start_ms
        &&& s[k].end_ms == t[k].end_ms
        &&& s[k].confidence == t[k].confidence
        &&& s[k].flagged == t[k].flagged
    } by {
        assert(a.map_values(carried_rally())[k] == b.map_values(carried_rally())[k]);
    }
    let x = ordered_annotations(d, from.id);
    let y = ordered_annotations(n, to.id);
    assert(x.map_values(carried_annotation()) == y.map_values(carried_annotation()));
    assert(x.map_values(carried_annotation()).len() == x.len());
    assert(y.map_values(carried_annotation()).len() == y.len());
    let u = x.map_values(map_annotation_view());
    let v = y.map_values(map_annotation_view());
    assert forall|k: int| 0 <= k < u.len() implies {
        &&& (#[trigger] u[k]).time_ms == v[k].time_ms
        &&& u[k].verdict == v[k].verdict
        &&& u[k].aspect == v[k].aspect
        &&& u[k].note == v[k].note
    } by {
        assert(x.map_values(carried_annotation())[k] == y.map_values(carried_annotation())[k]);
    }
}

/// A recording onto which a bundle is written counts as probed and segmented, with the
/// bundle's duration and waveform; its key and its content stay, and nothing of another
/// recording changes.
pub proof fn written_bundles_change_one_recording(
    d: StoreView,
    id: i64,
    rec: BundleRecordingView,
    k: int,
)
    requires
        0 <= k < d.recordings.len(),
        forall|i: int| 0 <= i < rec.waveform.len() ==> crate::waveform::float_text(
            #[trigger] rec.waveform[i],
        ),
    ensures
        ({
            let r = d.recordings[k];
            let n = state_applied(d, id, rec).recordings[k];
            if r.id == id {
                &&& n.probe_state == "ready"@
                &&& n.segment_state == "ready"@
                &&& n.duration_ms == rec.duration_ms
                &&& timeline_of(d, n).waveform == rec.waveform
                &&& n == (RecordingView {
                    probe_state: n.probe_state,
                    segment_state: n.segment_state,
                    duration_ms: n.duration_ms,
                    waveform: n.waveform,
                    ..r
                })
            } else {
                n == r
            }
        }),
{
    crate::laws::texts::waveform_is_read_back(rec.waveform);
}

/// A bundle is received exactly where it is one, of a version that is known, and the shared
/// library is designated.
pub proof fn known_bundles_are_received(d: StoreView, b: SessionBundleView)
    ensures
        receive_error(d, b) is None <==> b.format == "voloph-session-bundle"@ && b.version <= 1
            && d.library_path_of("shared"@) is Some,
{
}

/// Their side of a conflict can be taken exactly where the bundle carries the recording,
/// the shared library is designated and knows it, and the file is the one described.
pub proof fn their_side_can_be_taken(
    d: StoreView,
    b: SessionBundleView,
    disk: Seq<DiskEntryView>,
    path: Seq<char>,
    i: int,
)
    requires
        0 <= i < b.recordings.len(),
        b.recordings[i].path == path,
        forall|j: int|
            0 <= j < b.recordings.len() && j != i ==> (#[trigger] b.recordings[j]).path != path,
    ensures
        resolve_error(d, b, disk, path) is None <==> {
            &&& d.library_path_of("shared"@) is Some
            &&& d.id_at("shared"@, path) is Some
            &&& file_verified(
                disk,
                joined(d.library_path_of("shared"@)->0, path),
                b.recordings[i].quick_hash,
                b.recordings[i].file_size,
            )
        },
        first(b.recordings, bundled_at(path)) == Some(b.recordings[i]),
{
    let p = bundled_at(path);
    first_found(b.recordings, p);
    assert(p(b.recordings[i]));
    let x = first(b.recordings, p)->0;
    let k = choose|k: int| 0 <= k < b.recordings.len() && b.recordings[k] == x;
    assert(k == i);
}

/// A designated library is at its folder, mounted as declared but always locally where it
/// is the local one, and active; other libraries stay as they are.
pub proof fn designated_libraries_are_at_their_folder(
    d: StoreView,
    kind: Seq<char>,
    folder: Seq<char>,
    mount: Seq<char>,
)
    ensures
        ({
            let n = designated(d, kind, folder, mount);
            &&& n.active_kind() == kind
            &&& n.library_path_of(kind) == Some(folder)
            &&& exists|i: int|
                0 <= i < n.libraries.len() && (#[trigger] n.libraries[i]).kind == kind
                    && n.libraries[i].path == folder && n.libraries[i].mount == (if kind
                    == "local"@ {
                    "local"@
                } else {
                    mount
                })
            &&& forall|i: int|
                0 <= i < d.libraries.len() && (#[trigger] d.libraries[i]).kind != kind
                    ==> n.libraries.contains(d.libraries[i])
            &&& forall|i: int|
                0 <= i < n.libraries.len() && (#[trigger] n.libraries[i]).kind != kind
                    ==> d.libraries.contains(n.libraries[i])
        }),
{
    let n = designated(d, kind, folder, mount);
    crate::laws::libraries::designating_keeps_reviews(d, kind, folder, mount);
    let s = d.libraries;
    let t = n.libraries;
    let p = library_of(kind);
    if any(s, p) {
        let i = choose|i: int| 0 <= i < s.len() && p(#[trigger] s[i]);
        assert(t[i].kind == kind);
        assert forall|i: int| 0 <= i < s.len() && (#[trigger] s[i]).kind != kind implies t.contains(
            s[i],
        ) by {
            assert(t[i] == s[i]);
        }
        assert forall|i: int| 0 <= i < t.len() && (#[trigger] t[i]).kind != kind implies s.contains(
            t[i],
        ) by {
            assert(!p(s[i]));
            assert(t[i] == s[i]);
        }
    } else {
        assert(t[s.len() as int].kind == kind);
        assert forall|i: int| 0 <= i < s.len() && (#[trigger] s[i]).kind != kind implies t.contains(
            s[i],
        ) by {
            assert(t[i] == s[i]);
        }
        assert forall|i: int| 0 <= i < t.len() && (#[trigger] t[i]).kind != kind implies s.contains(
            t[i],
        ) by {
            assert(t[i] == s[i]);
        }
    }
}

/// A recording that lies under a newly designated folder stays where it lies: the place of
/// its new key under the folder has the components of the old place.
pub proof fn insiders_stay_in_their_place(
    d: StoreView,
    kind: Seq<char>,
    previous: Seq<char>,
    folder: Seq<char>,
    mount: Seq<char>,
    k: int,
)
    requires
        0 <= k < d.recordings.len(),
        d.recordings[k].library == kind,
        d.library_path_of(kind) == Some(previous),
        stripped(folder, joined(previous, d.recordings[k].path)) is Some,
    ensures
        ({
            let old_place = joined(previous, d.recordings[k].path);
            let r = designated(d, kind, folder, mount).recordings[k];
            let new_place = joined(folder, r.path);
            &&& r.id == d.recordings[k].id
            &&& r.outside == d.recordings[k].outside
            &&& spans(new_place).len() == spans(old_place).len()
            &&& forall|i: int|
                0 <= i < spans(old_place).len() ==> #[trigger] component(new_place, i)
                    == component(old_place, i)
        }),
{
    let old_place = joined(previous, d.recordings[k].path);
    let r = designated(d, kind, folder, mount).recordings[k];
    stripped_keys_lead_back(folder, old_place, r.path);
}

/// A folder and a key are joined by one slash.
pub proof fn paths_are_joined_by_a_slash(folder: Seq<char>, key: Seq<char>)
    requires
        folder.len() > 0,
    ensures
        key.len() > 0 && key[0] == '/' ==> joined(folder, key) == key,
        (key.len() == 0 || key[0] != '/') && folder.last() != '/' ==> joined(folder, key) == folder
            + "/"@ + key,
        (key.len() == 0 || key[0] != '/') && folder.last() == '/' ==> joined(folder, key) == folder
            + key,
{
    reveal_strlit("/");
    assert(folder + "/"@ =~= folder.push('/'));
}

/// A session is asked for by its day and its library: the one that is there, or a new one
/// with an id that no session has.
pub proof fn sessions_are_one_per_day(d: StoreView, kind: Seq<char>, day: Seq<char>)
    requires
        d.wf(),
        next_session(d.sessions) <= i64::MAX,
    ensures
        ({
            let s = d.sessions;
            let t = with_session(s, kind, day);
            let id = session_id_on(s, kind, day);
            &&& exists|i: int|
                0 <= i < t.len() && (#[trigger] t[i]).id == id && t[i].library == kind
                    && t[i].capture_day == day
            &&& t.len() <= s.len() + 1
            &&& forall|i: int| 0 <= i < s.len() ==> #[trigger] t[i] == s[i]
            &&& t.len() == s.len() + 1 <==> !exists|i: int|
                0 <= i < s.len() && (#[trigger] s[i]).library == kind && s[i].capture_day == day
            &&& t.len() == s.len() + 1 ==> forall|i: int|
                0 <= i < s.len() ==> (#[trigger] s[i]).id != id
        }),
{
    let s = d.sessions;
    let t = with_session(s, kind, day);
    let p = session_on(kind, day);
    crate::grouping::session_is_there(s, kind, day);
    first_found(t, p);
    let x = first(t, p)->0;
    let k = choose|k: int| 0 <= k < t.len() && t[k] == x;
    assert(t[k].id == session_id_on(s, kind, day));
    if any(s, p) {
        let i = choose|i: int| 0 <= i < s.len() && p(#[trigger] s[i]);
        assert(s[i].library == kind && s[i].capture_day == day);
    } else {
        assert forall|i: int| 0 <= i < s.len() implies !((#[trigger] s[i]).library == kind
            && s[i].capture_day == day) by {
            assert(!p(s[i]));
        }
        assert(k == s.len()) by {
            if k < s.len() {
                assert(p(s[k]));
            }
        }
        assert forall|i: int| 0 <= i < s.len() implies (#[trigger] s[i]).id != x.id by {
            if i < s.len() - 1 {
                assert(s[i].id < s[s.len() - 1].id);
            }
        }
    }
}

/// A recording that is forgotten leaves the store with its rallies and its annotations, and
/// with its session where that has no other recording; everything else stays.
pub proof fn forgetting_takes_one_recording(d: StoreView, row: RecordingView)
    requires
        d.wf(),
        d.recordings.contains(row),
    ensures
        ({
            let n = forgotten(d, row);
            &&& forall|r: RecordingView|
                #[trigger] n.recordings.contains(r) <==> d.recordings.contains(r) && r.id != row.id
            &&& forall|r: RallyView|
                #[trigger] n.rallies.contains(r) <==> d.rallies.contains(r) && r.recording_id
                    != row.id
            &&& forall|a: AnnotationView|
                #[trigger] n.annotations.contains(a) <==> d.annotations.contains(a)
                    && a.recording_id != row.id
            &&& forall|s: SessionView|
                #[trigger] n.sessions.contains(s) <==> d.sessions.contains(s) && (s.id
                    != row.session_id || exists|k: int|
                    0 <= k < d.recordings.len() && (#[trigger] d.recordings[k]).session_id
                        == row.session_id && d.recordings[k].id != row.id)
            &&& n.libraries == d.libraries && n.meta == d.meta
        }),
{
    let n = forgotten(d, row);
    kept_exactly(d.recordings, crate::scan::other_than(row.id));
    kept_exactly(d.rallies, crate::store::rallies_not_of(row.id));
    kept_exactly(d.annotations, crate::store::annotations_not_of(row.id));
    kept_exactly(d.sessions, crate::grouping::other_sessions(row.session_id));
    let q = recordings_in(row.session_id);
    if any(n.recordings, q) {
        let i = choose|i: int| 0 <= i < n.recordings.len() && q(#[trigger] n.recordings[i]);
        assert(n.recordings.contains(n.recordings[i]));
        let k = choose|k: int| 0 <= k < d.recordings.len() && d.recordings[k] == n.recordings[i];
        assert(d.recordings[k].session_id == row.session_id && d.recordings[k].id != row.id);
    }
    if exists|k: int|
        0 <= k < d.recordings.len() && (#[trigger] d.recordings[k]).session_id == row.session_id
            && d.recordings[k].id != row.id {
        let k = choose|k: int|
            0 <= k < d.recordings.len() && (#[trigger] d.recordings[k]).session_id
                == row.session_id && d.recordings[k].id != row.id;
        assert(d.recordings.contains(d.recordings[k]));
        assert(n.recordings.contains(d.recordings[k]));
        let i = choose|i: int| 0 <= i < n.recordings.len() && n.recordings[i] == d.recordings[k];
        assert(q(n.recordings[i]));
    }
}

/// A filter keeps exactly what it holds of.
proof fn kept_exactly<A>(s: Seq<A>, p: spec_fn(A) -> bool)
    ensures
        forall|x: A| #[trigger] s.filter(p).contains(x) <==> s.contains(x) && p(x),
{
    let t = s.filter(p);
    filter_elements(s, p);
    assert forall|x: A| #[trigger] t.contains(x) <==> s.contains(x) && p(x) by {
        if t.contains(x) {
            let i = choose|i: int| 0 <= i < t.len() && t[i] == x;
            assert(p(t[i]) && s.contains(t[i]));
        }
        if s.contains(x) && p(x) {
            let k = choose|k: int| 0 <= k < s.len() && s[k] == x;
            assert(p(s[k]));
        }
    }
}

/// The aspects that are offered are those on annotations of the active library.
pub proof fn aspects_come_from_the_library(d: StoreView, kind: Seq<char>, aspect: Seq<char>)
    ensures
        any(d.annotations, carries(d, kind, aspect)) <==> exists|i: int, k: int|
            {
                &&& 0 <= i < d.annotations.len()
                &&& 0 <= k < d.recordings.len()
                &&& (#[trigger] d.annotations[i]).aspect == Some(aspect)
                &&& (#[trigger] d.recordings[k]).id == d.annotations[i].recording_id
                &&& d.recordings[k].library == kind
            },
{
    let p = carries(d, kind, aspect);
    if any(d.annotations, p) {
        let i = choose|i: int| 0 <= i < d.annotations.len() && p(#[trigger] d.annotations[i]);
        let w = recording_within(kind, d.annotations[i].recording_id);
        let k = choose|k: int| 0 <= k < d.recordings.len() && w(#[trigger] d.recordings[k]);
        assert(d.recordings[k].id == d.annotations[i].recording_id);
    }
    if exists|i: int, k: int|
        {
            &&& 0 <= i < d.annotations.len()
            &&& 0 <= k < d.recordings.len()
            &&& (#[trigger] d.annotations[i]).aspect == Some(aspect)
            &&& (#[trigger] d.recordings[k]).id == d.annotations[i].recording_id
            &&& d.recordings[k].library == kind
        } {
        let (i, k) = choose|i: int, k: int|
            {
                &&& 0 <= i < d.annotations.len()
                &&& 0 <= k < d.recordings.len()
                &&& (#[trigger] d.annotations[i]).aspect == Some(aspect)
                &&& (#[trigger] d.recordings[k]).id == d.annotations[i].recording_id
                &&& d.recordings[k].library == kind
            };
        assert(recording_within(kind, d.annotations[i].recording_id)(d.recordings[k]));
        assert(p(d.annotations[i]));
    }
}

/// What an older store does not know yet is what a recording starts with: of the local
/// library, not probed, not segmented, not dated; a draft from before versions counts as
/// one of the current segmenter.
pub proof fn older_rows_start_afresh(
    s: OldSessionView,
    r: OldRecordingView,
    x: OldRallyView,
    l: OldLibraryView,
)
    ensures
        s.library is None ==> session_upgraded()(s).library == "local"@,
        r.library is None ==> recording_upgraded()(r).library == "local"@,
        r.probe_state is None && r.transcode_state is None
            ==> recording_upgraded()(r).probe_state == "unknown"@,
        r.segment_state is None ==> recording_upgraded()(r).segment_state == "unknown"@,
        r.date_state is None ==> recording_upgraded()(r).date_state == "unknown"@,
        r.segmenter_version is None && r.segment_state == Some("ready"@)
            ==> recording_upgraded()(r).segmenter_version == Some(1i64),
        r.segmenter_version is None && r.segment_state != Some("ready"@)
            ==> recording_upgraded()(r).segmenter_version is None,
        recording_upgraded()(r).id == r.id && recording_upgraded()(r).session_id == r.session_id,
        recording_upgraded()(r).file_size == r.file_size && recording_upgraded()(r).quick_hash
            == r.quick_hash && recording_upgraded()(r).capture_day == r.capture_day,
        r.outside is None ==> !recording_upgraded()(r).outside,
        x.flagged is None ==> !rally_upgraded()(x).flagged,
        rally_upgraded()(x).id == x.id && rally_upgraded()(x).start_ms == x.start_ms
            && rally_upgraded()(x).end_ms == x.end_ms && rally_upgraded()(x).confidence
            == x.confidence,
        l.mount is None ==> library_upgraded()(l).mount == "local"@,
        library_upgraded()(l).kind == l.kind,
{
}

} // verus!
