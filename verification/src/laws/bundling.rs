//! Bundles and listings: a bundle carries what the timelines and annotations of its
//! session tell, and a listing tells the recordings as the store has them.
use vstd::prelude::*;

use crate::annotations::{map_annotation_view, ordered_annotations, session_with};
use crate::bundle::{
    by_path, carried_annotation, carried_rally, carried_recording, session_bundle,
    BundleRecordingView,
};
use crate::path::{joined, rooted};
use crate::scan::{
    appearing, listed, newest_first, recording_entry, session_entry, session_list, sessions_of,
    RecordingEntry,
};
use crate::share::{external_scheme, own_host, save_error, share_error};
use crate::store::{rallies_of, recordings_in, RecordingView, StoreView};
use crate::table::{
    filter_elements, filter_map_elements, first, first_found, is_order, sort_by, sort_by_elements,
    sort_by_len, sort_by_sorted,
};
use crate::text::{before_one_way, not_before_is_carried, text_before, trimmed, whitespace};
use crate::timeline::{ordered_rallies, timeline_of, timeline_rally};

verus! {

/// Whether a bundled recording carries what the store tells of a recording: its key, its
/// content, its day, and its timeline and annotations as they are told.
pub open spec fn carries(d: StoreView, b: BundleRecordingView, r: RecordingView) -> bool {
    let t = timeline_of(d, r);
    let a = ordered_annotations(d, r.id).map_values(map_annotation_view());
    &&& b.path == r.path
    &&& b.quick_hash == r.quick_hash
    &&& b.file_size == r.file_size
    &&& b.capture_day == r.capture_day
    &&& b.duration_ms == t.duration_ms
    &&& b.waveform == t.waveform
    &&& b.rallies.len() == t.rallies.len()
    &&& forall|k: int|
        0 <= k < t.rallies.len() ==> {
            &&& (#[trigger] b.rallies[k]).start_ms == t.rallies[k].start_ms
            &&& b.rallies[k].end_ms == t.rallies[k].end_ms
            &&& b.rallies[k].confidence == t.rallies[k].confidence
            &&& b.rallies[k].flagged == t.rallies[k].flagged
        }
    &&& b.annotations.len() == a.len()
    &&& forall|k: int|
        0 <= k < a.len() ==> {
            &&& (#[trigger] b.annotations[k]).time_ms == a[k].time_ms
            &&& b.annotations[k].verdict == a[k].verdict
            &&& b.annotations[k].aspect == a[k].aspect
            &&& b.annotations[k].note == a[k].note
        }
}

/// The order of paths is an order.
proof fn by_path_is_order()
    ensures
        is_order(by_path()),
{
    let b = by_path();
    assert forall|x: RecordingView, y: RecordingView| #[trigger] b(x, y) implies !b(y, x) by {
        before_one_way(x.path, y.path);
    }
    assert forall|x: RecordingView, y: RecordingView, z: RecordingView|
        !#[trigger] b(x, y) && !#[trigger] b(y, z) implies !b(x, z) by {
        not_before_is_carried(x.path, y.path, z.path);
    }
}

/// The bundle of a session carries every recording of it and no other, in the order of
/// their keys, under the day of the session and the name it is shared under. There is one
/// exactly where there is the session.
pub proof fn bundles_carry_the_session(d: StoreView, session: i64, label: Seq<char>)
    ensures
        session_bundle(d, session, label) is Some <==> exists|i: int|
            0 <= i < d.sessions.len() && (#[trigger] d.sessions[i]).id == session,
        session_bundle(d, session, label) matches Some(b) ==> {
            &&& b.format == "voloph-session-bundle"@
            &&& b.version == 1
            &&& b.sharer_label == label
            &&& exists|i: int|
                0 <= i < d.sessions.len() && (#[trigger] d.sessions[i]).id == session
                    && d.sessions[i].capture_day == b.capture_day
            &&& b.recordings.len() == d.recordings.filter(
                |r: RecordingView| r.session_id == session,
            ).len()
            &&& forall|i: int|
                0 <= i < b.recordings.len() ==> exists|k: int|
                    0 <= k < d.recordings.len() && (#[trigger] d.recordings[k]).session_id
                        == session && carries(d, #[trigger] b.recordings[i], d.recordings[k])
            &&& forall|k: int|
                0 <= k < d.recordings.len() && (#[trigger] d.recordings[k]).session_id == session
                    ==> exists|i: int|
                    0 <= i < b.recordings.len() && carries(
                        d,
                        #[trigger] b.recordings[i],
                        d.recordings[k],
                    )
            &&& forall|i: int, j: int|
                0 <= i < j < b.recordings.len() ==> !text_before(
                    (#[trigger] b.recordings[j]).path,
                    (#[trigger] b.recordings[i]).path,
                )
        },
{
    let p = session_with(session);
    first_found(d.sessions, p);
    if exists|i: int| 0 <= i < d.sessions.len() && (#[trigger] d.sessions[i]).id == session {
        let i = choose|i: int| 0 <= i < d.sessions.len() && (#[trigger] d.sessions[i]).id == session;
        assert(p(d.sessions[i]));
    }
    if let Some(b) = session_bundle(d, session, label) {
        let x = first(d.sessions, p)->0;
        let at = choose|i: int| 0 <= i < d.sessions.len() && d.sessions[i] == x;
        assert(d.sessions[at].id == session);
        let q = recordings_in(session);
        let own = d.recordings.filter(q);
        let rows = sort_by(own, by_path());
        let f = carried_recording(d);
        assert(q =~= (|r: RecordingView| r.session_id == session));
        filter_elements(d.recordings, q);
        sort_by_elements(own, by_path());
        sort_by_len(own, by_path());
        by_path_is_order();
        sort_by_sorted(own, by_path());
        assert(b.recordings == rows.map_values(f));
        assert forall|i: int| 0 <= i < b.recordings.len() implies exists|k: int|
            0 <= k < d.recordings.len() && (#[trigger] d.recordings[k]).session_id == session
                && carries(d, #[trigger] b.recordings[i], d.recordings[k]) by {
            assert(rows.contains(rows[i]));
            assert(own.contains(rows[i]));
            let o = choose|o: int| 0 <= o < own.len() && own[o] == rows[i];
            assert(d.recordings.contains(own[o]) && q(own[o]));
            let k = choose|k: int| 0 <= k < d.recordings.len() && d.recordings[k] == own[o];
            carried_is_told(d, d.recordings[k]);
        }
        assert forall|k: int|
            0 <= k < d.recordings.len() && (#[trigger] d.recordings[k]).session_id
                == session implies exists|i: int|
            0 <= i < b.recordings.len() && carries(
                d,
                #[trigger] b.recordings[i],
                d.recordings[k],
            ) by {
            assert(q(d.recordings[k]));
            assert(own.contains(d.recordings[k]));
            assert(rows.contains(d.recordings[k]));
            let i = choose|i: int| 0 <= i < rows.len() && rows[i] == d.recordings[k];
            carried_is_told(d, d.recordings[k]);
            assert(b.recordings[i] == f(rows[i]));
        }
        assert forall|i: int, j: int| 0 <= i < j < b.recordings.len() implies !text_before(
            (#[trigger] b.recordings[j]).path,
            (#[trigger] b.recordings[i]).path,
        ) by {
            assert(!by_path()(rows[j], rows[i]));
        }
    }
}

/// What is carried of a recording is what is told of it.
proof fn carried_is_told(d: StoreView, r: RecordingView)
    ensures
        carries(d, carried_recording(d)(r), r),
{
    let b = carried_recording(d)(r);
    let o = ordered_rallies(d, r.id);
    let n = ordered_annotations(d, r.id);
    assert(timeline_of(d, r).rallies == o.map_values(timeline_rally()));
    assert(b.rallies == o.map_values(carried_rally()));
    assert(b.annotations == n.map_values(carried_annotation()));
}

/// Whether an entry of a listing tells a recording as the store has it, at its place
/// under a folder and with as many rallies as it has.
pub open spec fn tells_recording(
    d: StoreView,
    folder: Seq<char>,
    e: RecordingEntry,
    r: RecordingView,
) -> bool {
    &&& e.id == r.id
    &&& e.path == joined(folder, r.path)
    &&& e.file_size == r.file_size
    &&& e.quick_hash == r.quick_hash
    &&& e.capture_day == r.capture_day
    &&& e.probe_state == r.probe_state
    &&& e.segment_state == r.segment_state
    &&& e.duration_ms == r.duration_ms
    &&& e.rally_count == timeline_of(d, r).rallies.len() as i64
}

/// Whether an entry tells a recording of a session that lies in the library.
pub open spec fn tells_one_of(
    d: StoreView,
    folder: Seq<char>,
    session: i64,
    e: RecordingEntry,
) -> bool {
    exists|k: int|
        0 <= k < d.recordings.len() && (#[trigger] d.recordings[k]).session_id == session
            && !rooted(d.recordings[k].path) && !d.recordings[k].outside && tells_recording(
            d,
            folder,
            e,
            d.recordings[k],
        )
}

/// A listing tells every session of the active library that has a recording in it, with
/// its day and those recordings in the order of their keys.
pub proof fn listings_tell_the_library(d: StoreView, folder: Seq<char>, i: int)
    requires
        d.library_path_of(d.active_kind()) == Some(folder),
        0 <= i < session_list(d).len(),
    ensures
        ({
            let e = session_list(d)[i];
            &&& exists|k: int|
                0 <= k < d.sessions.len() && (#[trigger] d.sessions[k]).id == e.id
                    && d.sessions[k].library == d.active_kind() && d.sessions[k].capture_day
                    == e.capture_day
            &&& e.recordings.len() > 0
            &&& forall|j: int|
                0 <= j < e.recordings.len() ==> tells_one_of(
                    d,
                    folder,
                    e.id,
                    #[trigger] e.recordings[j],
                )
            &&& forall|a: int, b: int|
                0 <= a < b < e.recordings.len() ==> !text_before(
                    (#[trigger] e.recordings[b]).path,
                    (#[trigger] e.recordings[a]).path,
                )
        }),
{
    let kind = d.active_kind();
    let f = session_entry(d, folder);
    let own = d.sessions.filter(sessions_of(kind));
    let rows = sort_by(own, newest_first());
    let e = session_list(d)[i];
    filter_map_elements(rows, f);
    filter_elements(d.sessions, sessions_of(kind));
    sort_by_elements(own, newest_first());
    let s = choose|s: int| 0 <= s < rows.len() && f(#[trigger] rows[s]) == Some(e);
    assert(rows.contains(rows[s]));
    assert(own.contains(rows[s]));
    let o = choose|o: int| 0 <= o < own.len() && own[o] == rows[s];
    assert(d.sessions.contains(own[o]) && sessions_of(kind)(own[o]));
    let k = choose|k: int| 0 <= k < d.sessions.len() && d.sessions[k] == own[o];
    assert(d.sessions[k].id == e.id && d.sessions[k].library == kind && d.sessions[k].capture_day
        == e.capture_day);
    let session = e.id;
    assert(e.recordings == listed(d, folder, session));
    assert(e.recordings.len() > 0);
    let q = recordings_in(session);
    let mine = d.recordings.filter(q);
    let sorted = sort_by(mine, by_path());
    let inside = sorted.filter(appearing());
    filter_elements(d.recordings, q);
    sort_by_elements(mine, by_path());
    filter_elements(sorted, appearing());
    assert forall|j: int| 0 <= j < e.recordings.len() implies tells_one_of(
        d,
        folder,
        e.id,
        #[trigger] e.recordings[j],
    ) by {
        let x = inside[j];
        assert(appearing()(x) && sorted.contains(x));
        assert(mine.contains(x));
        let a = choose|a: int| 0 <= a < mine.len() && mine[a] == x;
        assert(d.recordings.contains(mine[a]) && q(mine[a]));
        let k = choose|k: int| 0 <= k < d.recordings.len() && d.recordings[k] == x;
        assert(e.recordings[j] == recording_entry(d, folder)(x));
        sort_by_len(d.rallies.filter(rallies_of(x.id)), crate::timeline::by_start());
        assert(tells_recording(d, folder, e.recordings[j], d.recordings[k]));
    }
    by_path_is_order();
    sort_by_sorted(mine, by_path());
    crate::table::filter_sorted(sorted, by_path(), appearing());
    assert forall|a: int, b: int| 0 <= a < b < e.recordings.len() implies !text_before(
        (#[trigger] e.recordings[b]).path,
        (#[trigger] e.recordings[a]).path,
    ) by {
        assert(!by_path()(inside[b], inside[a]));
        assert(appearing()(inside[a]) && appearing()(inside[b]));
        let front = if folder.len() == 0 || folder.last() == '/' {
            folder
        } else {
            folder.push('/')
        };
        behind_one_front(front, inside[b].path, inside[a].path);
        assert(e.recordings[a].path == front + inside[a].path);
        assert(e.recordings[b].path == front + inside[b].path);
    }
}

/// Texts behind one front are ordered as they are.
proof fn behind_one_front(front: Seq<char>, a: Seq<char>, b: Seq<char>)
    ensures
        text_before(front + a, front + b) == text_before(a, b),
    decreases front.len(),
{
    if front.len() > 0 {
        behind_one_front(front.drop_first(), a, b);
        assert((front + a).drop_first() =~= front.drop_first() + a);
        assert((front + b).drop_first() =~= front.drop_first() + b);
    } else {
        assert(front + a =~= a);
        assert(front + b =~= b);
    }
}

/// A session is shared exactly from the shared library while it is active and designated,
/// under a name that is not blank; it is saved anywhere under such a name.
pub proof fn sharing_needs_a_name_and_the_shared_library(
    d: StoreView,
    session: i64,
    label: Seq<char>,
)
    ensures
        save_error(d, session, label) is None <==> {
            &&& exists|i: int| 0 <= i < label.len() && !whitespace(#[trigger] label[i])
            &&& exists|i: int| 0 <= i < d.sessions.len() && (#[trigger] d.sessions[i]).id == session
        },
        share_error(d, session, label) is None <==> {
            &&& save_error(d, session, label) is None
            &&& d.active_kind() == "shared"@
            &&& d.library_path_of("shared"@) is Some
        },
{
    bundles_carry_the_session(d, session, trimmed(label));
    crate::laws::words::trimming_leaves_words(label);
}

/// Links of the web, of mail and of telephones leave the application, unless they lead to
/// itself.
pub proof fn links_leave_by_their_scheme(scheme: Seq<char>, host: Option<Seq<char>>)
    ensures
        scheme == "http"@ || scheme == "https"@ || scheme == "mailto"@ || scheme == "tel"@
            <==> external_scheme(scheme),
        host == Some("localhost"@) || host == Some("127.0.0.1"@) || host == Some(
            "tauri.localhost"@,
        ) || host == Some("::1"@) <==> own_host(host),
{
}

} // verus!
