//! Sharing a session's review: what arrives is what was sent, arriving twice
//! changes nothing, and a recipient's own work is never overwritten unasked.
use vstd::prelude::*;

use crate::annotations::{by_time, ordered_annotations};
use crate::bundle::{
    by_path, carried_annotation, carried_rally, carried_recording, received, same_rally,
    session_bundle, state_applied, state_matches, BundleRecordingView, SessionBundleView,
};
use crate::disk::{file_verified, DiskEntryView};
use crate::drafts::{drafts_by_start, remarks_by_time, Draft, RemarkView};
use crate::grouping::{registered, session_id_on, session_is_there, with_session};
use crate::laws::reviews::{
    annotations_of_remarks, replaced_annotations_are_read_back, replaced_rallies_are_read_back,
    same_review, timeline_of_drafts, timelines_are_in_order, touch_shows_in_review,
};
use crate::laws::texts::{peaks_are_numbers, signatures_tell_changes, waveform_is_read_back};
use crate::offers::{
    covered, foreign_bundle, ledger_entry, offer_of, offers_path, signature_of, summary_of,
    BundleFileView, FileStamp,
};
use crate::path::joined;
use crate::receive::{
    annotation_total, ids_fit, rally_total, receive_all, receive_one, taken, totals_ascend,
    Reception,
};
use crate::store::{
    annotations_of, home_of, next_recording, recording_at, recording_with, recordings_in,
    session_on, AnnotationView, RallyView, RecordingView, StoreView,
};
use crate::table::{
    any, filter_elements, filter_keeps_all, first, first_found, first_rewritten, is_order,
    is_sorted, sort_by, sort_by_elements, sort_by_kept, sort_by_len, sort_by_permutes,
    sort_by_sorted,
};
use crate::text::{before_one_way, not_before_is_carried};
use crate::timeline::{by_start, hand_touched, ordered_rallies};
use crate::upkeep::receive_all_wf;
use crate::work::{next_work, unprobed, unsegmented_in, WorkView};

verus! {

/// Whether the timeline and the annotations of a bundled recording are in order.
pub open spec fn in_order(rec: BundleRecordingView) -> bool {
    is_sorted(rec.rallies, drafts_by_start()) && is_sorted(rec.annotations, remarks_by_time())
}

/// Whether the recordings of a bundle are in order, each path once.
pub open spec fn orderly(recs: Seq<BundleRecordingView>) -> bool {
    &&& forall|i: int| 0 <= i < recs.len() ==> in_order(#[trigger] recs[i])
    &&& paths_differ(recs)
}

/// After a bundle's state is written onto a recording, the store holds that state:
/// the timeline and the annotations of the bundle, told in order.
pub proof fn applied_state_is_read_back(d: StoreView, id: i64, rec: BundleRecordingView)
    ensures
        ordered_rallies(state_applied(d, id, rec), id).map_values(carried_rally()) == sort_by(
            rec.rallies,
            drafts_by_start(),
        ),
        ordered_annotations(state_applied(d, id, rec), id).map_values(carried_annotation())
            == sort_by(rec.annotations, remarks_by_time()),
        state_matches(state_applied(d, id, rec), id, rec),
{
    let n = state_applied(d, id, rec);
    replaced_rallies_are_read_back(d.rallies, id, rec.rallies, id);
    replaced_annotations_are_read_back(d.annotations, id, rec.annotations, id);
    timeline_of_drafts(n, id);
    annotations_of_remarks(n, id);
    let o = ordered_rallies(n, id);
    let wanted = sort_by(rec.rallies, drafts_by_start());
    assert(o.map_values(carried_rally()).len() == o.len());
    assert forall|i: int| 0 <= i < o.len() implies same_rally(#[trigger] o[i], wanted[i]) by {
        assert(o.map_values(carried_rally())[i] == carried_rally()(o[i]));
    }
}

/// Writing a bundle's state onto a recording leaves the reviews of the others
/// alone.
pub proof fn applied_state_stays_on_its_recording(
    d: StoreView,
    id: i64,
    rec: BundleRecordingView,
    other: i64,
)
    requires
        other != id,
    ensures
        same_review(d, state_applied(d, id, rec), other),
{
    replaced_rallies_are_read_back(d.rallies, id, rec.rallies, other);
    replaced_annotations_are_read_back(d.annotations, id, rec.annotations, other);
}

/// What is stored under a key has an id of its own.
pub proof fn keys_have_own_ids(d: StoreView, kind: Seq<char>, a: Seq<char>, b: Seq<char>)
    requires
        d.wf(),
        a != b,
        d.id_at(kind, a) is Some,
        d.id_at(kind, b) is Some,
    ensures
        d.id_at(kind, a) != d.id_at(kind, b),
{
    first_found(d.recordings, recording_at(kind, a));
    first_found(d.recordings, recording_at(kind, b));
    let x = first(d.recordings, recording_at(kind, a))->0;
    let y = first(d.recordings, recording_at(kind, b))->0;
    let i = choose|i: int| 0 <= i < d.recordings.len() && d.recordings[i] == x;
    let j = choose|j: int| 0 <= j < d.recordings.len() && d.recordings[j] == y;
    if i < j {
        assert(d.recordings[i].id < d.recordings[j].id);
    } else if j < i {
        assert(d.recordings[j].id < d.recordings[i].id);
    }
}

/// Whether two stores hold the same of the shared library's recording at a path.
pub open spec fn same_at(a: StoreView, b: StoreView, path: Seq<char>) -> bool {
    &&& a.id_at("shared"@, path) == b.id_at("shared"@, path)
    &&& a.id_at("shared"@, path) matches Some(id) ==> same_review(a, b, id)
}

/// Applying one recording of a bundle leaves those at other paths alone.
proof fn taken_stays_at_its_path(d: StoreView, rec: BundleRecordingView, path: Seq<char>)
    requires
        d.wf(),
        path != rec.path,
        next_recording(d.recordings) <= i64::MAX,
    ensures
        same_at(d, taken(d, rec), path),
{
    let kind = "shared"@;
    let q = recording_at(kind, path);
    first_found(d.recordings, q);
    match d.id_at(kind, rec.path) {
        Some(id) => {
            first_rewritten(d.recordings, recording_with(id), received(rec), q);
            if let Some(other) = d.id_at(kind, path) {
                keys_have_own_ids(d, kind, path, rec.path);
                applied_state_stays_on_its_recording(d, id, rec, other);
            }
        },
        None => {
            let m = registered(
                d,
                kind,
                rec.path,
                rec.file_size,
                rec.quick_hash,
                rec.capture_day,
            );
            let id = next_recording(d.recordings) as i64;
            assert(m.recordings.drop_last() =~= d.recordings);
            first_rewritten(m.recordings, recording_with(id), received(rec), q);
            if let Some(other) = d.id_at(kind, path) {
                let x = first(d.recordings, q)->0;
                let i = choose|i: int| 0 <= i < d.recordings.len() && d.recordings[i] == x;
                if i < d.recordings.len() - 1 {
                    assert(d.recordings[i].id < d.recordings[d.recordings.len() - 1].id);
                }
                applied_state_stays_on_its_recording(m, id, rec, other);
            }
        },
    }
}

/// After one recording of a bundle is applied, the store holds its state at its
/// path.
proof fn taken_matches(d: StoreView, rec: BundleRecordingView)
    requires
        d.wf(),
        next_recording(d.recordings) <= i64::MAX,
    ensures
        taken(d, rec).id_at("shared"@, rec.path) matches Some(id) && state_matches(
            taken(d, rec),
            id,
            rec,
        ),
{
    let kind = "shared"@;
    let q = recording_at(kind, rec.path);
    match d.id_at(kind, rec.path) {
        Some(id) => {
            first_rewritten(d.recordings, recording_with(id), received(rec), q);
            applied_state_is_read_back(d, id, rec);
        },
        None => {
            let m = registered(
                d,
                kind,
                rec.path,
                rec.file_size,
                rec.quick_hash,
                rec.capture_day,
            );
            let id = next_recording(d.recordings) as i64;
            assert(m.recordings.drop_last() =~= d.recordings);
            assert(first(m.recordings, q) == Some(m.recordings.last()));
            first_rewritten(m.recordings, recording_with(id), received(rec), q);
            applied_state_is_read_back(m, id, rec);
        },
    }
}

/// The invariant and the room for ids on the way through a bundle.
proof fn prefix_fits(
    d: StoreView,
    library: Seq<char>,
    disk: Seq<DiskEntryView>,
    recs: Seq<BundleRecordingView>,
    i: int,
)
    requires
        d.wf(),
        0 <= i <= recs.len(),
        ids_fit(
            d,
            recs.len() as int,
            rally_total(recs) as int,
            annotation_total(recs) as int,
        ),
    ensures
        receive_all(d, library, disk, recs.take(i)).store.wf(),
        i < recs.len() ==> next_recording(
            receive_all(d, library, disk, recs.take(i)).store.recordings,
        ) <= i64::MAX,
{
    totals_ascend(recs, i);
    let n = recs.len() - i;
    receive_all_wf(
        d,
        library,
        disk,
        recs.take(i),
        n,
        rally_total(recs) - rally_total(recs.take(i)),
        annotation_total(recs) - annotation_total(recs.take(i)),
    );
    let e = receive_all(d, library, disk, recs.take(i)).store;
    if e.recordings.len() > 0 {
        assert(e.recordings[e.recordings.len() - 1].id < i64::MAX - n);
    }
}

/// Whether receiving can put a bundled recording into a store: its file is the one
/// described, and no hand touched what the store holds at its path.
pub open spec fn takeable(
    d: StoreView,
    library: Seq<char>,
    disk: Seq<DiskEntryView>,
    rec: BundleRecordingView,
) -> bool {
    &&& file_verified(disk, joined(library, rec.path), rec.quick_hash, rec.file_size)
    &&& d.id_at("shared"@, rec.path) matches Some(id) ==> !hand_touched(d, id)
}

/// Whether two recordings of a bundle carry the same review, told in order.
pub open spec fn same_state(a: BundleRecordingView, b: BundleRecordingView) -> bool {
    &&& sort_by(a.rallies, drafts_by_start()) == sort_by(b.rallies, drafts_by_start())
    &&& sort_by(a.annotations, remarks_by_time()) == sort_by(b.annotations, remarks_by_time())
}

/// Whether a bundle can be received again: where a path occurs again and is put
/// into the store, it was put in by the first and carries the same review.
pub open spec fn repeatable(
    d: StoreView,
    library: Seq<char>,
    disk: Seq<DiskEntryView>,
    recs: Seq<BundleRecordingView>,
) -> bool {
    forall|i: int, j: int|
        0 <= j < i < recs.len() && (#[trigger] recs[j]).path == (#[trigger] recs[i]).path
            && takeable(d, library, disk, recs[i]) ==> takeable(d, library, disk, recs[j])
            && same_state(recs[j], recs[i])
}

/// Whether every path of a bundle occurs once.
pub open spec fn paths_differ(recs: Seq<BundleRecordingView>) -> bool {
    forall|i: int, j: int|
        0 <= i < j < recs.len() ==> (#[trigger] recs[i]).path != (#[trigger] recs[j]).path
}

/// A bundle in which every path occurs once can be received again, whatever the
/// store and the disk hold.
pub proof fn bundles_of_different_paths_are_repeatable(
    d: StoreView,
    library: Seq<char>,
    disk: Seq<DiskEntryView>,
    recs: Seq<BundleRecordingView>,
)
    requires
        paths_differ(recs),
    ensures
        repeatable(d, library, disk, recs),
{
}

/// One more recording of a bundle received.
proof fn one_more(
    d: StoreView,
    library: Seq<char>,
    disk: Seq<DiskEntryView>,
    recs: Seq<BundleRecordingView>,
    i: int,
)
    requires
        0 <= i < recs.len(),
    ensures
        receive_all(d, library, disk, recs.take(i + 1)) == receive_one(
            receive_all(d, library, disk, recs.take(i)),
            library,
            disk,
            recs[i],
        ),
{
    assert(recs.take(i + 1).drop_last() =~= recs.take(i));
    assert(recs.take(i + 1).last() == recs[i]);
}

/// What comes first in a bundle leaves a recording alone that a hand touched.
proof fn touched_stays_at_its_path(
    d: StoreView,
    library: Seq<char>,
    disk: Seq<DiskEntryView>,
    recs: Seq<BundleRecordingView>,
    path: Seq<char>,
    i: int,
)
    requires
        d.wf(),
        0 <= i <= recs.len(),
        ids_fit(
            d,
            recs.len() as int,
            rally_total(recs) as int,
            annotation_total(recs) as int,
        ),
        d.id_at("shared"@, path) matches Some(id) && hand_touched(d, id),
    ensures
        same_at(d, receive_all(d, library, disk, recs.take(i)).store, path),
    decreases i,
{
    if i == 0 {
        assert(recs.take(0) =~= Seq::empty());
    } else {
        touched_stays_at_its_path(d, library, disk, recs, path, i - 1);
        one_more(d, library, disk, recs, i - 1);
        prefix_fits(d, library, disk, recs, i - 1);
        let e = receive_all(d, library, disk, recs.take(i - 1)).store;
        touch_shows_in_review(d, e, d.id_at("shared"@, path)->0);
        if recs[i - 1].path != path {
            taken_stays_at_its_path(e, recs[i - 1], path);
        }
    }
}

/// A recording that can be put into the store is held by it once it was received,
/// and neither refused nor a conflict.
proof fn taken_is_held(
    d: StoreView,
    library: Seq<char>,
    disk: Seq<DiskEntryView>,
    recs: Seq<BundleRecordingView>,
    i: int,
)
    requires
        d.wf(),
        repeatable(d, library, disk, recs),
        0 <= i < recs.len(),
        ids_fit(
            d,
            recs.len() as int,
            rally_total(recs) as int,
            annotation_total(recs) as int,
        ),
        takeable(d, library, disk, recs[i]),
    ensures
        ({
            let s = receive_all(d, library, disk, recs.take(i));
            let t = receive_all(d, library, disk, recs.take(i + 1));
            &&& t.store.id_at("shared"@, recs[i].path) matches Some(id) && state_matches(
                t.store,
                id,
                recs[i],
            )
            &&& t.conflicts == s.conflicts
            &&& t.refused == s.refused
        }),
    decreases i, 1nat,
{
    let rec = recs[i];
    let s = receive_all(d, library, disk, recs.take(i)).store;
    one_more(d, library, disk, recs, i);
    prefix_fits(d, library, disk, recs, i);
    taken_matches(s, rec);
    if exists|j: int| 0 <= j < i && (#[trigger] recs[j]).path == rec.path {
        let j = choose|j: int| 0 <= j < i && (#[trigger] recs[j]).path == rec.path;
        taken_is_held(d, library, disk, recs, j);
        rest_keeps(d, library, disk, recs, j, i);
        let t = receive_all(d, library, disk, recs.take(j + 1)).store;
        touch_shows_in_review(t, s, t.id_at("shared"@, rec.path)->0);
    } else {
        untouched_before(d, library, disk, recs, rec.path, i);
        if let Some(id) = d.id_at("shared"@, rec.path) {
            touch_shows_in_review(d, s, id);
        }
    }
}

/// What comes first in a bundle leaves the recordings at other paths alone.
proof fn untouched_before(
    d: StoreView,
    library: Seq<char>,
    disk: Seq<DiskEntryView>,
    recs: Seq<BundleRecordingView>,
    path: Seq<char>,
    i: int,
)
    requires
        d.wf(),
        0 <= i <= recs.len(),
        ids_fit(
            d,
            recs.len() as int,
            rally_total(recs) as int,
            annotation_total(recs) as int,
        ),
        forall|k: int| 0 <= k < i ==> (#[trigger] recs[k]).path != path,
    ensures
        same_at(d, receive_all(d, library, disk, recs.take(i)).store, path),
    decreases i,
{
    if i == 0 {
        assert(recs.take(0) =~= Seq::empty());
    } else {
        untouched_before(d, library, disk, recs, path, i - 1);
        one_more(d, library, disk, recs, i - 1);
        prefix_fits(d, library, disk, recs, i - 1);
        let e = receive_all(d, library, disk, recs.take(i - 1)).store;
        taken_stays_at_its_path(e, recs[i - 1], path);
    }
}

/// What comes behind a recording in a bundle leaves alone what the store then holds
/// at its path.
proof fn rest_keeps(
    d: StoreView,
    library: Seq<char>,
    disk: Seq<DiskEntryView>,
    recs: Seq<BundleRecordingView>,
    i: int,
    j: int,
)
    requires
        d.wf(),
        repeatable(d, library, disk, recs),
        0 <= i < j <= recs.len(),
        ids_fit(
            d,
            recs.len() as int,
            rally_total(recs) as int,
            annotation_total(recs) as int,
        ),
    ensures
        same_at(
            receive_all(d, library, disk, recs.take(i + 1)).store,
            receive_all(d, library, disk, recs.take(j)).store,
            recs[i].path,
        ),
    decreases j, 0nat,
{
    if i + 1 < j {
        let path = recs[i].path;
        let k = j - 1;
        rest_keeps(d, library, disk, recs, i, k);
        one_more(d, library, disk, recs, k);
        prefix_fits(d, library, disk, recs, k);
        let t = receive_all(d, library, disk, recs.take(i + 1)).store;
        let e = receive_all(d, library, disk, recs.take(k)).store;
        if recs[k].path != path {
            taken_stays_at_its_path(e, recs[k], path);
        } else if takeable(d, library, disk, recs[k]) {
            taken_is_held(d, library, disk, recs, i);
            touch_shows_in_review(t, e, t.id_at("shared"@, path)->0);
        } else if d.id_at("shared"@, path) matches Some(id) && hand_touched(d, id) {
            touched_stays_at_its_path(d, library, disk, recs, path, k);
            touch_shows_in_review(d, e, d.id_at("shared"@, path)->0);
        }
    }
}

/// Receiving a bundle again, the disk unchanged, changes nothing: what was applied
/// is found in place, and the same conflicts and refusals are reported. Left out
/// are bundles that list what they put into the store twice, with different reviews.
pub proof fn receiving_again_changes_nothing(
    d: StoreView,
    library: Seq<char>,
    disk: Seq<DiskEntryView>,
    recs: Seq<BundleRecordingView>,
)
    requires
        d.wf(),
        repeatable(d, library, disk, recs),
        ids_fit(
            d,
            recs.len() as int,
            rally_total(recs) as int,
            annotation_total(recs) as int,
        ),
    ensures
        receive_all(receive_all(d, library, disk, recs).store, library, disk, recs) == (Reception {
            applied: 0,
            ..receive_all(d, library, disk, recs)
        }),
{
    received_before(d, library, disk, recs, recs.len() as int);
    assert(recs.take(recs.len() as int) =~= recs);
}

/// Receiving the first recordings of a bundle again changes nothing.
proof fn received_before(
    d: StoreView,
    library: Seq<char>,
    disk: Seq<DiskEntryView>,
    recs: Seq<BundleRecordingView>,
    i: int,
)
    requires
        d.wf(),
        repeatable(d, library, disk, recs),
        0 <= i <= recs.len(),
        ids_fit(
            d,
            recs.len() as int,
            rally_total(recs) as int,
            annotation_total(recs) as int,
        ),
    ensures
        ({
            let r = receive_all(d, library, disk, recs).store;
            receive_all(r, library, disk, recs.take(i)) == (Reception {
                store: r,
                applied: 0,
                ..receive_all(d, library, disk, recs.take(i))
            })
        }),
    decreases i,
{
    let r = receive_all(d, library, disk, recs).store;
    assert(recs.take(recs.len() as int) =~= recs);
    if i == 0 {
        assert(recs.take(0) =~= Seq::empty());
    } else {
        let k = i - 1;
        received_before(d, library, disk, recs, k);
        one_more(d, library, disk, recs, k);
        one_more(r, library, disk, recs, k);
        let rec = recs[k];
        let s = receive_all(d, library, disk, recs.take(k)).store;
        let t = receive_all(d, library, disk, recs.take(i)).store;
        rest_keeps(d, library, disk, recs, k, recs.len() as int);
        assert(same_at(t, r, rec.path));
        if takeable(d, library, disk, rec) {
            taken_is_held(d, library, disk, recs, k);
            touch_shows_in_review(t, r, t.id_at("shared"@, rec.path)->0);
        } else {
            if d.id_at("shared"@, rec.path) matches Some(id) && hand_touched(d, id) {
                touched_stays_at_its_path(d, library, disk, recs, rec.path, k);
                touch_shows_in_review(d, s, d.id_at("shared"@, rec.path)->0);
            }
            assert(t == s);
            if let Some(id) = t.id_at("shared"@, rec.path) {
                touch_shows_in_review(t, r, id);
            }
        }
    }
}

/// Receiving a bundle never changes the review of a recording that a hand touched.
pub proof fn receiving_keeps_touched_reviews(
    d: StoreView,
    library: Seq<char>,
    disk: Seq<DiskEntryView>,
    recs: Seq<BundleRecordingView>,
    id: i64,
)
    requires
        d.wf(),
        hand_touched(d, id),
        ids_fit(
            d,
            recs.len() as int,
            rally_total(recs) as int,
            annotation_total(recs) as int,
        ),
    ensures
        same_review(d, receive_all(d, library, disk, recs).store, id),
{
    touched_is_kept(d, library, disk, recs, id, recs.len() as int);
    assert(recs.take(recs.len() as int) =~= recs);
}

/// A recording with a rally or an annotation is known.
pub proof fn touched_is_known(d: StoreView, id: i64)
    requires
        d.wf(),
        hand_touched(d, id),
    ensures
        any(d.recordings, recording_with(id)),
{
    if any(d.rallies, crate::timeline::touched_rally(id)) {
        let i = choose|i: int|
            0 <= i < d.rallies.len() && crate::timeline::touched_rally(id)(
                #[trigger] d.rallies[i],
            );
        assert(any(d.recordings, recording_with(d.rallies[i].recording_id)));
    } else {
        let i = choose|i: int|
            0 <= i < d.annotations.len() && annotations_of(id)(#[trigger] d.annotations[i]);
        assert(any(d.recordings, recording_with(d.annotations[i].recording_id)));
    }
}

/// The first recordings of a bundle leave a touched review alone.
proof fn touched_is_kept(
    d: StoreView,
    library: Seq<char>,
    disk: Seq<DiskEntryView>,
    recs: Seq<BundleRecordingView>,
    id: i64,
    i: int,
)
    requires
        d.wf(),
        hand_touched(d, id),
        0 <= i <= recs.len(),
        ids_fit(
            d,
            recs.len() as int,
            rally_total(recs) as int,
            annotation_total(recs) as int,
        ),
    ensures
        same_review(d, receive_all(d, library, disk, recs.take(i)).store, id),
    decreases i,
{
    if i == 0 {
        assert(recs.take(0) =~= Seq::empty());
    } else {
        touched_is_kept(d, library, disk, recs, id, i - 1);
        assert(recs.take(i).drop_last() =~= recs.take(i - 1));
        assert(recs.take(i).last() == recs[i - 1]);
        let rec = recs[i - 1];
        let e = receive_all(d, library, disk, recs.take(i - 1)).store;
        prefix_fits(d, library, disk, recs, i - 1);
        touch_shows_in_review(d, e, id);
        touched_is_known(e, id);
        match e.id_at("shared"@, rec.path) {
            Some(other) => {
                if other != id {
                    applied_state_stays_on_its_recording(e, other, rec, id);
                }
            },
            None => {
                let m = registered(
                    e,
                    "shared"@,
                    rec.path,
                    rec.file_size,
                    rec.quick_hash,
                    rec.capture_day,
                );
                let other = next_recording(e.recordings) as i64;
                let k = choose|k: int|
                    0 <= k < e.recordings.len() && recording_with(id)(#[trigger] e.recordings[k]);
                if k < e.recordings.len() - 1 {
                    assert(e.recordings[k].id < e.recordings[e.recordings.len() - 1].id);
                }
                applied_state_stays_on_its_recording(m, other, rec, id);
            },
        }
    }
}

/// A bundle is built in order: every timeline and every list of annotations is
/// sorted, and every recording occurs once.
pub proof fn built_bundles_are_orderly(d: StoreView, session_id: i64, label: Seq<char>)
    requires
        d.wf(),
    ensures
        session_bundle(d, session_id, label) matches Some(b) ==> orderly(b.recordings),
{
    if let Some(b) = session_bundle(d, session_id, label) {
        let own = d.recordings.filter(recordings_in(session_id));
        let rows = sort_by(own, by_path());
        let paths = |r: RecordingView| r.path;
        assert forall|i: int| 0 <= i < b.recordings.len() implies in_order(
            #[trigger] b.recordings[i],
        ) by {
            carried_is_in_order(d, rows[i]);
        }
        session_paths_differ(d, session_id);
        sort_by_permutes(own, by_path());
        own.lemma_multiset_has_no_duplicates();
        rows.lemma_multiset_has_no_duplicates_conv();
        sort_by_elements(own, by_path());
        assert forall|i: int, j: int| 0 <= i < j < b.recordings.len() implies (
        #[trigger] b.recordings[i]).path != (#[trigger] b.recordings[j]).path by {
            assert(rows[i] != rows[j]);
            assert(rows.contains(rows[i]) && rows.contains(rows[j]));
            assert(own.contains(rows[i]) && own.contains(rows[j]));
            let x = choose|x: int| 0 <= x < own.len() && own[x] == rows[i];
            let y = choose|y: int| 0 <= y < own.len() && own[y] == rows[j];
            assert(own[x].path != own[y].path);
        }
    }
}

/// The recordings of a session have different paths.
proof fn session_paths_differ(d: StoreView, session_id: i64)
    requires
        d.wf(),
    ensures
        d.recordings.filter(recordings_in(session_id)).no_duplicates(),
        forall|x: int, y: int|
            0 <= x < d.recordings.filter(recordings_in(session_id)).len() && 0 <= y
                < d.recordings.filter(recordings_in(session_id)).len() && x != y ==> (
            #[trigger] d.recordings.filter(recordings_in(session_id))[x]).path != (
            #[trigger] d.recordings.filter(recordings_in(session_id))[y]).path,
{
    let s = d.recordings;
    let p = recordings_in(session_id);
    let own = s.filter(p);
    let r = |a: RecordingView, b: RecordingView|
        a.session_id == b.session_id ==> a.path != b.path;
    assert forall|i: int, j: int| 0 <= i < j < s.len() implies r(
        #[trigger] s[i],
        #[trigger] s[j],
    ) by {
        if s[i].session_id == s[j].session_id {
            assert(any(d.sessions, home_of(s[i])) && any(d.sessions, home_of(s[j])));
            let a = choose|a: int| 0 <= a < d.sessions.len() && home_of(s[i])(#[trigger] d.sessions[a]);
            let b = choose|b: int| 0 <= b < d.sessions.len() && home_of(s[j])(#[trigger] d.sessions[b]);
            if a < b {
                assert(d.sessions[a].id < d.sessions[b].id);
            } else if b < a {
                assert(d.sessions[b].id < d.sessions[a].id);
            }
        }
    }
    crate::table::filter_ordered(s, p, r);
    filter_elements(s, p);
    assert forall|x: int, y: int| 0 <= x < own.len() && 0 <= y < own.len() && x != y implies (
    #[trigger] own[x]).path != (#[trigger] own[y]).path by {
        assert(p(own[x]) && p(own[y]));
        if x < y {
            assert(r(own[x], own[y]));
        } else {
            assert(r(own[y], own[x]));
        }
    }
}

/// What a session's review holds of a recording is what its recipient reads after
/// taking it: the same timeline, annotations, duration and waveform, ready to
/// play.
pub proof fn shared_review_arrives(sharer: StoreView, row: RecordingView, recipient: StoreView)
    requires
        recipient.wf(),
        next_recording(recipient.recordings) <= i64::MAX,
    ensures
        ({
            let sent = carried_recording(sharer)(row);
            let after = taken(recipient, sent);
            &&& first(after.recordings, recording_at("shared"@, row.path)) matches Some(got)
            &&& {
                let back = carried_recording(after)(got);
                &&& back.path == sent.path
                &&& back.rallies == sent.rallies
                &&& back.annotations == sent.annotations
                &&& back.duration_ms == sent.duration_ms
                &&& back.waveform == sent.waveform
                &&& got.probe_state == "ready"@
                &&& got.segment_state == "ready"@
            }
        }),
{
    let sent = carried_recording(sharer)(row);
    let kind = "shared"@;
    let q = recording_at(kind, row.path);
    carried_is_in_order(sharer, row);
    sort_by_kept(sent.rallies, drafts_by_start());
    sort_by_kept(sent.annotations, remarks_by_time());
    peaks_are_numbers(row.waveform);
    waveform_is_read_back(sent.waveform);
    first_found(recipient.recordings, q);
    match recipient.id_at(kind, row.path) {
        Some(id) => {
            first_rewritten(recipient.recordings, recording_with(id), received(sent), q);
            applied_state_is_read_back(recipient, id, sent);
        },
        None => {
            let m = registered(
                recipient,
                kind,
                row.path,
                sent.file_size,
                sent.quick_hash,
                sent.capture_day,
            );
            let id = next_recording(recipient.recordings) as i64;
            assert(m.recordings.drop_last() =~= recipient.recordings);
            assert(first(m.recordings, q) == Some(m.recordings.last()));
            first_rewritten(m.recordings, recording_with(id), received(sent), q);
            applied_state_is_read_back(m, id, sent);
        },
    }
}

/// What a recording contributes to a bundle is in order.
proof fn carried_is_in_order(d: StoreView, row: RecordingView)
    ensures
        in_order(carried_recording(d)(row)),
{
    let id = row.id;
    timelines_are_in_order(d, id);
    let o = ordered_rallies(d, id);
    let a = ordered_annotations(d, id);
    let rec = carried_recording(d)(row);
    assert forall|x: int, y: int| 0 <= x < y < rec.rallies.len() implies !drafts_by_start()(
        #[trigger] rec.rallies[y],
        #[trigger] rec.rallies[x],
    ) by {
        assert(!by_start()(o[y], o[x]));
    }
    assert forall|x: int, y: int| 0 <= x < y < rec.annotations.len() implies !remarks_by_time()(
        #[trigger] rec.annotations[y],
        #[trigger] rec.annotations[x],
    ) by {
        assert(!by_time()(a[y], a[x]));
    }
}

/// A device's own bundles are never offered to it, nor held against its analysis.
pub proof fn own_bundles_are_never_offered(d: StoreView, f: BundleFileView, path: Seq<char>)
    requires
        f.content matches Some(b) && d.meta_value("sharer_label"@) == Some(b.sharer_label),
    ensures
        offer_of(d)(f) is None,
        summary_of(d)(f) is None,
        !offers_path(d, path)(f),
{
}

/// A bundle that was dealt with is offered again exactly when its file changes,
/// and then as an update.
pub proof fn changed_bundles_are_offered_again(d: StoreView, f: BundleFileView, stamp: FileStamp)
    requires
        foreign_bundle(d, f),
        ledger_entry(d, f) == Some(signature_of(stamp)),
    ensures
        offer_of(d)(f) is None <==> f.stamp == Some(stamp),
        offer_of(d)(f) matches Some(o) ==> o.is_update,
{
    if signature_of(f.stamp->0) == signature_of(stamp) {
        signatures_tell_changes(f.stamp->0, stamp);
    }
}

/// A recording that a pending offer covers is neither probed nor segmented.
pub proof fn covered_recordings_wait(d: StoreView, files: Seq<BundleFileView>)
    ensures
        next_work(d, files) matches Some(WorkView::Probe(id, _)) ==> exists|k: int|
            0 <= k < d.recordings.len() && (#[trigger] d.recordings[k]).id == id && !covered(
                d,
                files,
                d.recordings[k].path,
            ),
        next_work(d, files) matches Some(WorkView::Segment(id, _)) ==> exists|k: int|
            0 <= k < d.recordings.len() && (#[trigger] d.recordings[k]).id == id && !covered(
                d,
                files,
                d.recordings[k].path,
            ),
{
    let kind = d.active_kind();
    first_found(d.recordings, unprobed(d, files, kind));
    first_found(d.recordings, unsegmented_in(d, files, kind));
    if let Some(r) = first(d.recordings, unprobed(d, files, kind)) {
        let k = choose|k: int| 0 <= k < d.recordings.len() && d.recordings[k] == r;
        assert(d.recordings[k].id == r.id);
    }
    if let Some(r) = first(d.recordings, unsegmented_in(d, files, kind)) {
        let k = choose|k: int| 0 <= k < d.recordings.len() && d.recordings[k] == r;
        assert(d.recordings[k].id == r.id);
    }
}

/// The order of paths is an order.
proof fn by_path_is_order()
    ensures
        is_order(by_path()),
{
    let b = by_path();
    assert forall|x: RecordingView, y: RecordingView| #[trigger] b(x, y) implies !b(y, x) by {
        before_one_way(x.path, y.path);
    }
    assert forall|x: RecordingView, y: RecordingView, z: RecordingView|
        !#[trigger] b(x, y) && !#[trigger] b(y, z) implies !b(x, z) by {
        not_before_is_carried(x.path, y.path, z.path);
    }
}

/// Whether a store holds, in order, just the recordings of a bundle, in one session
/// of the shared library, each with the review that it was sent with.
spec fn holds_bundle(n: StoreView, session: i64, recs: Seq<BundleRecordingView>) -> bool {
    &&& n.recordings.len() == recs.len()
    &&& forall|j: int|
        0 <= j < recs.len() ==> (#[trigger] n.recordings[j]).session_id == session
            && carried_recording(n)(n.recordings[j]) == recs[j]
}

/// A recording that is not known and whose file is verified is put in behind those
/// that are there, as it was sent.
proof fn fresh_recording_arrives(
    sharer: StoreView,
    row: RecordingView,
    n: StoreView,
    session: i64,
    recs: Seq<BundleRecordingView>,
)
    requires
        n.wf(),
        next_recording(n.recordings) <= i64::MAX,
        holds_bundle(n, session, recs),
        session == session_id_on(n.sessions, "shared"@, row.capture_day),
        !any(n.recordings, recording_at("shared"@, row.path)),
    ensures
        ({
            let rec = carried_recording(sharer)(row);
            let t = taken(n, rec);
            &&& holds_bundle(t, session, recs.push(rec))
            &&& t.sessions == with_session(n.sessions, "shared"@, row.capture_day)
        }),
{
    let rec = carried_recording(sharer)(row);
    let kind = "shared"@;
    let id = next_recording(n.recordings) as i64;
    let m = registered(n, kind, rec.path, rec.file_size, rec.quick_hash, rec.capture_day);
    let t = taken(n, rec);
    first_found(n.recordings, recording_at(kind, rec.path));
    assert(t == state_applied(m, id, rec));
    carried_is_in_order(sharer, row);
    sort_by_kept(rec.rallies, drafts_by_start());
    sort_by_kept(rec.annotations, remarks_by_time());
    peaks_are_numbers(row.waveform);
    waveform_is_read_back(rec.waveform);
    applied_state_is_read_back(m, id, rec);
    let k = n.recordings.len() as int;
    assert forall|j: int| 0 <= j < k implies (#[trigger] n.recordings[j]).id < id by {
        if j < k - 1 {
            assert(n.recordings[j].id < n.recordings[k - 1].id);
        }
    }
    assert(t.recordings[k] == received(rec)(m.recordings[k]));
    let all = recs.push(rec);
    assert forall|j: int| 0 <= j < all.len() implies (#[trigger] t.recordings[j]).session_id
        == session && carried_recording(t)(t.recordings[j]) == all[j] by {
        if j < k {
            assert(n.recordings[j].id < id);
            assert(t.recordings[j] == n.recordings[j]);
            applied_state_stays_on_its_recording(m, id, rec, n.recordings[j].id);
            touch_shows_in_review(m, t, n.recordings[j].id);
            assert(ordered_rallies(m, n.recordings[j].id) == ordered_rallies(
                n,
                n.recordings[j].id,
            ));
            assert(carried_recording(n)(n.recordings[j]) == recs[j]);
        } else {
            assert(carried_recording(t)(t.recordings[k]) =~= rec);
        }
    }
}

/// What an empty shared library holds after some recordings of a session arrived.
proof fn session_arrives(
    sharer: StoreView,
    rows: Seq<RecordingView>,
    day: Seq<char>,
    e: StoreView,
    library: Seq<char>,
    disk: Seq<DiskEntryView>,
    i: int,
)
    requires
        e.wf(),
        e.recordings.len() == 0,
        0 <= i <= rows.len(),
        forall|j: int| 0 <= j < rows.len() ==> (#[trigger] rows[j]).capture_day == day,
        paths_differ(rows.map_values(carried_recording(sharer))),
        ids_fit(
            e,
            rows.len() as int,
            rally_total(rows.map_values(carried_recording(sharer))) as int,
            annotation_total(rows.map_values(carried_recording(sharer))) as int,
        ),
        forall|j: int|
            0 <= j < rows.len() ==> file_verified(
                disk,
                joined(library, (#[trigger] rows[j]).path),
                rows[j].quick_hash,
                rows[j].file_size,
            ),
    ensures
        ({
            let recs = rows.map_values(carried_recording(sharer));
            let n = receive_all(e, library, disk, recs.take(i)).store;
            &&& holds_bundle(n, session_id_on(e.sessions, "shared"@, day), recs.take(i))
            &&& n.sessions == (if i == 0 {
                e.sessions
            } else {
                with_session(e.sessions, "shared"@, day)
            })
        }),
    decreases i,
{
    let recs = rows.map_values(carried_recording(sharer));
    let kind = "shared"@;
    let session = session_id_on(e.sessions, kind, day);
    if i == 0 {
        assert(recs.take(0) =~= Seq::empty());
    } else {
        session_arrives(sharer, rows, day, e, library, disk, i - 1);
        one_more(e, library, disk, recs, i - 1);
        prefix_fits(e, library, disk, recs, i - 1);
        let n = receive_all(e, library, disk, recs.take(i - 1)).store;
        let row = rows[i - 1];
        assert(recs[i - 1] == carried_recording(sharer)(row));
        session_is_there(e.sessions, kind, day);
        assert(with_session(n.sessions, kind, day) == with_session(e.sessions, kind, day));
        assert(!any(n.recordings, recording_at(kind, row.path))) by {
            if any(n.recordings, recording_at(kind, row.path)) {
                let j = choose|j: int|
                    0 <= j < n.recordings.len() && recording_at(kind, row.path)(
                        #[trigger] n.recordings[j],
                    );
                assert(carried_recording(n)(n.recordings[j]) == recs.take(i - 1)[j]);
                assert(recs[j].path != recs[i - 1].path);
            }
        }
        first_found(n.recordings, recording_at(kind, row.path));
        fresh_recording_arrives(sharer, row, n, session, recs.take(i - 1));
        assert(recs.take(i - 1).push(recs[i - 1]) =~= recs.take(i));
    }
}

/// A bundle comes back as it was sent: a shared library without recordings that
/// receives the bundle of a session, its files all there, builds the same bundle of
/// the session that it then holds. The recordings of the session are of its day.
pub proof fn bundles_come_back(
    sharer: StoreView,
    session_id: i64,
    label: Seq<char>,
    b: SessionBundleView,
    e: StoreView,
    library: Seq<char>,
    disk: Seq<DiskEntryView>,
)
    requires
        sharer.wf(),
        session_bundle(sharer, session_id, label) == Some(b),
        b.recordings.len() > 0,
        forall|j: int|
            0 <= j < b.recordings.len() ==> (#[trigger] b.recordings[j]).capture_day
                == b.capture_day,
        e.wf(),
        e.recordings.len() == 0,
        ids_fit(
            e,
            b.recordings.len() as int,
            rally_total(b.recordings) as int,
            annotation_total(b.recordings) as int,
        ),
        forall|j: int|
            0 <= j < b.recordings.len() ==> file_verified(
                disk,
                joined(library, (#[trigger] b.recordings[j]).path),
                b.recordings[j].quick_hash,
                b.recordings[j].file_size,
            ),
    ensures
        session_bundle(
            receive_all(e, library, disk, b.recordings).store,
            session_id_on(e.sessions, "shared"@, b.capture_day),
            label,
        ) == Some(b),
{
    let kind = "shared"@;
    let day = b.capture_day;
    let own = sharer.recordings.filter(recordings_in(session_id));
    let rows = sort_by(own, by_path());
    let recs = b.recordings;
    assert(recs == rows.map_values(carried_recording(sharer)));
    built_bundles_are_orderly(sharer, session_id, label);
    assert forall|j: int| 0 <= j < rows.len() implies (#[trigger] rows[j]).capture_day == day
        && file_verified(
        disk,
        joined(library, rows[j].path),
        rows[j].quick_hash,
        rows[j].file_size,
    ) by {
        assert(recs[j] == carried_recording(sharer)(rows[j]));
    }
    session_arrives(sharer, rows, day, e, library, disk, recs.len() as int);
    assert(recs.take(recs.len() as int) =~= recs);
    let n = receive_all(e, library, disk, recs).store;
    let session = session_id_on(e.sessions, kind, day);
    prefix_fits(e, library, disk, recs, recs.len() as int);
    // The session of the day is the first one with its id.
    let q = session_on(kind, day);
    session_is_there(e.sessions, kind, day);
    first_found(n.sessions, q);
    let home = first(n.sessions, q)->0;
    let at = choose|s: int| 0 <= s < n.sessions.len() && n.sessions[s] == home;
    let w = crate::annotations::session_with(session);
    assert(w(n.sessions[at]));
    first_found(n.sessions, w);
    let found = first(n.sessions, w)->0;
    let f = choose|s: int| 0 <= s < n.sessions.len() && n.sessions[s] == found;
    if f < at {
        assert(n.sessions[f].id < n.sessions[at].id);
    } else if at < f {
        assert(n.sessions[at].id < n.sessions[f].id);
    }
    // All recordings are in it, in the order of their paths.
    let p = recordings_in(session);
    assert forall|j: int| 0 <= j < n.recordings.len() implies p(#[trigger] n.recordings[j]) by {}
    filter_keeps_all(n.recordings, p);
    by_path_is_order();
    sort_by_sorted(own, by_path());
    assert(is_sorted(n.recordings, by_path())) by {
        assert forall|x: int, y: int| 0 <= x < y < n.recordings.len() implies !by_path()(
            #[trigger] n.recordings[y],
            #[trigger] n.recordings[x],
        ) by {
            assert(carried_recording(n)(n.recordings[x]) == recs[x]);
            assert(carried_recording(n)(n.recordings[y]) == recs[y]);
            assert(recs[x] == carried_recording(sharer)(rows[x]));
            assert(recs[y] == carried_recording(sharer)(rows[y]));
            assert(!by_path()(rows[y], rows[x]));
        }
    }
    sort_by_kept(n.recordings, by_path());
    assert(n.recordings.map_values(carried_recording(n)) =~= recs);
}

/// Taking the bundle's side settles a conflict: the recording's review is then
/// exactly the bundle's, and receiving the bundle no longer reports its path as a
/// conflict, nor changes the review.
pub proof fn taking_theirs_settles_the_conflict(
    d: StoreView,
    library: Seq<char>,
    disk: Seq<DiskEntryView>,
    recs: Seq<BundleRecordingView>,
    id: i64,
    i: int,
)
    requires
        0 <= i < recs.len(),
        d.id_at("shared"@, recs[i].path) == Some(id),
        state_applied(d, id, recs[i]).wf(),
        paths_differ(recs),
        ids_fit(
            state_applied(d, id, recs[i]),
            recs.len() as int,
            rally_total(recs) as int,
            annotation_total(recs) as int,
        ),
    ensures
        ({
            let n = state_applied(d, id, recs[i]);
            let again = receive_all(n, library, disk, recs);
            &&& ordered_rallies(n, id).map_values(carried_rally()) == sort_by(
                recs[i].rallies,
                drafts_by_start(),
            )
            &&& ordered_annotations(n, id).map_values(carried_annotation()) == sort_by(
                recs[i].annotations,
                remarks_by_time(),
            )
            &&& !again.conflicts.contains(recs[i].path)
            &&& same_at(n, again.store, recs[i].path)
        }),
{
    applied_state_is_read_back(d, id, recs[i]);
    first_rewritten(
        d.recordings,
        recording_with(id),
        received(recs[i]),
        recording_at("shared"@, recs[i].path),
    );
    settled_stays(state_applied(d, id, recs[i]), library, disk, recs, id, i, recs.len() as int);
    assert(recs.take(recs.len() as int) =~= recs);
}

/// A recording that already holds what a bundle carries stays as it is while the
/// first recordings of the bundle are received, and is no conflict.
proof fn settled_stays(
    n: StoreView,
    library: Seq<char>,
    disk: Seq<DiskEntryView>,
    recs: Seq<BundleRecordingView>,
    id: i64,
    i: int,
    j: int,
)
    requires
        n.wf(),
        0 <= i < recs.len(),
        0 <= j <= recs.len(),
        paths_differ(recs),
        n.id_at("shared"@, recs[i].path) == Some(id),
        state_matches(n, id, recs[i]),
        ids_fit(
            n,
            recs.len() as int,
            rally_total(recs) as int,
            annotation_total(recs) as int,
        ),
    ensures
        same_at(n, receive_all(n, library, disk, recs.take(j)).store, recs[i].path),
        !receive_all(n, library, disk, recs.take(j)).conflicts.contains(recs[i].path),
    decreases j,
{
    if j == 0 {
        assert(recs.take(0) =~= Seq::empty());
    } else {
        let k = j - 1;
        settled_stays(n, library, disk, recs, id, i, k);
        one_more(n, library, disk, recs, k);
        prefix_fits(n, library, disk, recs, k);
        let s = receive_all(n, library, disk, recs.take(k));
        let t = receive_all(n, library, disk, recs.take(j));
        touch_shows_in_review(n, s.store, id);
        if k != i {
            assert(recs[k].path != recs[i].path) by {
                if k < i {
                    assert(recs[k].path != recs[i].path);
                } else {
                    assert(recs[i].path != recs[k].path);
                }
            }
            taken_stays_at_its_path(s.store, recs[k], recs[i].path);
            if t.conflicts.contains(recs[i].path) {
                let c = choose|c: int|
                    0 <= c < t.conflicts.len() && t.conflicts[c] == recs[i].path;
                if c < s.conflicts.len() {
                    assert(s.conflicts[c] == recs[i].path);
                }
            }
        } else {
            assert(t == s);
        }
    }
}

/// Whether a timeline is one that a bundle carries: as many rallies, and in the order of
/// their starts each with the same start, the same end and the same flag, and with a
/// confidence that differs by no more than a millionth.
pub open spec fn carries_rallies(t: Seq<RallyView>, rallies: Seq<Draft>) -> bool {
    exists|w: Seq<Draft>|
        {
            &&& #[trigger] w.to_multiset() == rallies.to_multiset()
            &&& w.len() == rallies.len()
            &&& w.len() == t.len()
            &&& forall|i: int, j: int| 0 <= i < j < w.len() ==> w[i].start_ms <= w[j].start_ms
            &&& forall|k: int|
                0 <= k < t.len() ==> {
                    &&& (#[trigger] t[k]).start_ms == w[k].start_ms
                    &&& t[k].end_ms == w[k].end_ms
                    &&& t[k].flagged == w[k].flagged
                    &&& -1_000 <= t[k].confidence - w[k].confidence <= 1_000
                }
        }
}

/// Whether annotations are those that a bundle carries, in the order of their moments.
pub open spec fn carries_annotations(t: Seq<AnnotationView>, remarks: Seq<RemarkView>) -> bool {
    exists|w: Seq<RemarkView>|
        {
            &&& #[trigger] w.to_multiset() == remarks.to_multiset()
            &&& w.len() == remarks.len()
            &&& w.len() == t.len()
            &&& forall|i: int, j: int| 0 <= i < j < w.len() ==> w[i].time_ms <= w[j].time_ms
            &&& forall|k: int|
                0 <= k < t.len() ==> {
                    &&& (#[trigger] t[k]).time_ms == w[k].time_ms
                    &&& t[k].verdict == w[k].verdict
                    &&& t[k].aspect == w[k].aspect
                    &&& t[k].note == w[k].note
                }
        }
}

/// Whether the store tells of a recording what a bundle carries.
pub open spec fn tells_review(d: StoreView, id: i64, rec: BundleRecordingView) -> bool {
    carries_rallies(ordered_rallies(d, id), rec.rallies) && carries_annotations(
        ordered_annotations(d, id),
        rec.annotations,
    )
}

/// A state that counts as the bundle's is the bundle's.
pub proof fn matching_states_tell_the_same(d: StoreView, id: i64, rec: BundleRecordingView)
    requires
        state_matches(d, id, rec),
    ensures
        tells_review(d, id, rec),
{
    let w = sort_by(rec.rallies, drafts_by_start());
    let v = sort_by(rec.annotations, remarks_by_time());
    let t = ordered_rallies(d, id);
    let a = ordered_annotations(d, id);
    sort_by_permutes(rec.rallies, drafts_by_start());
    sort_by_permutes(rec.annotations, remarks_by_time());
    sort_by_len(rec.rallies, drafts_by_start());
    sort_by_len(rec.annotations, remarks_by_time());
    assert(is_order(drafts_by_start()));
    assert(is_order(remarks_by_time()));
    sort_by_sorted(rec.rallies, drafts_by_start());
    sort_by_sorted(rec.annotations, remarks_by_time());
    assert forall|i: int, j: int| 0 <= i < j < w.len() implies w[i].start_ms
        <= w[j].start_ms by {
        assert(!drafts_by_start()(w[j], w[i]));
    }
    assert forall|i: int, j: int| 0 <= i < j < v.len() implies v[i].time_ms <= v[j].time_ms by {
        assert(!remarks_by_time()(v[j], v[i]));
    }
    assert forall|k: int| 0 <= k < t.len() implies {
        &&& (#[trigger] t[k]).start_ms == w[k].start_ms
        &&& t[k].end_ms == w[k].end_ms
        &&& t[k].flagged == w[k].flagged
        &&& -1_000 <= t[k].confidence - w[k].confidence <= 1_000
    } by {
        assert(same_rally(t[k], w[k]));
    }
    assert(a.map_values(carried_annotation()) == v);
    assert(a.len() == v.len());
    assert forall|k: int| 0 <= k < a.len() implies {
        &&& (#[trigger] a[k]).time_ms == v[k].time_ms
        &&& a[k].verdict == v[k].verdict
        &&& a[k].aspect == v[k].aspect
        &&& a[k].note == v[k].note
    } by {
        assert(a.map_values(carried_annotation())[k] == v[k]);
    }
}

/// What was reported stays reported.
proof fn reports_stay(
    d: StoreView,
    library: Seq<char>,
    disk: Seq<DiskEntryView>,
    recs: Seq<BundleRecordingView>,
    i: int,
    j: int,
)
    requires
        0 <= i <= j <= recs.len(),
    ensures
        ({
            let s = receive_all(d, library, disk, recs.take(i));
            let t = receive_all(d, library, disk, recs.take(j));
            &&& s.conflicts.len() <= t.conflicts.len()
            &&& forall|k: int|
                0 <= k < s.conflicts.len() ==> #[trigger] t.conflicts[k] == s.conflicts[k]
            &&& s.refused.len() <= t.refused.len()
            &&& forall|k: int| 0 <= k < s.refused.len() ==> #[trigger] t.refused[k] == s.refused[k]
        }),
    decreases j - i,
{
    if i < j {
        reports_stay(d, library, disk, recs, i, j - 1);
        one_more(d, library, disk, recs, j - 1);
    }
}

/// Whether a path is among the refusals of a receive.
pub open spec fn is_refused(r: Reception, path: Seq<char>) -> bool {
    exists|k: int| 0 <= k < r.refused.len() && (#[trigger] r.refused[k]).path == path
}

/// After a bundle of different paths is received, every recording of it that is neither
/// a conflict nor refused reads back with exactly the timeline and the annotations that
/// the bundle carries.
pub proof fn received_bundles_read_back(
    d: StoreView,
    library: Seq<char>,
    disk: Seq<DiskEntryView>,
    recs: Seq<BundleRecordingView>,
    i: int,
)
    requires
        d.wf(),
        paths_differ(recs),
        ids_fit(
            d,
            recs.len() as int,
            rally_total(recs) as int,
            annotation_total(recs) as int,
        ),
        0 <= i < recs.len(),
        ({
            let r = receive_all(d, library, disk, recs);
            !r.conflicts.contains(recs[i].path) && !is_refused(r, joined(library, recs[i].path))
        }),
    ensures
        ({
            let n = receive_all(d, library, disk, recs).store;
            n.id_at("shared"@, recs[i].path) matches Some(id) && tells_review(n, id, recs[i])
        }),
{
    let rec = recs[i];
    let len = recs.len() as int;
    let s = receive_all(d, library, disk, recs.take(i));
    let t = receive_all(d, library, disk, recs.take(i + 1));
    let r = receive_all(d, library, disk, recs);
    assert(recs.take(len) =~= recs);
    one_more(d, library, disk, recs, i);
    prefix_fits(d, library, disk, recs, i);
    reports_stay(d, library, disk, recs, i + 1, len);
    if t.conflicts.len() > s.conflicts.len() {
        let k = t.conflicts.len() - 1;
        assert(t.conflicts[k] == rec.path);
        assert(r.conflicts[k] == t.conflicts[k]);
        assert(r.conflicts.contains(rec.path));
    }
    if t.refused.len() > s.refused.len() {
        let k = t.refused.len() - 1;
        assert(t.refused[k].path == joined(library, rec.path));
        assert(r.refused[k] == t.refused[k]);
        assert(is_refused(r, joined(library, rec.path)));
    }
    taken_matches(s.store, rec);
    let id = t.store.id_at("shared"@, rec.path)->0;
    assert(t.store.id_at("shared"@, rec.path) is Some && state_matches(t.store, id, rec));
    bundles_of_different_paths_are_repeatable(d, library, disk, recs);
    rest_keeps(d, library, disk, recs, i, len);
    touch_shows_in_review(t.store, r.store, id);
    assert(state_matches(r.store, id, rec));
    matching_states_tell_the_same(r.store, id, rec);
}

/// A recording that a hand touched and that does not read as the bundle has it is a
/// conflict, and stays as it was.
pub proof fn differing_touched_reviews_are_conflicts(
    d: StoreView,
    library: Seq<char>,
    disk: Seq<DiskEntryView>,
    recs: Seq<BundleRecordingView>,
    i: int,
    id: i64,
)
    requires
        d.wf(),
        paths_differ(recs),
        ids_fit(
            d,
            recs.len() as int,
            rally_total(recs) as int,
            annotation_total(recs) as int,
        ),
        0 <= i < recs.len(),
        d.id_at("shared"@, recs[i].path) == Some(id),
        hand_touched(d, id),
        !tells_review(d, id, recs[i]),
    ensures
        ({
            let r = receive_all(d, library, disk, recs);
            &&& r.conflicts.contains(recs[i].path)
            &&& same_at(d, r.store, recs[i].path)
        }),
{
    let rec = recs[i];
    let len = recs.len() as int;
    let s = receive_all(d, library, disk, recs.take(i));
    let t = receive_all(d, library, disk, recs.take(i + 1));
    let r = receive_all(d, library, disk, recs);
    assert(recs.take(len) =~= recs);
    one_more(d, library, disk, recs, i);
    touched_stays_at_its_path(d, library, disk, recs, rec.path, i);
    touched_stays_at_its_path(d, library, disk, recs, rec.path, len);
    touch_shows_in_review(d, s.store, id);
    if state_matches(s.store, id, rec) {
        matching_states_tell_the_same(s.store, id, rec);
    }
    reports_stay(d, library, disk, recs, i + 1, len);
    let k = t.conflicts.len() - 1;
    assert(t.conflicts[k] == rec.path);
    assert(r.conflicts[k] == t.conflicts[k]);
}

/// A recording that no hand touched, or that is not known yet, and whose file is the one
/// described, reads as the bundle has it once the bundle is received: it is neither
/// refused nor a conflict.
pub proof fn machine_only_reviews_are_replaced(
    d: StoreView,
    library: Seq<char>,
    disk: Seq<DiskEntryView>,
    recs: Seq<BundleRecordingView>,
    i: int,
)
    requires
        d.wf(),
        paths_differ(recs),
        ids_fit(
            d,
            recs.len() as int,
            rally_total(recs) as int,
            annotation_total(recs) as int,
        ),
        0 <= i < recs.len(),
        takeable(d, library, disk, recs[i]),
    ensures
        ({
            let n = receive_all(d, library, disk, recs).store;
            n.id_at("shared"@, recs[i].path) matches Some(id) && tells_review(n, id, recs[i])
        }),
{
    let rec = recs[i];
    let len = recs.len() as int;
    let t = receive_all(d, library, disk, recs.take(i + 1));
    let r = receive_all(d, library, disk, recs);
    assert(recs.take(len) =~= recs);
    bundles_of_different_paths_are_repeatable(d, library, disk, recs);
    taken_is_held(d, library, disk, recs, i);
    rest_keeps(d, library, disk, recs, i, len);
    let id = t.store.id_at("shared"@, rec.path)->0;
    touch_shows_in_review(t.store, r.store, id);
    matching_states_tell_the_same(r.store, id, rec);
}

} // verus!
