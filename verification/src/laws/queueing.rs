//! The queue, row by row: which recording is worked on next and for what, what is staged,
//! and what a reset leaves.
use vstd::prelude::*;

use crate::annotations::recording_within;
use crate::offers::{covered, BundleFileView};
use crate::path::joined;
use crate::store::{rallies_not_of, RallyView, RecordingView, StoreView};
use crate::table::{any, filter_elements, first, first_found};
use crate::timeline::{hand_touched, row_at};
use crate::work::{
    all_reset, awaiting, fresh_rallies, next_work, pending_of, rallies_outside, segmentation_reset,
    stale, stale_requeued, stale_with, undated, unprobed, unsegmented_in, PendingView, WorkView,
};
use crate::worker::{action_for, staging_failed, ActionView};

verus! {

/// Whether the date of a recording of the active library is not read yet.
pub open spec fn date_is_open(d: StoreView, r: RecordingView) -> bool {
    r.library == d.active_kind() && r.date_state == "unknown"@
}

/// Whether a recording of the active library is not probed yet, and no offer covers it.
pub open spec fn probe_is_open(d: StoreView, files: Seq<BundleFileView>, r: RecordingView) -> bool {
    r.library == d.active_kind() && r.probe_state == "unknown"@ && !covered(d, files, r.path)
}

/// Whether a recording of the active library was found readable and is not segmented yet,
/// and no offer covers it.
pub open spec fn segment_is_open(
    d: StoreView,
    files: Seq<BundleFileView>,
    r: RecordingView,
) -> bool {
    r.library == d.active_kind() && r.probe_state == "ready"@ && r.segment_state == "unknown"@
        && !covered(d, files, r.path)
}

/// The first match in a sequence.
proof fn first_is_first<A>(s: Seq<A>, p: spec_fn(A) -> bool)
    requires
        first(s, p) is Some,
    ensures
        exists|k: int|
            0 <= k < s.len() && #[trigger] s[k] == first(s, p)->0 && p(s[k]) && forall|j: int|
                0 <= j < k ==> !p(#[trigger] s[j]),
    decreases s.len(),
{
    let t = s.drop_last();
    if first(t, p) is Some {
        first_is_first(t, p);
        let k = choose|k: int|
            0 <= k < t.len() && #[trigger] t[k] == first(t, p)->0 && p(t[k]) && forall|j: int|
                0 <= j < k ==> !p(#[trigger] t[j]);
        assert(s[k] == t[k]);
        assert forall|j: int| 0 <= j < k implies !p(#[trigger] s[j]) by {
            assert(t[j] == s[j]);
        }
    } else {
        first_found(t, p);
        let k = s.len() - 1;
        assert(s[k] == s.last());
        assert forall|j: int| 0 <= j < k implies !p(#[trigger] s[j]) by {
            assert(t[j] == s[j]);
        }
    }
}

/// The next unit of work is of the first recording with an open date; where no date is
/// open, the probe of the first one to probe; where nothing is to probe either, the
/// segmentation of the first one to segment; and there is none where nothing is open or
/// the active library is not designated. It names the recording and its place.
pub proof fn work_goes_by_what_is_open(d: StoreView, files: Seq<BundleFileView>)
    ensures
        ({
            let open_date = exists|i: int|
                0 <= i < d.recordings.len() && date_is_open(d, #[trigger] d.recordings[i]);
            let open_probe = exists|i: int|
                0 <= i < d.recordings.len() && probe_is_open(d, files, #[trigger] d.recordings[i]);
            let open_segment = exists|i: int|
                0 <= i < d.recordings.len() && segment_is_open(
                    d,
                    files,
                    #[trigger] d.recordings[i],
                );
            match d.library_path_of(d.active_kind()) {
                None => next_work(d, files) is None,
                Some(folder) => if open_date {
                    exists|k: int|
                        0 <= k < d.recordings.len() && date_is_open(d, #[trigger] d.recordings[k])
                            && (forall|j: int|
                            0 <= j < k ==> !date_is_open(d, #[trigger] d.recordings[j]))
                            && next_work(d, files) == Some(
                            WorkView::CaptureDate(
                                d.recordings[k].id,
                                joined(folder, d.recordings[k].path),
                            ),
                        )
                } else if open_probe {
                    exists|k: int|
                        0 <= k < d.recordings.len() && probe_is_open(
                            d,
                            files,
                            #[trigger] d.recordings[k],
                        ) && (forall|j: int|
                            0 <= j < k ==> !probe_is_open(d, files, #[trigger] d.recordings[j]))
                            && next_work(d, files) == Some(
                            WorkView::Probe(
                                d.recordings[k].id,
                                joined(folder, d.recordings[k].path),
                            ),
                        )
                } else if open_segment {
                    exists|k: int|
                        0 <= k < d.recordings.len() && segment_is_open(
                            d,
                            files,
                            #[trigger] d.recordings[k],
                        ) && (forall|j: int|
                            0 <= j < k ==> !segment_is_open(d, files, #[trigger] d.recordings[j]))
                            && next_work(d, files) == Some(
                            WorkView::Segment(
                                d.recordings[k].id,
                                joined(folder, d.recordings[k].path),
                            ),
                        )
                } else {
                    next_work(d, files) is None
                },
            }
        }),
{
    let kind = d.active_kind();
    let a = undated(kind);
    let b = unprobed(d, files, kind);
    let c = unsegmented_in(d, files, kind);
    let s = d.recordings;
    assert forall|r: RecordingView| #[trigger] a(r) == date_is_open(d, r) by {}
    assert forall|r: RecordingView| #[trigger] b(r) == probe_is_open(d, files, r) by {}
    assert forall|r: RecordingView| #[trigger] c(r) == segment_is_open(d, files, r) by {}
    first_found(s, a);
    first_found(s, b);
    first_found(s, c);
    if exists|i: int| 0 <= i < s.len() && date_is_open(d, #[trigger] s[i]) {
        let i = choose|i: int| 0 <= i < s.len() && date_is_open(d, #[trigger] s[i]);
        assert(a(s[i]));
        first_is_first(s, a);
        let k = choose|k: int|
            0 <= k < s.len() && #[trigger] s[k] == first(s, a)->0 && a(s[k]) && forall|j: int|
                0 <= j < k ==> !a(#[trigger] s[j]);
        assert(date_is_open(d, s[k]));
        assert forall|j: int| 0 <= j < k implies !date_is_open(d, #[trigger] s[j]) by {
            assert(!a(s[j]));
        }
    } else {
        assert(!any(s, a)) by {
            assert forall|i: int| 0 <= i < s.len() implies !a(#[trigger] s[i]) by {
                assert(!date_is_open(d, s[i]));
            }
        }
        if exists|i: int| 0 <= i < s.len() && probe_is_open(d, files, #[trigger] s[i]) {
            let i = choose|i: int| 0 <= i < s.len() && probe_is_open(d, files, #[trigger] s[i]);
            assert(b(s[i]));
            first_is_first(s, b);
            let k = choose|k: int|
                0 <= k < s.len() && #[trigger] s[k] == first(s, b)->0 && b(s[k]) && forall|j: int|
                    0 <= j < k ==> !b(#[trigger] s[j]);
            assert(probe_is_open(d, files, s[k]));
            assert forall|j: int| 0 <= j < k implies !probe_is_open(
                d,
                files,
                #[trigger] s[j],
            ) by {
                assert(!b(s[j]));
            }
        } else {
            assert(!any(s, b)) by {
                assert forall|i: int| 0 <= i < s.len() implies !b(#[trigger] s[i]) by {
                    assert(!probe_is_open(d, files, s[i]));
                }
            }
            if exists|i: int| 0 <= i < s.len() && segment_is_open(d, files, #[trigger] s[i]) {
                let i = choose|i: int|
                    0 <= i < s.len() && segment_is_open(d, files, #[trigger] s[i]);
                assert(c(s[i]));
                first_is_first(s, c);
                let k = choose|k: int|
                    0 <= k < s.len() && #[trigger] s[k] == first(s, c)->0 && c(s[k])
                        && forall|j: int| 0 <= j < k ==> !c(#[trigger] s[j]);
                assert(segment_is_open(d, files, s[k]));
                assert forall|j: int| 0 <= j < k implies !segment_is_open(
                    d,
                    files,
                    #[trigger] s[j],
                ) by {
                    assert(!c(s[j]));
                }
            } else {
                assert(!any(s, c)) by {
                    assert forall|i: int| 0 <= i < s.len() implies !c(#[trigger] s[i]) by {
                        assert(!segment_is_open(d, files, s[i]));
                    }
                }
            }
        }
    }
}

/// Whether an entry of the batch tells a recording and what is left to do for it.
pub open spec fn tells_pending(folder: Seq<char>, p: PendingView, r: RecordingView) -> bool {
    &&& p.id == r.id
    &&& p.path == joined(folder, r.path)
    &&& p.needs_probe == (r.probe_state == "unknown"@)
    &&& p.needs_segment == (r.segment_state == "unknown"@)
}

/// Whether an entry of the batch tells a recording that something is open for.
pub open spec fn tells_open_one(
    d: StoreView,
    files: Seq<BundleFileView>,
    folder: Seq<char>,
    p: PendingView,
) -> bool {
    exists|k: int|
        0 <= k < d.recordings.len() && tells_pending(folder, p, #[trigger] d.recordings[k]) && (
        probe_is_open(d, files, d.recordings[k]) || segment_is_open(d, files, d.recordings[k]))
}

/// Whether a recording is told in a batch.
pub open spec fn told_in(t: Seq<PendingView>, folder: Seq<char>, r: RecordingView) -> bool {
    exists|i: int| 0 <= i < t.len() && tells_pending(folder, #[trigger] t[i], r)
}

/// The batch to be staged holds exactly the recordings that a probe or a segmentation is
/// open for, each with what is left to do.
pub proof fn batches_hold_what_is_open(
    d: StoreView,
    files: Seq<BundleFileView>,
    folder: Seq<char>,
)
    ensures
        ({
            let t = d.recordings.filter(awaiting(d, files, d.active_kind())).map_values(
                pending_of(folder),
            );
            &&& forall|i: int|
                0 <= i < t.len() ==> tells_open_one(d, files, folder, #[trigger] t[i])
            &&& forall|k: int|
                0 <= k < d.recordings.len() && (probe_is_open(d, files, d.recordings[k])
                    || segment_is_open(d, files, d.recordings[k])) ==> told_in(
                    t,
                    folder,
                    #[trigger] d.recordings[k],
                )
        }),
{
    let p = awaiting(d, files, d.active_kind());
    let own = d.recordings.filter(p);
    let t = own.map_values(pending_of(folder));
    filter_elements(d.recordings, p);
    assert forall|r: RecordingView| #[trigger] p(r) == (probe_is_open(d, files, r)
        || segment_is_open(d, files, r)) by {}
    assert forall|i: int| 0 <= i < t.len() implies tells_open_one(
        d,
        files,
        folder,
        #[trigger] t[i],
    ) by {
        assert(p(own[i]) && d.recordings.contains(own[i]));
        let k = choose|k: int| 0 <= k < d.recordings.len() && d.recordings[k] == own[i];
        assert(tells_pending(folder, t[i], d.recordings[k]));
    }
    assert forall|k: int|
        0 <= k < d.recordings.len() && (probe_is_open(d, files, d.recordings[k])
            || segment_is_open(d, files, d.recordings[k])) implies told_in(
        t,
        folder,
        #[trigger] d.recordings[k],
    ) by {
        assert(p(d.recordings[k]));
        let i = choose|i: int| 0 <= i < own.len() && own[i] == d.recordings[k];
        assert(tells_pending(folder, t[i], d.recordings[k]));
    }
}

/// On a network mount whatever reads whole files is staged first; capture dates are read
/// in place everywhere, and without work the worker stops.
pub proof fn network_files_are_staged(id: i64, path: Seq<char>, network: bool)
    ensures
        action_for(None, network) == ActionView::Stop,
        action_for(Some(WorkView::CaptureDate(id, path)), network) == ActionView::RefineDate(
            id,
            path,
        ),
        action_for(Some(WorkView::Probe(id, path)), true) == ActionView::StageBatch,
        action_for(Some(WorkView::Segment(id, path)), true) == ActionView::StageBatch,
        action_for(Some(WorkView::Probe(id, path)), false) == ActionView::Probe(id, path),
        action_for(Some(WorkView::Segment(id, path)), false) == ActionView::Segment(id, path),
{
}

/// A recording that could not be staged counts as failed in the phase that it needed
/// next, and nothing else of it or of another changes.
pub proof fn unstaged_recordings_fail_their_next_phase(
    d: StoreView,
    needs_probe: bool,
    id: i64,
    k: int,
)
    requires
        0 <= k < d.recordings.len(),
    ensures
        ({
            let n = staging_failed(d, needs_probe, id);
            let r = d.recordings[k];
            &&& n.recordings.len() == d.recordings.len()
            &&& n.rallies == d.rallies && n.annotations == d.annotations
            &&& n.recordings[k] == (if r.id != id {
                r
            } else if needs_probe {
                RecordingView { probe_state: "failed"@, ..r }
            } else {
                RecordingView { segment_state: "failed"@, ..r }
            })
        }),
{
}

/// A recording without a draft that waits to be segmented.
pub open spec fn without_draft(r: RecordingView) -> RecordingView {
    RecordingView { segment_state: "unknown"@, duration_ms: None, waveform: None, ..r }
}

/// Resetting a recording drops its rallies and its draft and queues it again; other
/// recordings keep theirs, and annotations stay.
pub proof fn resets_drop_one_draft(d: StoreView, path: Seq<char>, row: RecordingView)
    requires
        row_at(d, path) == Some(row),
    ensures
        ({
            let n = segmentation_reset(d, path);
            &&& forall|r: RallyView|
                #[trigger] n.rallies.contains(r) <==> d.rallies.contains(r) && r.recording_id
                    != row.id
            &&& n.recordings.len() == d.recordings.len()
            &&& forall|k: int|
                0 <= k < d.recordings.len() ==> #[trigger] n.recordings[k] == (if d.recordings[k].id
                    == row.id {
                    without_draft(d.recordings[k])
                } else {
                    d.recordings[k]
                })
            &&& n.annotations == d.annotations
        }),
{
    let p = rallies_not_of(row.id);
    let n = segmentation_reset(d, path);
    filter_elements(d.rallies, p);
    assert forall|r: RallyView| #[trigger] n.rallies.contains(r) <==> d.rallies.contains(r)
        && r.recording_id != row.id by {
        if n.rallies.contains(r) {
            let i = choose|i: int| 0 <= i < n.rallies.len() && n.rallies[i] == r;
            assert(p(n.rallies[i]));
        }
        if d.rallies.contains(r) && r.recording_id != row.id {
            let k = choose|k: int| 0 <= k < d.rallies.len() && d.rallies[k] == r;
            assert(p(d.rallies[k]));
        }
    }
}

/// Whether a rally is one of a recording of a library.
pub open spec fn rally_within(d: StoreView, kind: Seq<char>, r: RallyView) -> bool {
    exists|k: int|
        0 <= k < d.recordings.len() && (#[trigger] d.recordings[k]).id == r.recording_id
            && d.recordings[k].library == kind
}

/// Resetting a library drops the rallies and the drafts of all its recordings and queues
/// them again; those of the other library stay, and so do annotations.
pub proof fn resets_drop_every_draft_of_the_library(d: StoreView, kind: Seq<char>)
    ensures
        ({
            let n = all_reset(d, kind);
            &&& forall|r: RallyView|
                #[trigger] n.rallies.contains(r) <==> d.rallies.contains(r) && !rally_within(
                    d,
                    kind,
                    r,
                )
            &&& n.recordings.len() == d.recordings.len()
            &&& forall|k: int|
                0 <= k < d.recordings.len() ==> #[trigger] n.recordings[k] == (
                if d.recordings[k].library == kind {
                    without_draft(d.recordings[k])
                } else {
                    d.recordings[k]
                })
            &&& n.annotations == d.annotations
        }),
{
    let p = rallies_outside(d, kind);
    let n = all_reset(d, kind);
    filter_elements(d.rallies, p);
    assert forall|r: RallyView| #[trigger] p(r) == !rally_within(d, kind, r) by {
        let w = recording_within(kind, r.recording_id);
        if any(d.recordings, w) {
            let k = choose|k: int| 0 <= k < d.recordings.len() && w(#[trigger] d.recordings[k]);
            assert(d.recordings[k].id == r.recording_id && d.recordings[k].library == kind);
        }
        if rally_within(d, kind, r) {
            let k = choose|k: int|
                0 <= k < d.recordings.len() && (#[trigger] d.recordings[k]).id == r.recording_id
                    && d.recordings[k].library == kind;
            assert(w(d.recordings[k]));
        }
    }
    assert forall|r: RallyView| #[trigger] n.rallies.contains(r) <==> d.rallies.contains(r)
        && !rally_within(d, kind, r) by {
        if n.rallies.contains(r) {
            let i = choose|i: int| 0 <= i < n.rallies.len() && n.rallies[i] == r;
            assert(p(n.rallies[i]));
        }
        if d.rallies.contains(r) && !rally_within(d, kind, r) {
            let k = choose|k: int| 0 <= k < d.rallies.len() && d.rallies[k] == r;
            assert(p(d.rallies[k]));
        }
    }
}

/// Whether a recording has a draft that a newer segmenter would redo: of the library, with
/// the stamp of an older one, and untouched by hand.
pub open spec fn to_be_redone(d: StoreView, kind: Seq<char>, r: RecordingView) -> bool {
    &&& r.library == kind
    &&& r.segment_state == "ready"@
    &&& r.segmenter_version is Some
    &&& r.segmenter_version->0 < 1
    &&& !hand_touched(d, r.id)
}

/// Queueing stale drafts again drops exactly the drafts of an older segmenter that no
/// hand touched, with their rallies, and leaves every other recording as it is.
pub proof fn only_older_untouched_drafts_are_redone(d: StoreView, kind: Seq<char>, k: int)
    requires
        d.wf(),
        0 <= k < d.recordings.len(),
    ensures
        ({
            let n = stale_requeued(d, kind);
            let r = d.recordings[k];
            &&& n.recordings.len() == d.recordings.len()
            &&& n.recordings[k] == (if to_be_redone(d, kind, r) {
                without_draft(r)
            } else {
                r
            })
            &&& forall|x: RallyView|
                x.recording_id == r.id ==> (#[trigger] n.rallies.contains(x)
                    <==> d.rallies.contains(x) && !to_be_redone(d, kind, r))
            &&& n.annotations == d.annotations
        }),
{
    let n = stale_requeued(d, kind);
    let r = d.recordings[k];
    let p = fresh_rallies(d, kind);
    filter_elements(d.rallies, p);
    assert(stale(d, kind)(r) == to_be_redone(d, kind, r));
    assert(any(d.recordings, stale_with(d, kind, r.id)) == to_be_redone(d, kind, r)) by {
        let q = stale_with(d, kind, r.id);
        if to_be_redone(d, kind, r) {
            assert(q(d.recordings[k]));
        }
        if any(d.recordings, q) {
            let j = choose|j: int| 0 <= j < d.recordings.len() && q(#[trigger] d.recordings[j]);
            if j < k {
                assert(d.recordings[j].id < d.recordings[k].id);
            } else if k < j {
                assert(d.recordings[k].id < d.recordings[j].id);
            }
        }
    }
    assert forall|x: RallyView| x.recording_id == r.id implies (#[trigger] n.rallies.contains(x)
        <==> d.rallies.contains(x) && !to_be_redone(d, kind, r)) by {
        if n.rallies.contains(x) {
            let i = choose|i: int| 0 <= i < n.rallies.len() && n.rallies[i] == x;
            assert(p(n.rallies[i]));
        }
        if d.rallies.contains(x) && !to_be_redone(d, kind, r) {
            let j = choose|j: int| 0 <= j < d.rallies.len() && d.rallies[j] == x;
            assert(p(d.rallies[j]));
        }
    }
}

} // verus!
