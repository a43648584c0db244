//! The background work: every unit that is done shrinks the queue, so the worker
//! comes to an end.
use vstd::prelude::*;

use crate::capture_day::{dated, refined};
use crate::grouping::session_id_on;
use crate::offers::BundleFileView;
use crate::segment::Rally;
use crate::store::{recording_with, RecordingView, StoreView};
use crate::table::{any, first, first_found, rewrite};
use crate::work::{
    awaiting, draft_saved, next_work, probed, rallies_saved, segmented, undated, unprobed,
    unsegmented_in, WorkView,
};
use crate::worker::{probe_outcome, staging_failed};

verus! {

/// How many phases are still open for a recording.
pub open spec fn open_phases(r: RecordingView) -> nat {
    (if r.date_state == "unknown"@ {
        1nat
    } else {
        0
    }) + (if r.probe_state == "unknown"@ {
        1nat
    } else {
        0
    }) + (if r.segment_state == "unknown"@ {
        1nat
    } else {
        0
    })
}

/// How many phases are still open for some recordings.
pub open spec fn work_left(s: Seq<RecordingView>) -> nat
    decreases s.len(),
{
    if s.len() == 0 {
        0
    } else {
        work_left(s.drop_last()) + open_phases(s.last())
    }
}

/// Whether a store is what the worker leaves after a unit of work: a recording
/// dated, found readable or not, drafted, or not to be segmented.
pub open spec fn done(d: StoreView, w: WorkView, n: StoreView) -> bool {
    match w {
        WorkView::CaptureDate(id, _) => exists|day: Seq<char>| n == #[trigger] refined(d, id, day),
        WorkView::Probe(id, _) => exists|readable: bool|
            n.recordings == rewrite(
                d.recordings,
                recording_with(id),
                probed(#[trigger] probe_outcome(readable)),
            ),
        WorkView::Segment(id, _) => {
            ||| n.recordings == rewrite(d.recordings, recording_with(id), segmented("failed"@))
            ||| exists|duration_ms: i64, rallies: Seq<Rally>, waveform: Seq<Seq<char>>|
                n == #[trigger] rallies_saved(d, id, duration_ms, rallies, waveform)
        },
    }
}

/// A rewrite that opens no phase leaves no more work.
proof fn rewrite_opens_nothing(
    s: Seq<RecordingView>,
    p: spec_fn(RecordingView) -> bool,
    f: spec_fn(RecordingView) -> RecordingView,
)
    requires
        forall|r: RecordingView| #[trigger] p(r) ==> open_phases(f(r)) <= open_phases(r),
    ensures
        work_left(rewrite(s, p, f)) <= work_left(s),
    decreases s.len(),
{
    let t = rewrite(s, p, f);
    if s.len() > 0 {
        rewrite_opens_nothing(s.drop_last(), p, f);
        assert(t.drop_last() =~= rewrite(s.drop_last(), p, f));
        assert(p(s.last()) ==> open_phases(f(s.last())) <= open_phases(s.last()));
    }
}

/// One that closes a phase besides leaves less.
proof fn rewrite_closes_a_phase(
    s: Seq<RecordingView>,
    p: spec_fn(RecordingView) -> bool,
    f: spec_fn(RecordingView) -> RecordingView,
    i: int,
)
    requires
        forall|r: RecordingView| #[trigger] p(r) ==> open_phases(f(r)) <= open_phases(r),
        0 <= i < s.len(),
        p(s[i]),
        open_phases(f(s[i])) < open_phases(s[i]),
    ensures
        work_left(rewrite(s, p, f)) < work_left(s),
    decreases s.len(),
{
    let t = rewrite(s, p, f);
    let less = s.drop_last();
    assert(t.drop_last() =~= rewrite(less, p, f));
    assert(p(s.last()) ==> open_phases(f(s.last())) <= open_phases(s.last()));
    if i < less.len() {
        rewrite_closes_a_phase(less, p, f, i);
    } else {
        rewrite_opens_nothing(less, p, f);
    }
}

/// The states that a finished phase leaves are not open ones.
proof fn finished_is_not_open()
    ensures
        "refined"@ != "unknown"@,
        "ready"@ != "unknown"@,
        "failed"@ != "unknown"@,
        "failed"@ != "ready"@,
{
    reveal_strlit("refined");
    reveal_strlit("ready");
    reveal_strlit("failed");
    reveal_strlit("unknown");
    assert("refined"@[0] != "unknown"@[0]);
    assert("ready"@[0] != "unknown"@[0]);
    assert("failed"@[0] != "unknown"@[0]);
    assert("failed"@[0] != "ready"@[0]);
}

/// The first recording of a kind that is looked for, and where it is.
proof fn first_at(s: Seq<RecordingView>, p: spec_fn(RecordingView) -> bool) -> (i: int)
    requires
        first(s, p) is Some,
    ensures
        0 <= i < s.len(),
        first(s, p) == Some(s[i]),
        p(s[i]),
        recording_with(s[i].id)(s[i]),
{
    first_found(s, p);
    let r = first(s, p)->0;
    choose|i: int| 0 <= i < s.len() && s[i] == r
}

/// Every unit of work that the worker is given and does leaves less work than
/// before, whatever its outcome: a failure counts as done. So a worker that takes
/// one unit after another comes to an end.
pub proof fn done_work_shrinks_the_queue(
    d: StoreView,
    files: Seq<BundleFileView>,
    w: WorkView,
    n: StoreView,
)
    requires
        next_work(d, files) == Some(w),
        done(d, w, n),
    ensures
        work_left(n.recordings) < work_left(d.recordings),
{
    finished_is_not_open();
    let kind = d.active_kind();
    match w {
        WorkView::CaptureDate(id, _) => {
            let i = first_at(d.recordings, undated(kind));
            let day = choose|day: Seq<char>| n == #[trigger] refined(d, id, day);
            first_found(d.recordings, recording_with(id));
            assert(any(d.recordings, recording_with(id))) by {
                assert(recording_with(id)(d.recordings[i]));
            }
            let row = first(d.recordings, recording_with(id))->0;
            let session = session_id_on(d.sessions, row.library, day);
            rewrite_closes_a_phase(d.recordings, recording_with(id), dated(day, session), i);
        },
        WorkView::Probe(id, _) => {
            let i = first_at(d.recordings, unprobed(d, files, kind));
            let readable = choose|readable: bool|
                n.recordings == rewrite(
                    d.recordings,
                    recording_with(id),
                    probed(#[trigger] probe_outcome(readable)),
                );
            rewrite_closes_a_phase(
                d.recordings,
                recording_with(id),
                probed(probe_outcome(readable)),
                i,
            );
        },
        WorkView::Segment(id, _) => {
            let i = first_at(d.recordings, unsegmented_in(d, files, kind));
            if n.recordings == rewrite(d.recordings, recording_with(id), segmented("failed"@)) {
                rewrite_closes_a_phase(d.recordings, recording_with(id), segmented("failed"@), i);
            } else {
                let (duration_ms, rallies, waveform) = choose|
                    duration_ms: i64,
                    rallies: Seq<Rally>,
                    waveform: Seq<Seq<char>>,
                |
                    n == #[trigger] rallies_saved(d, id, duration_ms, rallies, waveform);
                rewrite_closes_a_phase(
                    d.recordings,
                    recording_with(id),
                    draft_saved(duration_ms, waveform),
                    i,
                );
            }
        },
    }
}

/// Where no phase is open, the worker has nothing to do.
pub proof fn finished_libraries_rest(d: StoreView, files: Seq<BundleFileView>)
    requires
        work_left(d.recordings) == 0,
    ensures
        next_work(d, files) is None,
{
    let kind = d.active_kind();
    if let Some(w) = next_work(d, files) {
        let p = match w {
            WorkView::CaptureDate(_, _) => undated(kind),
            WorkView::Probe(_, _) => unprobed(d, files, kind),
            WorkView::Segment(_, _) => unsegmented_in(d, files, kind),
        };
        let i = first_at(d.recordings, p);
        open_counts(d.recordings, i);
    }
}

/// A recording's open phases are among the work left.
proof fn open_counts(s: Seq<RecordingView>, i: int)
    requires
        0 <= i < s.len(),
    ensures
        open_phases(s[i]) <= work_left(s),
    decreases s.len(),
{
    if i < s.len() - 1 {
        open_counts(s.drop_last(), i);
        assert(s.drop_last()[i] == s[i]);
    }
}

/// Where the worker is given a probe or a segmentation, the batch that would be
/// staged in its place holds a recording; and one of the batch that cannot be
/// staged leaves less work, so that staging comes to an end too.
pub proof fn staged_batches_shrink_the_queue(
    d: StoreView,
    files: Seq<BundleFileView>,
    i: int,
)
    ensures
        next_work(d, files) matches Some(w) && !(w is CaptureDate) ==> any(
            d.recordings,
            awaiting(d, files, d.active_kind()),
        ),
        0 <= i < d.recordings.len() && awaiting(d, files, d.active_kind())(d.recordings[i])
            ==> work_left(
            staging_failed(
                d,
                d.recordings[i].probe_state == "unknown"@,
                d.recordings[i].id,
            ).recordings,
        ) < work_left(d.recordings),
{
    finished_is_not_open();
    let kind = d.active_kind();
    let p = awaiting(d, files, kind);
    if let Some(w) = next_work(d, files) {
        if w is Probe {
            let k = first_at(d.recordings, unprobed(d, files, kind));
            assert(p(d.recordings[k]));
        } else if w is Segment {
            let k = first_at(d.recordings, unsegmented_in(d, files, kind));
            assert(p(d.recordings[k]));
        }
    }
    if 0 <= i < d.recordings.len() && p(d.recordings[i]) {
        let r = d.recordings[i];
        if r.probe_state == "unknown"@ {
            rewrite_closes_a_phase(d.recordings, recording_with(r.id), probed("failed"@), i);
        } else {
            rewrite_closes_a_phase(d.recordings, recording_with(r.id), segmented("failed"@), i);
        }
    }
}

/// Phases come in order: a probe is given out when every capture day is settled,
/// and a segmentation when besides nothing is left to probe, of a recording that
/// was found readable.
pub proof fn phases_come_in_order(d: StoreView, files: Seq<BundleFileView>)
    ensures
        next_work(d, files) matches Some(w) && !(w is CaptureDate) ==> !any(
            d.recordings,
            undated(d.active_kind()),
        ),
        next_work(d, files) matches Some(WorkView::Segment(id, _)) ==> !any(
            d.recordings,
            unprobed(d, files, d.active_kind()),
        ) && exists|k: int|
            0 <= k < d.recordings.len() && (#[trigger] d.recordings[k]).id == id
                && d.recordings[k].probe_state == "ready"@,
{
    let kind = d.active_kind();
    first_found(d.recordings, undated(kind));
    first_found(d.recordings, unprobed(d, files, kind));
    if let Some(w) = next_work(d, files) {
        if w is Segment {
            let k = first_at(d.recordings, unsegmented_in(d, files, kind));
            assert(d.recordings[k].probe_state == "ready"@);
        }
    }
}

} // verus!
