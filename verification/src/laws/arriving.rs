//! What arrives: recordings of a bundle that were not known, recordings of another library,
//! offers for every pair of copies, and what a score counts.
use vstd::prelude::*;

use crate::bundle::{received, BundleRecordingView};
use crate::carry::{all_offers, offer_between, offers_from, offers_with, CarryView};
use crate::disk::DiskEntryView;
use crate::eval::{is_score_of, miss_count, overlapping, Interval, Score};
use crate::grouping::{other_sessions, registered, session_is_there, with_session};
use crate::laws::scoring::{is_met, overlap_counts_shared_time, share_time};
use crate::library::{adopted, adoption_collides, key_taken};
use crate::receive::taken;
use crate::scan::rehomed;
use crate::store::{
    next_recording, recording_with, recordings_in, session_on, RecordingView, StoreView,
};
use crate::table::{any, filter_elements, filter_map_elements, first, first_found, rewrite};

verus! {

/// A recording of a bundle that the shared library does not know yet arrives as a new one
/// of it: under its key, with the content and the day that the bundle tells, in the session
/// of that day, and playable at once. Every other recording stays as it is.
pub proof fn unknown_recordings_arrive_as_described(d: StoreView, rec: BundleRecordingView)
    requires
        d.wf(),
        d.id_at("shared"@, rec.path) is None,
        next_recording(d.recordings) <= i64::MAX,
    ensures
        ({
            let n = taken(d, rec);
            let r = n.recordings.last();
            &&& n.recordings.len() == d.recordings.len() + 1
            &&& n.recordings.drop_last() == d.recordings
            &&& r.library == "shared"@
            &&& r.path == rec.path
            &&& r.quick_hash == rec.quick_hash
            &&& r.file_size == rec.file_size
            &&& r.capture_day == rec.capture_day
            &&& r.probe_state == "ready"@ && r.segment_state == "ready"@
            &&& r.duration_ms == rec.duration_ms
            &&& !r.outside
            &&& exists|k: int|
                0 <= k < n.sessions.len() && (#[trigger] n.sessions[k]).id == r.session_id
                    && n.sessions[k].library == "shared"@ && n.sessions[k].capture_day
                    == rec.capture_day
        }),
{
    let n = taken(d, rec);
    let kind = "shared"@;
    let day = rec.capture_day;
    let m = registered(d, kind, rec.path, rec.file_size, rec.quick_hash, day);
    let id = next_recording(d.recordings) as i64;
    let s = m.recordings;
    assert(n.recordings == rewrite(s, recording_with(id), received(rec)));
    assert forall|k: int| 0 <= k < d.recordings.len() implies n.recordings[k]
        == d.recordings[k] by {
        assert(s[k] == d.recordings[k]);
        if k < d.recordings.len() - 1 {
            assert(d.recordings[k].id < d.recordings[d.recordings.len() - 1].id);
        }
    }
    assert(n.recordings.drop_last() =~= d.recordings);
    session_is_there(d.sessions, kind, day);
    let q = session_on(kind, day);
    first_found(n.sessions, q);
    let x = first(n.sessions, q)->0;
    let k = choose|k: int| 0 <= k < n.sessions.len() && n.sessions[k] == x;
    assert(n.sessions[k].capture_day == day);
}

/// A recording that moves into another library leaves its session, which goes exactly where
/// no recording is left in it; it belongs to the session of its own day in the new library,
/// and every other session stays.
pub proof fn moved_recordings_change_their_session(
    d: StoreView,
    k: int,
    kind: Seq<char>,
    rel: Seq<char>,
)
    requires
        d.wf(),
        0 <= k < d.recordings.len(),
        d.recordings[k].library != kind,
    ensures
        ({
            let row = d.recordings[k];
            let n = rehomed(d, row.id, kind, rel);
            let r = n.recordings[k];
            &&& r.library == kind && r.path == rel && r.capture_day == row.capture_day
            &&& n.rallies == d.rallies && n.annotations == d.annotations
            &&& exists|s: int|
                0 <= s < n.sessions.len() && (#[trigger] n.sessions[s]).id == r.session_id
                    && n.sessions[s].library == kind && n.sessions[s].capture_day
                    == row.capture_day
            &&& forall|s: int|
                0 <= s < d.sessions.len() && (#[trigger] d.sessions[s]).id != row.session_id
                    ==> n.sessions.contains(d.sessions[s])
            &&& row.session_id != r.session_id ==> ((exists|s: int|
                0 <= s < n.sessions.len() && (#[trigger] n.sessions[s]).id == row.session_id)
                ==> exists|j: int|
                0 <= j < n.recordings.len() && (#[trigger] n.recordings[j]).session_id
                    == row.session_id)
        }),
{
    let row = d.recordings[k];
    let day = row.capture_day;
    let p = recording_with(row.id);
    assert forall|j: int| 0 <= j < k implies !p(#[trigger] d.recordings[j]) by {
        assert(d.recordings[j].id < d.recordings[k].id);
    }
    crate::table::first_is(d.recordings, p, k);
    let n = rehomed(d, row.id, kind, rel);
    let t = with_session(d.sessions, kind, day);
    let q = session_on(kind, day);
    session_is_there(d.sessions, kind, day);
    first_found(t, q);
    let x = first(t, q)->0;
    let a = choose|a: int| 0 <= a < t.len() && t[a] == x;
    let r = n.recordings[k];
    assert(r.session_id == x.id);
    let o = other_sessions(row.session_id);
    filter_elements(t, o);
    if row.session_id != r.session_id {
        assert(o(t[a]));
        if !any(n.recordings, recordings_in(row.session_id)) {
            assert(n.sessions == t.filter(o));
            assert(n.sessions.contains(t[a]));
            assert forall|s: int| 0 <= s < n.sessions.len() implies (#[trigger] n.sessions[s]).id
                != row.session_id by {
                assert(o(n.sessions[s]));
            }
        } else {
            let j = choose|j: int|
                0 <= j < n.recordings.len() && recordings_in(row.session_id)(
                    #[trigger] n.recordings[j],
                );
            assert(n.recordings[j].session_id == row.session_id);
            assert(n.sessions[a] == x);
        }
    }
    assert(n.sessions.contains(x));
    let b = choose|b: int| 0 <= b < n.sessions.len() && n.sessions[b] == x;
    assert(n.sessions[b].id == r.session_id);
    assert forall|s: int|
        0 <= s < d.sessions.len() && (#[trigger] d.sessions[s]).id
            != row.session_id implies n.sessions.contains(d.sessions[s]) by {
        assert(t[s] == d.sessions[s]);
        assert(o(t[s]));
        assert(t.contains(t[s]));
    }
}

/// Every two copies between which a review can be carried are offered.
pub proof fn every_pair_of_copies_is_offered(
    d: StoreView,
    disk: Seq<DiskEntryView>,
    local: Seq<char>,
    shared: Seq<char>,
    i: int,
    j: int,
    o: CarryView,
)
    requires
        d.library_path_of("local"@) == Some(local),
        d.library_path_of("shared"@) == Some(shared),
        0 <= i < d.recordings.len(),
        0 <= j < d.recordings.len(),
        offer_between(d, disk, local, shared, d.recordings[i], d.recordings[j]) == Some(o),
    ensures
        all_offers(d, disk).contains(o),
{
    assert(d.recordings.take(d.recordings.len() as int) =~= d.recordings);
    offered_among_first(d, disk, local, shared, i, j, o, d.recordings.len() as int);
}

/// An offer is among those of the first recordings.
proof fn offered_among_first(
    d: StoreView,
    disk: Seq<DiskEntryView>,
    local: Seq<char>,
    shared: Seq<char>,
    i: int,
    j: int,
    o: CarryView,
    n: int,
)
    requires
        0 <= i < n <= d.recordings.len(),
        0 <= j < d.recordings.len(),
        offer_between(d, disk, local, shared, d.recordings[i], d.recordings[j]) == Some(o),
    ensures
        offers_from(d, disk, local, shared, d.recordings.take(n)).contains(o),
    decreases n,
{
    let rows = d.recordings.take(n);
    let before = offers_from(d, disk, local, shared, rows.drop_last());
    let f = offers_with(d, disk, local, shared, rows.last());
    let more = d.recordings.filter_map(f);
    let all = offers_from(d, disk, local, shared, rows);
    assert(rows.drop_last() =~= d.recordings.take(n - 1));
    if i < n - 1 {
        offered_among_first(d, disk, local, shared, i, j, o, n - 1);
        let k = choose|k: int| 0 <= k < before.len() && before[k] == o;
        assert(all[k] == o);
    } else {
        filter_map_elements(d.recordings, f);
        assert(f(d.recordings[j]) == Some(o));
        let k = choose|k: int| 0 <= k < more.len() && more[k] == o;
        assert(all[before.len() + k] == o);
    }
}

/// A folder is refused only where two recordings of the library would come to lie under one
/// key, on the way or in the end; and a folder under which no key changes never is.
pub proof fn folders_are_refused_for_a_key_that_is_taken(
    s: Seq<RecordingView>,
    kind: Seq<char>,
    previous: Option<Seq<char>>,
    folder: Seq<char>,
)
    ensures
        ({
            let f = adopted(kind, previous, folder);
            &&& adoption_collides(s, kind, previous, folder) ==> exists|n: int, j: int|
                {
                    &&& 0 <= n < s.len() && 0 <= j < s.len() && n != j
                    &&& (#[trigger] s[n]).library == kind && (#[trigger] s[j]).library == kind
                    &&& f(s[n]).path != s[n].path
                    &&& f(s[n]).path == s[j].path || f(s[n]).path == f(s[j]).path
                }
            &&& (forall|n: int|
                0 <= n < s.len() && (#[trigger] s[n]).library == kind ==> f(s[n]).path
                    == s[n].path) ==> !adoption_collides(s, kind, previous, folder)
            &&& (exists|n: int, j: int|
                {
                    &&& 0 <= j < n < s.len()
                    &&& (#[trigger] s[n]).library == kind && (#[trigger] s[j]).library == kind
                    &&& f(s[n]).path != s[n].path
                    &&& f(s[n]).path == f(s[j]).path
                }) ==> adoption_collides(s, kind, previous, folder)
        }),
{
    let f = adopted(kind, previous, folder);
    if adoption_collides(s, kind, previous, folder) {
        let (n, j) = choose|n: int, j: int| #[trigger]
            key_taken(s, kind, previous, folder, n, j);
        assert(s[n].library == kind && s[j].library == kind);
    }
    if exists|n: int, j: int|
        {
            &&& 0 <= j < n < s.len()
            &&& (#[trigger] s[n]).library == kind && (#[trigger] s[j]).library == kind
            &&& f(s[n]).path != s[n].path
            &&& f(s[n]).path == f(s[j]).path
        } {
        let (n, j) = choose|n: int, j: int|
            {
                &&& 0 <= j < n < s.len()
                &&& (#[trigger] s[n]).library == kind && (#[trigger] s[j]).library == kind
                &&& f(s[n]).path != s[n].path
                &&& f(s[n]).path == f(s[j]).path
            };
        assert(key_taken(s, kind, previous, folder, n, j));
    }
}

/// The rallies of a timeline that share no time with any of another.
pub open spec fn alone_in(other: Seq<Interval>) -> spec_fn(Interval) -> bool {
    |g: Interval| !is_met(other, g)
}

/// Misses are counted one by one.
proof fn misses_are_counted(gold: Seq<Interval>, draft: Seq<Interval>)
    ensures
        miss_count(gold, draft) == gold.filter(alone_in(draft)).len(),
        miss_count(gold, draft) <= gold.len(),
    decreases gold.len(),
{
    reveal(Seq::filter);
    if gold.len() > 0 {
        let less = gold.drop_last();
        let g = gold.last();
        misses_are_counted(less, draft);
        assert(any(draft, overlapping(g)) == is_met(draft, g)) by {
            if any(draft, overlapping(g)) {
                let k = choose|k: int| 0 <= k < draft.len() && overlapping(g)(#[trigger] draft[k]);
                overlap_counts_shared_time(draft[k], g);
                assert(share_time(draft[k], g));
            }
            if is_met(draft, g) {
                let k = choose|k: int| 0 <= k < draft.len() && share_time(#[trigger] draft[k], g);
                overlap_counts_shared_time(draft[k], g);
                assert(overlapping(g)(draft[k]));
            }
        }
    }
}

/// A score counts as misses the gold rallies that share no time with the draft, as matched
/// the others, and as false positives the draft rallies that share no time with the gold
/// ones; these over the length of the recording are the rate.
pub proof fn scores_count_what_shares_no_time(
    r: Score,
    draft: Seq<Interval>,
    gold: Seq<Interval>,
    duration_ms: i64,
)
    requires
        is_score_of(r, draft, gold, duration_ms),
    ensures
        r.gold_count == gold.len(),
        r.draft_count == draft.len(),
        r.misses == gold.filter(alone_in(draft)).len(),
        r.matched == gold.len() - gold.filter(alone_in(draft)).len(),
        r.false_positives == draft.filter(alone_in(gold)).len(),
        r.boundary_errors_ms@.len() == 2 * r.matched,
        r.twice_median_boundary_error_ms is Some <==> r.matched > 0,
        duration_ms > 0 ==> r.false_positives_per_hour.count * duration_ms == r.false_positives
            * r.false_positives_per_hour.span_ms,
{
    misses_are_counted(gold, draft);
    misses_are_counted(draft, gold);
    crate::laws::scoring::medians_are_in_the_middle(r.boundary_errors_ms@);
}

} // verus!
