//! Scanning a library: nothing is lost, moved files keep their reviews, and a
//! second scan finds nothing new.
use vstd::prelude::*;

use crate::analysis::{
    adopt_first, adopted_rally, analyses_adopted, analyzed, awaits_draft, best_analysis, key_prefix,
    total_rallies, AnalysisFileView,
};
use crate::capture_day::day_of_moment;
use crate::disk::{exists_at, stored_size, DiskEntryView, FileMetaView};
use crate::grouping::{registered, session_id_on};
use crate::laws::libraries::{appears, recordings_in_the_library_appear};
use crate::laws::publishing::{takes_analysis, waiting_recordings_take_what_is_published};
use crate::laws::reviews::{replaced_rallies_are_read_back, same_review, touch_shows_in_review};
use crate::path::{joined, rooted, stripped};
use crate::scan::{
    all_noticed, entry_met, file_met, hash_or_none, lost, lost_elsewhere, moved_to, other_than,
    path_in, rehomed, relinked, scan_fits, scan_start, scanned, text_order, unresolved_paths,
    walked, with_content, ScanView,
};
use crate::schema::video_path;
use crate::store::{
    library_of, next_recording, next_session, rallies_of, recording_at, recording_with,
    recordings_below, sessions_below, LibraryView, RecordingView, StoreView,
};
use crate::table::{
    any, any_pushed, any_rewritten, filter_elements, filter_keeps_all, filter_mapped_alike,
    filter_narrowed, filter_pushed, filter_within, first, first_found, is_order, rewrite, sort_by,
    sort_by_elements, sort_by_len, sort_by_sorted,
};
use crate::text::{before_one_way, not_before_is_carried, text_before};
use crate::timeline::hand_touched;
use crate::upkeep::{
    all_noticed_wf, analyses_adopted_wf, lost_belong, missing_is_lost, scanned_wf, walked_wf,
};
use crate::work::{fresh_rallies, requeued, stale, stale_requeued, stale_with};

verus! {

/// What a scan never changes of a recording: all but where it lies.
pub open spec fn same_but_place(a: RecordingView, b: RecordingView) -> bool {
    RecordingView {
        session_id: b.session_id,
        library: b.library,
        path: b.path,
        outside: b.outside,
        ..a
    } == b
}

/// Whether the first recordings of a store are those of an earlier one, wherever
/// they now lie.
pub open spec fn recordings_kept(d: StoreView, n: StoreView) -> bool {
    &&& d.recordings.len() <= n.recordings.len()
    &&& forall|i: int|
        0 <= i < d.recordings.len() ==> same_but_place(
            d.recordings[i],
            #[trigger] n.recordings[i],
        )
}

/// A walk drops no recording and no review: every recording is still there with
/// everything but the place it lies at, and rallies, annotations, libraries and
/// settings are untouched.
pub proof fn walks_lose_nothing(
    d: StoreView,
    kind: Seq<char>,
    folder: Seq<char>,
    disk: Seq<DiskEntryView>,
    walk: Seq<DiskEntryView>,
)
    ensures
        recordings_kept(d, walked(d, kind, folder, disk, walk).store),
        walked(d, kind, folder, disk, walk).store.rallies == d.rallies,
        walked(d, kind, folder, disk, walk).store.annotations == d.annotations,
        walked(d, kind, folder, disk, walk).store.libraries == d.libraries,
        walked(d, kind, folder, disk, walk).store.meta == d.meta,
    decreases walk.len(),
{
    if walk.len() > 0 {
        walks_lose_nothing(d, kind, folder, disk, walk.drop_last());
        let s = walked(d, kind, folder, disk, walk.drop_last());
        let n = walked(d, kind, folder, disk, walk);
        assert forall|i: int| 0 <= i < d.recordings.len() implies same_but_place(
            d.recordings[i],
            #[trigger] n.store.recordings[i],
        ) by {
            assert(same_but_place(d.recordings[i], s.store.recordings[i]));
        }
    }
}

/// A video whose content is that of a lost recording of the library is that
/// recording, moved: it is found under the new key, and nothing else of it
/// changes.
pub proof fn moved_files_are_relinked(
    s: ScanView,
    kind: Seq<char>,
    rel: Seq<char>,
    meta: FileMetaView,
    r: RecordingView,
    k: int,
)
    requires
        s.store.wf(),
        first(s.missing, with_content(stored_size(meta.size), hash_or_none(meta))) == Some(r),
        0 <= k < s.store.recordings.len(),
        s.store.recordings[k].id == r.id,
    ensures
        file_met(s, kind, rel, meta).store == (StoreView {
            recordings: s.store.recordings.update(
                k,
                RecordingView { path: rel, outside: false, ..s.store.recordings[k] },
            ),
            ..s.store
        }),
        file_met(s, kind, rel, meta).relocated == s.relocated + 1,
        file_met(s, kind, rel, meta).registered == s.registered,
{
    let t = s.store.recordings;
    assert(rewrite(t, recording_with(r.id), relinked(rel)) =~= t.update(
        k,
        RecordingView { path: rel, outside: false, ..t[k] },
    )) by {
        assert forall|i: int| 0 <= i < t.len() && i != k implies (#[trigger] t[i]).id != r.id by {
            if i < k {
                assert(t[i].id < t[k].id);
            } else {
                assert(t[k].id < t[i].id);
            }
        }
    }
}

/// Whether the walk met only what is on disk.
pub open spec fn walk_is_on_disk(
    folder: Seq<char>,
    disk: Seq<DiskEntryView>,
    walk: Seq<DiskEntryView>,
) -> bool {
    forall|i: int|
        0 <= i < walk.len() ==> (stripped(folder, (#[trigger] walk[i]).path) matches Some(rel)
            ==> exists_at(disk, joined(folder, rel)))
}

/// Whether the entry of a walk is registered, or none to register.
spec fn settled(d: StoreView, kind: Seq<char>, folder: Seq<char>, e: DiskEntryView) -> bool {
    e.is_file && video_path(e.path) && e.meta is Some ==> (stripped(folder, e.path) matches Some(rel)
        ==> any(d.recordings, recording_at(kind, rel)))
}

/// Whether the lost recordings of a scan still lie where they were lost.
spec fn lost_in_place(
    s: ScanView,
    kind: Seq<char>,
    folder: Seq<char>,
    disk: Seq<DiskEntryView>,
) -> bool {
    &&& forall|i: int, k: int|
        0 <= i < s.missing.len() && 0 <= k < s.store.recordings.len() && (
        #[trigger] s.missing[i]).id == (#[trigger] s.store.recordings[k]).id ==> !exists_at(
            disk,
            joined(folder, s.store.recordings[k].path),
        )
    &&& forall|i: int, k: int|
        0 <= i < s.cross.len() && 0 <= k < s.store.recordings.len() && (
        #[trigger] s.cross[i]).id == (#[trigger] s.store.recordings[k]).id
            ==> s.store.recordings[k].library != kind
    &&& forall|i: int|
        0 <= i < s.missing.len() ==> any(
            s.store.recordings,
            recording_with((#[trigger] s.missing[i]).id),
        )
    &&& forall|i: int|
        0 <= i < s.cross.len() ==> any(
            s.store.recordings,
            recording_with((#[trigger] s.cross[i]).id),
        )
}

/// The recordings lost elsewhere are known ones of other libraries.
proof fn lost_elsewhere_is_elsewhere(
    d: StoreView,
    libraries: Seq<LibraryView>,
    kind: Seq<char>,
    disk: Seq<DiskEntryView>,
)
    ensures
        forall|i: int|
            0 <= i < lost_elsewhere(d, libraries, kind, disk).len() ==> d.recordings.contains(
                #[trigger] lost_elsewhere(d, libraries, kind, disk)[i],
            ) && lost_elsewhere(d, libraries, kind, disk)[i].library != kind,
    decreases libraries.len(),
{
    if libraries.len() > 0 {
        lost_elsewhere_is_elsewhere(d, libraries.drop_last(), kind, disk);
        let l = libraries.last();
        let rest = lost_elsewhere(d, libraries.drop_last(), kind, disk);
        let p = lost(l.kind, l.path, disk);
        filter_elements(d.recordings, p);
        let t = lost_elsewhere(d, libraries, kind, disk);
        assert forall|i: int| 0 <= i < t.len() implies d.recordings.contains(#[trigger] t[i])
            && t[i].library != kind by {
            if i < rest.len() {
                assert(t[i] == rest[i]);
            } else {
                assert(t[i] == d.recordings.filter(p)[i - rest.len()]);
                assert(p(t[i]));
            }
        }
    }
}

/// Recordings with one id are one recording.
proof fn one_row_per_id(d: StoreView, i: int, k: int)
    requires
        d.wf(),
        0 <= i < d.recordings.len(),
        0 <= k < d.recordings.len(),
        d.recordings[i].id == d.recordings[k].id,
    ensures
        i == k,
{
    if i < k {
        assert(d.recordings[i].id < d.recordings[k].id);
    } else if k < i {
        assert(d.recordings[k].id < d.recordings[i].id);
    }
}

/// Before its walk, the lost recordings of a scan lie where they were lost.
proof fn scan_start_in_place(
    d: StoreView,
    kind: Seq<char>,
    folder: Seq<char>,
    disk: Seq<DiskEntryView>,
)
    requires
        d.wf(),
    ensures
        lost_in_place(scan_start(d, kind, folder, disk), kind, folder, disk),
{
    let s = scan_start(d, kind, folder, disk);
    missing_is_lost(d, kind, folder, disk);
    lost_elsewhere_is_elsewhere(d, d.libraries, kind, disk);
    assert forall|i: int| 0 <= i < s.missing.len() implies any(
        d.recordings,
        recording_with((#[trigger] s.missing[i]).id),
    ) && forall|k: int|
        0 <= k < d.recordings.len() && s.missing[i].id == (#[trigger] d.recordings[k]).id
            ==> !exists_at(disk, joined(folder, d.recordings[k].path)) by {
        assert(d.recordings.contains(s.missing[i]));
        let j = choose|j: int| 0 <= j < d.recordings.len() && d.recordings[j] == s.missing[i];
        assert(recording_with(s.missing[i].id)(d.recordings[j]));
        assert(lost(kind, folder, disk)(s.missing[i]));
        assert forall|k: int|
            0 <= k < d.recordings.len() && s.missing[i].id == (
            #[trigger] d.recordings[k]).id implies !exists_at(
            disk,
            joined(folder, d.recordings[k].path),
        ) by {
            one_row_per_id(d, j, k);
        }
    }
    assert forall|i: int| 0 <= i < s.cross.len() implies any(
        d.recordings,
        recording_with((#[trigger] s.cross[i]).id),
    ) && forall|k: int|
        0 <= k < d.recordings.len() && s.cross[i].id == (#[trigger] d.recordings[k]).id
            ==> d.recordings[k].library != kind by {
        assert(d.recordings.contains(s.cross[i]));
        let j = choose|j: int| 0 <= j < d.recordings.len() && d.recordings[j] == s.cross[i];
        assert(recording_with(s.cross[i].id)(d.recordings[j]));
        assert forall|k: int|
            0 <= k < d.recordings.len() && s.cross[i].id == (
            #[trigger] d.recordings[k]).id implies d.recordings[k].library != kind by {
            one_row_per_id(d, j, k);
        }
    }
}

/// What one entry of the walk does to the recordings: each keeps its id, and
/// changes only if it was lost.
proof fn entry_met_rows(
    s: ScanView,
    kind: Seq<char>,
    folder: Seq<char>,
    disk: Seq<DiskEntryView>,
    e: DiskEntryView,
)
    requires
        s.store.wf(),
        lost_belong(s, kind),
        lost_in_place(s, kind, folder, disk),
        next_session(s.store.sessions) <= i64::MAX,
        next_recording(s.store.recordings) <= i64::MAX,
        stripped(folder, e.path) matches Some(rel) ==> exists_at(disk, joined(folder, rel)),
    ensures
        lost_in_place(entry_met(s, kind, folder, e), kind, folder, disk),
        settled(entry_met(s, kind, folder, e).store, kind, folder, e),
        forall|f: DiskEntryView|
            settled(s.store, kind, folder, f) && (stripped(folder, f.path) matches Some(rel)
                ==> exists_at(disk, joined(folder, rel))) ==> #[trigger] settled(
                entry_met(s, kind, folder, e).store,
                kind,
                folder,
                f,
            ),
{
    let n = entry_met(s, kind, folder, e);
    let d = s.store;
    if e.is_file && video_path(e.path) && stripped(folder, e.path) is Some && e.meta is Some
        && !any(d.recordings, recording_at(kind, stripped(folder, e.path)->0)) {
        let rel = stripped(folder, e.path)->0;
        let meta = e.meta->0;
        let p = with_content(stored_size(meta.size), hash_or_none(meta));
        first_found(s.missing, p);
        first_found(s.cross, p);
        let t = n.store.recordings;
        if let Some(r) = first(s.missing, p) {
            let m = choose|m: int| 0 <= m < s.missing.len() && s.missing[m] == r;
            relink_rows(s, kind, folder, disk, rel, m);
        } else if let Some(r) = first(s.cross, p) {
            let m = choose|m: int| 0 <= m < s.cross.len() && s.cross[m] == r;
            rehome_rows(s, kind, folder, disk, rel, m);
        } else {
            register_rows(s, kind, folder, disk, rel, meta);
        }
    }
}

/// What a store keeps of the entries that are settled, if one recording changes
/// that none of them is registered as.
proof fn settled_is_kept(
    d: StoreView,
    n: StoreView,
    kind: Seq<char>,
    folder: Seq<char>,
    disk: Seq<DiskEntryView>,
    at: int,
)
    requires
        0 <= at < d.recordings.len(),
        d.recordings.len() <= n.recordings.len(),
        forall|k: int|
            0 <= k < d.recordings.len() && k != at ==> #[trigger] n.recordings[k]
                == d.recordings[k],
        d.recordings[at].library != kind || !exists_at(
            disk,
            joined(folder, d.recordings[at].path),
        ),
    ensures
        forall|f: DiskEntryView|
            settled(d, kind, folder, f) && (stripped(folder, f.path) matches Some(rel)
                ==> exists_at(disk, joined(folder, rel))) ==> #[trigger] settled(
                n,
                kind,
                folder,
                f,
            ),
{
    assert forall|f: DiskEntryView|
        settled(d, kind, folder, f) && (stripped(folder, f.path) matches Some(rel) ==> exists_at(
            disk,
            joined(folder, rel),
        )) implies #[trigger] settled(n, kind, folder, f) by {
        if f.is_file && video_path(f.path) && f.meta is Some && stripped(folder, f.path) is Some {
            let rel = stripped(folder, f.path)->0;
            let q = recording_at(kind, rel);
            let k = choose|k: int| 0 <= k < d.recordings.len() && q(#[trigger] d.recordings[k]);
            assert(k != at);
            assert(q(n.recordings[k]));
        }
    }
}

/// Re-linking a lost recording.
proof fn relink_rows(
    s: ScanView,
    kind: Seq<char>,
    folder: Seq<char>,
    disk: Seq<DiskEntryView>,
    rel: Seq<char>,
    m: int,
)
    requires
        s.store.wf(),
        lost_belong(s, kind),
        lost_in_place(s, kind, folder, disk),
        0 <= m < s.missing.len(),
    ensures
        ({
            let r = s.missing[m];
            let n = ScanView {
                store: StoreView {
                    recordings: rewrite(
                        s.store.recordings,
                        recording_with(r.id),
                        relinked(rel),
                    ),
                    ..s.store
                },
                missing: s.missing.filter(other_than(r.id)),
                relocated: s.relocated + 1,
                ..s
            };
            &&& lost_in_place(n, kind, folder, disk)
            &&& any(n.store.recordings, recording_at(kind, rel))
            &&& forall|f: DiskEntryView|
                settled(s.store, kind, folder, f) && (stripped(folder, f.path) matches Some(rel)
                    ==> exists_at(disk, joined(folder, rel))) ==> #[trigger] settled(
                    n.store,
                    kind,
                    folder,
                    f,
                )
        }),
{
    let r = s.missing[m];
    let d = s.store;
    let f = relinked(rel);
    let n = ScanView {
        store: StoreView {
            recordings: rewrite(d.recordings, recording_with(r.id), f),
            ..d
        },
        missing: s.missing.filter(other_than(r.id)),
        relocated: s.relocated + 1,
        ..s
    };
    let t = n.store.recordings;
    assert(any(d.recordings, recording_with(s.missing[m].id)));
    let at = choose|k: int|
        0 <= k < d.recordings.len() && recording_with(r.id)(#[trigger] d.recordings[k]);
    assert(s.missing[m].id == d.recordings[at].id);
    assert forall|k: int| 0 <= k < d.recordings.len() && k != at implies #[trigger] t[k]
        == d.recordings[k] && d.recordings[k].id != r.id by {
        if d.recordings[k].id == r.id {
            one_row_per_id(d, k, at);
        }
    }
    assert(recording_at(kind, rel)(t[at]));
    settled_is_kept(d, n.store, kind, folder, disk, at);
    filter_elements(s.missing, other_than(r.id));
    assert forall|i: int, k: int|
        0 <= i < n.missing.len() && 0 <= k < t.len() && (#[trigger] n.missing[i]).id == (
        #[trigger] t[k]).id implies !exists_at(disk, joined(folder, t[k].path)) by {
        assert(other_than(r.id)(n.missing[i]));
        assert(s.missing.contains(n.missing[i]));
        let j = choose|j: int| 0 <= j < s.missing.len() && s.missing[j] == n.missing[i];
        assert(k != at);
        assert(s.missing[j].id == d.recordings[k].id);
    }
    assert forall|i: int, k: int|
        0 <= i < n.cross.len() && 0 <= k < t.len() && (#[trigger] n.cross[i]).id == (
        #[trigger] t[k]).id implies t[k].library != kind by {
        assert(s.cross[i].id == d.recordings[k].id);
    }
    assert forall|i: int| 0 <= i < n.missing.len() implies any(
        t,
        recording_with((#[trigger] n.missing[i]).id),
    ) by {
        assert(s.missing.contains(n.missing[i]));
        let j = choose|j: int| 0 <= j < s.missing.len() && s.missing[j] == n.missing[i];
        assert(any(d.recordings, recording_with(s.missing[j].id)));
        any_rewritten(d.recordings, recording_with(r.id), f, recording_with(n.missing[i].id));
    }
    assert forall|i: int| 0 <= i < n.cross.len() implies any(
        t,
        recording_with((#[trigger] n.cross[i]).id),
    ) by {
        assert(any(d.recordings, recording_with(s.cross[i].id)));
        any_rewritten(d.recordings, recording_with(r.id), f, recording_with(n.cross[i].id));
    }
}

/// Re-homing a recording that was lost elsewhere.
proof fn rehome_rows(
    s: ScanView,
    kind: Seq<char>,
    folder: Seq<char>,
    disk: Seq<DiskEntryView>,
    rel: Seq<char>,
    m: int,
)
    requires
        s.store.wf(),
        lost_belong(s, kind),
        lost_in_place(s, kind, folder, disk),
        0 <= m < s.cross.len(),
    ensures
        ({
            let r = s.cross[m];
            let n = ScanView {
                store: rehomed(s.store, r.id, kind, rel),
                cross: s.cross.filter(other_than(r.id)),
                relocated: s.relocated + 1,
                ..s
            };
            &&& lost_in_place(n, kind, folder, disk)
            &&& any(n.store.recordings, recording_at(kind, rel))
            &&& forall|f: DiskEntryView|
                settled(s.store, kind, folder, f) && (stripped(folder, f.path) matches Some(rel)
                    ==> exists_at(disk, joined(folder, rel))) ==> #[trigger] settled(
                    n.store,
                    kind,
                    folder,
                    f,
                )
        }),
{
    let r = s.cross[m];
    let d = s.store;
    let n = ScanView {
        store: rehomed(d, r.id, kind, rel),
        cross: s.cross.filter(other_than(r.id)),
        relocated: s.relocated + 1,
        ..s
    };
    let t = n.store.recordings;
    assert(any(d.recordings, recording_with(s.cross[m].id)));
    first_found(d.recordings, recording_with(r.id));
    let row = first(d.recordings, recording_with(r.id))->0;
    let at = choose|k: int| 0 <= k < d.recordings.len() && d.recordings[k] == row;
    let session = session_id_on(d.sessions, kind, row.capture_day);
    let f = moved_to(kind, rel, session);
    assert(t == rewrite(d.recordings, recording_with(r.id), f));
    assert(s.cross[m].id == d.recordings[at].id);
    assert forall|k: int| 0 <= k < d.recordings.len() && k != at implies #[trigger] t[k]
        == d.recordings[k] && d.recordings[k].id != r.id by {
        if d.recordings[k].id == r.id {
            one_row_per_id(d, k, at);
        }
    }
    assert(recording_at(kind, rel)(t[at]));
    settled_is_kept(d, n.store, kind, folder, disk, at);
    filter_elements(s.cross, other_than(r.id));
    assert forall|i: int, k: int|
        0 <= i < n.missing.len() && 0 <= k < t.len() && (#[trigger] n.missing[i]).id == (
        #[trigger] t[k]).id implies !exists_at(disk, joined(folder, t[k].path)) by {
        assert(s.missing[i].id == d.recordings[k].id);
        assert(k != at);
    }
    assert forall|i: int, k: int|
        0 <= i < n.cross.len() && 0 <= k < t.len() && (#[trigger] n.cross[i]).id == (
        #[trigger] t[k]).id implies t[k].library != kind by {
        assert(other_than(r.id)(n.cross[i]));
        assert(s.cross.contains(n.cross[i]));
        let j = choose|j: int| 0 <= j < s.cross.len() && s.cross[j] == n.cross[i];
        assert(k != at);
        assert(s.cross[j].id == d.recordings[k].id);
    }
    assert forall|i: int| 0 <= i < n.missing.len() implies any(
        t,
        recording_with((#[trigger] n.missing[i]).id),
    ) by {
        assert(any(d.recordings, recording_with(s.missing[i].id)));
        any_rewritten(d.recordings, recording_with(r.id), f, recording_with(n.missing[i].id));
    }
    assert forall|i: int| 0 <= i < n.cross.len() implies any(
        t,
        recording_with((#[trigger] n.cross[i]).id),
    ) by {
        assert(s.cross.contains(n.cross[i]));
        let j = choose|j: int| 0 <= j < s.cross.len() && s.cross[j] == n.cross[i];
        assert(any(d.recordings, recording_with(s.cross[j].id)));
        any_rewritten(d.recordings, recording_with(r.id), f, recording_with(n.cross[i].id));
    }
}

/// Registering a new recording.
proof fn register_rows(
    s: ScanView,
    kind: Seq<char>,
    folder: Seq<char>,
    disk: Seq<DiskEntryView>,
    rel: Seq<char>,
    meta: FileMetaView,
)
    requires
        s.store.wf(),
        lost_in_place(s, kind, folder, disk),
        next_recording(s.store.recordings) <= i64::MAX,
    ensures
        ({
            let n = ScanView {
                store: registered(
                    s.store,
                    kind,
                    rel,
                    stored_size(meta.size),
                    hash_or_none(meta),
                    day_of_moment(meta.modified as int),
                ),
                registered: s.registered + 1,
                ..s
            };
            &&& lost_in_place(n, kind, folder, disk)
            &&& any(n.store.recordings, recording_at(kind, rel))
            &&& forall|f: DiskEntryView|
                settled(s.store, kind, folder, f) ==> #[trigger] settled(n.store, kind, folder, f)
        }),
{
    let d = s.store;
    let n = ScanView {
        store: registered(
            d,
            kind,
            rel,
            stored_size(meta.size),
            hash_or_none(meta),
            day_of_moment(meta.modified as int),
        ),
        registered: s.registered + 1,
        ..s
    };
    let t = n.store.recordings;
    let last = t.last();
    assert(recording_at(kind, rel)(t[t.len() - 1]));
    assert forall|f: DiskEntryView| settled(d, kind, folder, f) implies #[trigger] settled(
        n.store,
        kind,
        folder,
        f,
    ) by {
        if let Some(rel) = stripped(folder, f.path) {
            any_pushed(d.recordings, last, recording_at(kind, rel));
        }
    }
    assert forall|id: i64| any(d.recordings, recording_with(id)) implies #[trigger] any(
        t,
        recording_with(id),
    ) && id != last.id by {
        any_pushed(d.recordings, last, recording_with(id));
        let k = choose|k: int|
            0 <= k < d.recordings.len() && recording_with(id)(#[trigger] d.recordings[k]);
        if k < d.recordings.len() - 1 {
            assert(d.recordings[k].id < d.recordings[d.recordings.len() - 1].id);
        }
    }
    assert forall|i: int| 0 <= i < n.missing.len() implies any(
        t,
        recording_with((#[trigger] n.missing[i]).id),
    ) && n.missing[i].id != last.id by {
        assert(any(d.recordings, recording_with(s.missing[i].id)));
    }
    assert forall|i: int| 0 <= i < n.cross.len() implies any(
        t,
        recording_with((#[trigger] n.cross[i]).id),
    ) && n.cross[i].id != last.id by {
        assert(any(d.recordings, recording_with(s.cross[i].id)));
    }
    assert forall|i: int, k: int|
        0 <= i < n.missing.len() && 0 <= k < t.len() && (#[trigger] n.missing[i]).id == (
        #[trigger] t[k]).id implies !exists_at(disk, joined(folder, t[k].path)) by {
        assert(k < d.recordings.len());
        assert(s.missing[i].id == d.recordings[k].id);
    }
    assert forall|i: int, k: int|
        0 <= i < n.cross.len() && 0 <= k < t.len() && (#[trigger] n.cross[i]).id == (
        #[trigger] t[k]).id implies t[k].library != kind by {
        assert(k < d.recordings.len());
        assert(s.cross[i].id == d.recordings[k].id);
    }
}

/// After a walk, every entry of it is settled.
proof fn walk_settles(
    d: StoreView,
    kind: Seq<char>,
    folder: Seq<char>,
    disk: Seq<DiskEntryView>,
    walk: Seq<DiskEntryView>,
    bound: int,
)
    requires
        d.wf(),
        walk_is_on_disk(folder, disk, walk),
        sessions_below(d.sessions, bound),
        recordings_below(d.recordings, bound),
        bound + walk.len() <= i64::MAX,
    ensures
        lost_in_place(walked(d, kind, folder, disk, walk), kind, folder, disk),
        forall|i: int|
            0 <= i < walk.len() ==> settled(
                walked(d, kind, folder, disk, walk).store,
                kind,
                folder,
                #[trigger] walk[i],
            ),
    decreases walk.len(),
{
    if walk.len() == 0 {
        scan_start_in_place(d, kind, folder, disk);
    } else {
        let less = walk.drop_last();
        assert(walk_is_on_disk(folder, disk, less)) by {
            assert forall|i: int| 0 <= i < less.len() implies (stripped(
                folder,
                (#[trigger] less[i]).path,
            ) matches Some(rel) ==> exists_at(disk, joined(folder, rel))) by {
                assert(less[i] == walk[i]);
            }
        }
        walk_settles(d, kind, folder, disk, less, bound);
        walked_wf(d, kind, folder, disk, less, bound);
        let s = walked(d, kind, folder, disk, less);
        if s.store.sessions.len() > 0 {
            assert(s.store.sessions[s.store.sessions.len() - 1].id < bound + less.len());
        }
        if s.store.recordings.len() > 0 {
            assert(s.store.recordings[s.store.recordings.len() - 1].id < bound + less.len());
        }
        let e = walk.last();
        assert(e == walk[walk.len() - 1]);
        entry_met_rows(s, kind, folder, disk, e);
        let n = walked(d, kind, folder, disk, walk).store;
        assert forall|i: int| 0 <= i < walk.len() implies settled(
            n,
            kind,
            folder,
            #[trigger] walk[i],
        ) by {
            if i < less.len() {
                assert(less[i] == walk[i]);
                assert(settled(s.store, kind, folder, less[i]));
            }
        }
    }
}

/// A walk over settled entries changes nothing.
proof fn settled_walk_is_quiet(
    d: StoreView,
    kind: Seq<char>,
    folder: Seq<char>,
    disk: Seq<DiskEntryView>,
    walk: Seq<DiskEntryView>,
)
    requires
        forall|i: int| 0 <= i < walk.len() ==> settled(d, kind, folder, #[trigger] walk[i]),
    ensures
        walked(d, kind, folder, disk, walk).store == d,
        walked(d, kind, folder, disk, walk).registered == 0,
        walked(d, kind, folder, disk, walk).relocated == 0,
    decreases walk.len(),
{
    if walk.len() > 0 {
        let less = walk.drop_last();
        assert forall|i: int| 0 <= i < less.len() implies settled(
            d,
            kind,
            folder,
            #[trigger] less[i],
        ) by {
            assert(less[i] == walk[i]);
        }
        settled_walk_is_quiet(d, kind, folder, disk, less);
        assert(settled(d, kind, folder, walk[walk.len() - 1]));
    }
}

/// Adopting an Analysis keeps where the recordings lie.
proof fn adoption_keeps_places(
    d: StoreView,
    files: Seq<AnalysisFileView>,
    rows: Seq<RecordingView>,
    n: nat,
    kind: Seq<char>,
    path: Seq<char>,
)
    requires
        n <= rows.len(),
        any(d.recordings, recording_at(kind, path)),
    ensures
        any(adopt_first(d, files, rows, n).recordings, recording_at(kind, path)),
        adopt_first(d, files, rows, n).libraries == d.libraries,
        adopt_first(d, files, rows, n).meta == d.meta,
    decreases n,
{
    if n > 0 {
        let p = (n - 1) as nat;
        adoption_keeps_places(d, files, rows, p, kind, path);
        let e = adopt_first(d, files, rows, p);
        let r = rows[n - 1];
        let best = best_analysis(files, key_prefix(r.quick_hash, r.file_size as int));
        if best is Some {
            any_rewritten(
                e.recordings,
                recording_with(r.id),
                analyzed(best->0),
                recording_at(kind, path),
            );
        }
    }
}

/// Scanning an unchanged library again registers and re-links nothing: the walk of
/// a second scan leaves the store exactly as the first scan did.
pub proof fn scanning_again_finds_nothing(
    d: StoreView,
    disk: Seq<DiskEntryView>,
    walk: Seq<DiskEntryView>,
    files: Seq<AnalysisFileView>,
    folder: Seq<char>,
)
    requires
        d.wf(),
        scan_fits(d, walk, files),
        d.library_path_of(d.active_kind()) == Some(folder),
        walk_is_on_disk(folder, disk, walk),
    ensures
        ({
            let kind = d.active_kind();
            let after = scanned(d, disk, walk, files);
            let again = walked(after, kind, folder, disk, walk);
            &&& again.store == after
            &&& again.registered == 0
            &&& again.relocated == 0
        }),
{
    let kind = d.active_kind();
    let v = walked(d, kind, folder, disk, walk).store;
    let w = all_noticed(v, kind, folder, disk);
    let a = analyses_adopted(w, files);
    let after = stale_requeued(a, kind);
    walk_settles(d, kind, folder, disk, walk, i64::MAX - walk.len());
    assert forall|i: int| 0 <= i < walk.len() implies settled(
        after,
        kind,
        folder,
        #[trigger] walk[i],
    ) by {
        let e = walk[i];
        assert(settled(v, kind, folder, e));
        if e.is_file && video_path(e.path) && e.meta is Some && stripped(folder, e.path) is Some {
            let rel = stripped(folder, e.path)->0;
            same_keys(v, w, kind, rel);
            adoption_keeps_places(w, files, w.recordings, w.recordings.len(), kind, rel);
            any_rewritten(a.recordings, stale(a, kind), requeued(), recording_at(kind, rel));
        }
    }
    settled_walk_is_quiet(after, kind, folder, disk, walk);
}

/// Requeueing stale drafts keeps the review of every recording that is not stale.
proof fn requeueing_keeps_fresh_reviews(d: StoreView, kind: Seq<char>, id: i64)
    requires
        !any(d.recordings, stale_with(d, kind, id)),
    ensures
        same_review(d, stale_requeued(d, kind), id),
{
    assert forall|i: int| 0 <= i < d.rallies.len() && rallies_of(id)(
        #[trigger] d.rallies[i],
    ) implies fresh_rallies(d, kind)(d.rallies[i]) by {}
    filter_within(d.rallies, fresh_rallies(d, kind), rallies_of(id));
}

/// A hand-touched recording is not stale.
proof fn touched_is_not_stale(d: StoreView, kind: Seq<char>, id: i64)
    requires
        hand_touched(d, id),
    ensures
        !any(d.recordings, stale_with(d, kind, id)),
{
    if any(d.recordings, stale_with(d, kind, id)) {
        let k = choose|k: int|
            0 <= k < d.recordings.len() && stale_with(d, kind, id)(#[trigger] d.recordings[k]);
        assert(d.recordings[k].id == id);
    }
}

/// After stale drafts are queued again, none is left: every segmented recording of
/// the library that no hand touched has a draft of the current segmenter, or one
/// without a version.
pub proof fn no_stale_draft_is_left(d: StoreView, kind: Seq<char>)
    requires
        d.wf(),
    ensures
        !any(
            stale_requeued(d, kind).recordings,
            stale(stale_requeued(d, kind), kind),
        ),
{
    let n = stale_requeued(d, kind);
    let p = stale(n, kind);
    if any(n.recordings, p) {
        let k = choose|k: int| 0 <= k < n.recordings.len() && p(#[trigger] n.recordings[k]);
        let r = d.recordings[k];
        reveal_strlit("unknown");
        reveal_strlit("ready");
        assert("unknown"@[0] == 'u' && "ready"@[0] == 'r');
        if stale(d, kind)(r) {
            assert(n.recordings[k].segment_state == "unknown"@);
        } else {
            assert(n.recordings[k] == r);
            assert(hand_touched(d, r.id));
            touched_is_not_stale(d, kind, r.id);
            requeueing_keeps_fresh_reviews(d, kind, r.id);
            touch_shows_in_review(d, n, r.id);
        }
    }
}

/// Adopting published Analyses never changes the review of a recording that a hand
/// touched.
pub proof fn adoption_keeps_touched_reviews(
    d: StoreView,
    files: Seq<AnalysisFileView>,
    rows: Seq<RecordingView>,
    n: nat,
    id: i64,
)
    requires
        n <= rows.len(),
        hand_touched(d, id),
    ensures
        same_review(d, adopt_first(d, files, rows, n), id),
    decreases n,
{
    if n > 0 {
        let p = (n - 1) as nat;
        adoption_keeps_touched_reviews(d, files, rows, p, id);
        let e = adopt_first(d, files, rows, p);
        touch_shows_in_review(d, e, id);
        let r = rows[n - 1];
        let best = best_analysis(files, key_prefix(r.quick_hash, r.file_size as int));
        if best is Some && r.id != id {
            replaced_rallies_are_read_back(
                e.rallies,
                r.id,
                best->0.rallies.map_values(adopted_rally()),
                id,
            );
        }
    }
}

/// A scan never changes the review of a recording that a hand touched.
pub proof fn scans_keep_touched_reviews(
    d: StoreView,
    disk: Seq<DiskEntryView>,
    walk: Seq<DiskEntryView>,
    files: Seq<AnalysisFileView>,
    id: i64,
)
    requires
        hand_touched(d, id),
    ensures
        same_review(d, scanned(d, disk, walk, files), id),
        hand_touched(scanned(d, disk, walk, files), id),
{
    let kind = d.active_kind();
    if let Some(folder) = d.library_path_of(kind) {
        walks_lose_nothing(d, kind, folder, disk, walk);
        let v = walked(d, kind, folder, disk, walk).store;
        let w = all_noticed(v, kind, folder, disk);
        touch_shows_in_review(d, w, id);
        adoption_keeps_touched_reviews(w, files, w.recordings, w.recordings.len(), id);
        let a = analyses_adopted(w, files);
        touch_shows_in_review(w, a, id);
        touched_is_not_stale(a, kind, id);
        requeueing_keeps_fresh_reviews(a, kind, id);
    }
    touch_shows_in_review(d, scanned(d, disk, walk, files), id);
}

/// Adoption drops no recording.
proof fn adoption_keeps_ids(
    d: StoreView,
    files: Seq<AnalysisFileView>,
    rows: Seq<RecordingView>,
    n: nat,
)
    requires
        n <= rows.len(),
    ensures
        adopt_first(d, files, rows, n).recordings.len() == d.recordings.len(),
        forall|i: int|
            0 <= i < d.recordings.len() ==> (#[trigger] adopt_first(
                d,
                files,
                rows,
                n,
            ).recordings[i]).id == d.recordings[i].id,
    decreases n,
{
    if n > 0 {
        adoption_keeps_ids(d, files, rows, (n - 1) as nat);
    }
}

/// A scan forgets no recording, found or not.
pub proof fn scans_forget_nothing(
    d: StoreView,
    disk: Seq<DiskEntryView>,
    walk: Seq<DiskEntryView>,
    files: Seq<AnalysisFileView>,
)
    ensures
        d.recordings.len() <= scanned(d, disk, walk, files).recordings.len(),
        forall|i: int|
            0 <= i < d.recordings.len() ==> (#[trigger] scanned(
                d,
                disk,
                walk,
                files,
            ).recordings[i]).id == d.recordings[i].id,
{
    let kind = d.active_kind();
    if let Some(folder) = d.library_path_of(kind) {
        walks_lose_nothing(d, kind, folder, disk, walk);
        let v = walked(d, kind, folder, disk, walk).store;
        let w = all_noticed(v, kind, folder, disk);
        adoption_keeps_ids(w, files, w.recordings, w.recordings.len());
        let a = analyses_adopted(w, files);
        let n = scanned(d, disk, walk, files);
        assert forall|i: int| 0 <= i < d.recordings.len() implies (#[trigger] n.recordings[i]).id
            == d.recordings[i].id by {
            assert(a.recordings[i].id == w.recordings[i].id);
            assert(same_but_place(d.recordings[i], v.recordings[i]));
        }
    }
}

/// A video whose content is that of a lost recording of another library is that
/// recording, moved between libraries: it is found under the new key in this one,
/// in the session of its own day, with everything else of it, and with its rallies
/// and annotations.
pub proof fn files_moved_between_libraries_are_rehomed(
    s: ScanView,
    kind: Seq<char>,
    rel: Seq<char>,
    meta: FileMetaView,
    r: RecordingView,
    k: int,
)
    requires
        s.store.wf(),
        first(s.missing, with_content(stored_size(meta.size), hash_or_none(meta))) is None,
        first(s.cross, with_content(stored_size(meta.size), hash_or_none(meta))) == Some(r),
        0 <= k < s.store.recordings.len(),
        s.store.recordings[k].id == r.id,
    ensures
        ({
            let n = file_met(s, kind, rel, meta);
            let row = s.store.recordings[k];
            &&& n.store.recordings == s.store.recordings.update(
                k,
                RecordingView {
                    path: rel,
                    library: kind,
                    session_id: session_id_on(s.store.sessions, kind, row.capture_day),
                    outside: false,
                    ..row
                },
            )
            &&& n.store.rallies == s.store.rallies
            &&& n.store.annotations == s.store.annotations
            &&& n.relocated == s.relocated + 1
            &&& n.registered == s.registered
        }),
{
    let t = s.store.recordings;
    let p = recording_with(r.id);
    first_found(t, p);
    assert(p(t[k]));
    let row = first(t, p)->0;
    let j = choose|j: int| 0 <= j < t.len() && t[j] == row;
    one_row_per_id(s.store, j, k);
    let session = session_id_on(s.store.sessions, kind, row.capture_day);
    assert(rewrite(t, p, moved_to(kind, rel, session)) =~= t.update(
        k,
        RecordingView { path: rel, library: kind, session_id: session, outside: false, ..t[k] },
    )) by {
        assert forall|i: int| 0 <= i < t.len() && i != k implies (#[trigger] t[i]).id != r.id by {
            if t[i].id == r.id {
                one_row_per_id(s.store, i, k);
            }
        }
    }
}

/// Whether a recording is found where it lies, or lies outside of every library.
pub open spec fn in_place(d: StoreView, disk: Seq<DiskEntryView>, r: RecordingView) -> bool {
    rooted(r.path) || forall|i: int|
        0 <= i < d.libraries.len() && (#[trigger] d.libraries[i]).kind == r.library ==> exists_at(
            disk,
            joined(d.libraries[i].path, r.path),
        )
}

/// Whether a scan does not look for a recording.
spec fn not_sought(s: ScanView, id: i64) -> bool {
    &&& forall|i: int| 0 <= i < s.missing.len() ==> (#[trigger] s.missing[i]).id != id
    &&& forall|i: int| 0 <= i < s.cross.len() ==> (#[trigger] s.cross[i]).id != id
}

/// What is lost elsewhere is not in its place.
proof fn lost_elsewhere_is_lost(
    d: StoreView,
    libraries: Seq<LibraryView>,
    kind: Seq<char>,
    disk: Seq<DiskEntryView>,
    r: RecordingView,
)
    requires
        forall|i: int|
            0 <= i < libraries.len() ==> !lost(
                (#[trigger] libraries[i]).kind,
                libraries[i].path,
                disk,
            )(r),
    ensures
        !lost_elsewhere(d, libraries, kind, disk).contains(r),
    decreases libraries.len(),
{
    if libraries.len() > 0 {
        let less = libraries.drop_last();
        let l = libraries.last();
        assert(l == libraries[libraries.len() - 1]);
        assert forall|i: int| 0 <= i < less.len() implies !lost(
            (#[trigger] less[i]).kind,
            less[i].path,
            disk,
        )(r) by {
            assert(less[i] == libraries[i]);
        }
        lost_elsewhere_is_lost(d, less, kind, disk, r);
        filter_elements(d.recordings, lost(l.kind, l.path, disk));
        let rest = lost_elsewhere(d, less, kind, disk);
        let more = d.recordings.filter(lost(l.kind, l.path, disk));
        if lost_elsewhere(d, libraries, kind, disk).contains(r) {
            let all = lost_elsewhere(d, libraries, kind, disk);
            let i = choose|i: int| 0 <= i < all.len() && all[i] == r;
            if i < rest.len() {
                assert(rest[i] == r);
            } else {
                assert(more[i - rest.len()] == r);
            }
        }
    }
}

/// A walk leaves a recording that it does not look for where it is.
proof fn walk_leaves_unsought(
    d: StoreView,
    kind: Seq<char>,
    folder: Seq<char>,
    disk: Seq<DiskEntryView>,
    walk: Seq<DiskEntryView>,
    k: int,
)
    requires
        0 <= k < d.recordings.len(),
        not_sought(scan_start(d, kind, folder, disk), d.recordings[k].id),
    ensures
        ({
            let n = walked(d, kind, folder, disk, walk);
            &&& not_sought(n, d.recordings[k].id)
            &&& k < n.store.recordings.len()
            &&& n.store.recordings[k] == d.recordings[k]
        }),
    decreases walk.len(),
{
    if walk.len() > 0 {
        walk_leaves_unsought(d, kind, folder, disk, walk.drop_last(), k);
        let s = walked(d, kind, folder, disk, walk.drop_last());
        let n = walked(d, kind, folder, disk, walk);
        let e = walk.last();
        let id = d.recordings[k].id;
        if let Some(rel) = stripped(folder, e.path) {
            if let Some(meta) = e.meta {
                let p = with_content(stored_size(meta.size), hash_or_none(meta));
                first_found(s.missing, p);
                first_found(s.cross, p);
                if let Some(r) = first(s.missing, p) {
                    let m = choose|m: int| 0 <= m < s.missing.len() && s.missing[m] == r;
                    assert(s.missing[m].id != id);
                    filter_elements(s.missing, other_than(r.id));
                } else if let Some(r) = first(s.cross, p) {
                    let m = choose|m: int| 0 <= m < s.cross.len() && s.cross[m] == r;
                    assert(s.cross[m].id != id);
                    filter_elements(s.cross, other_than(r.id));
                }
            }
        }
        assert forall|i: int| 0 <= i < n.missing.len() implies (#[trigger] n.missing[i]).id
            != id by {
            assert(s.missing.contains(n.missing[i]));
        }
        assert forall|i: int| 0 <= i < n.cross.len() implies (#[trigger] n.cross[i]).id != id by {
            assert(s.cross.contains(n.cross[i]));
        }
    }
}

/// A walk leaves every recording that is found where it lies as it was: a copy of
/// its file, in its own library or in another one, never takes it away. So does
/// every recording that lies outside of the libraries.
pub proof fn found_recordings_stay(
    d: StoreView,
    folder: Seq<char>,
    disk: Seq<DiskEntryView>,
    walk: Seq<DiskEntryView>,
    k: int,
)
    requires
        d.wf(),
        d.library_path_of(d.active_kind()) == Some(folder),
        0 <= k < d.recordings.len(),
        in_place(d, disk, d.recordings[k]),
    ensures
        walked(d, d.active_kind(), folder, disk, walk).store.recordings[k] == d.recordings[k],
{
    let kind = d.active_kind();
    let r = d.recordings[k];
    let s = scan_start(d, kind, folder, disk);
    first_found(d.libraries, library_of(kind));
    let l = first(d.libraries, library_of(kind))->0;
    let at = choose|i: int| 0 <= i < d.libraries.len() && d.libraries[i] == l;
    assert(!lost(kind, folder, disk)(r)) by {
        assert(d.libraries[at].kind == kind);
    }
    missing_is_lost(d, kind, folder, disk);
    assert forall|i: int| 0 <= i < s.missing.len() implies (#[trigger] s.missing[i]).id
        != r.id by {
        assert(d.recordings.contains(s.missing[i]) && lost(kind, folder, disk)(s.missing[i]));
        let j = choose|j: int| 0 <= j < d.recordings.len() && d.recordings[j] == s.missing[i];
        if s.missing[i].id == r.id {
            one_row_per_id(d, j, k);
        }
    }
    lost_elsewhere_is_elsewhere(d, d.libraries, kind, disk);
    assert forall|i: int| 0 <= i < d.libraries.len() implies !lost(
        (#[trigger] d.libraries[i]).kind,
        d.libraries[i].path,
        disk,
    )(r) by {}
    lost_elsewhere_is_lost(d, d.libraries, kind, disk, r);
    assert forall|i: int| 0 <= i < s.cross.len() implies (#[trigger] s.cross[i]).id != r.id by {
        assert(d.recordings.contains(s.cross[i]));
        let j = choose|j: int| 0 <= j < d.recordings.len() && d.recordings[j] == s.cross[i];
        if s.cross[i].id == r.id {
            one_row_per_id(d, j, k);
            assert(s.cross[i] == r);
        }
    }
    walk_leaves_unsought(d, kind, folder, disk, walk, k);
}

/// A scan leaves no stale draft in the active library.
pub proof fn scans_leave_no_stale_draft(
    d: StoreView,
    disk: Seq<DiskEntryView>,
    walk: Seq<DiskEntryView>,
    files: Seq<AnalysisFileView>,
)
    requires
        d.wf(),
        scan_fits(d, walk, files),
        d.library_path_of(d.active_kind()) is Some,
    ensures
        ({
            let n = scanned(d, disk, walk, files);
            !any(n.recordings, stale(n, d.active_kind()))
        }),
{
    let kind = d.active_kind();
    let folder = d.library_path_of(kind)->0;
    walked_wf(d, kind, folder, disk, walk, i64::MAX - walk.len());
    let w = walked(d, kind, folder, disk, walk).store;
    all_noticed_wf(w, kind, folder, disk);
    let s = all_noticed(w, kind, folder, disk);
    let t = total_rallies(files);
    let a = s.recordings.len();
    let b = d.recordings.len() + walk.len();
    assert(a * t <= b * t) by (nonlinear_arith)
        requires
            a <= b,
            t >= 0,
    ;
    analyses_adopted_wf(s, files);
    no_stale_draft_is_left(analyses_adopted(s, files), kind);
}

/// What is published for the first of the recordings changes none that does not
/// wait for a draft.
proof fn adopting_first_keeps_drafts(
    d: StoreView,
    files: Seq<AnalysisFileView>,
    n: nat,
    k: int,
)
    requires
        d.wf(),
        n <= d.recordings.len(),
        0 <= k < d.recordings.len(),
        !awaits_draft(d.recordings[k]),
    ensures
        adopt_first(d, files, d.recordings, n).recordings.len() == d.recordings.len(),
        adopt_first(d, files, d.recordings, n).recordings[k] == d.recordings[k],
        same_review(d, adopt_first(d, files, d.recordings, n), d.recordings[k].id),
    decreases n,
{
    if n > 0 {
        let p = (n - 1) as nat;
        adopting_first_keeps_drafts(d, files, p, k);
        let e = adopt_first(d, files, d.recordings, p);
        let r = d.recordings[n - 1];
        let best = best_analysis(files, key_prefix(r.quick_hash, r.file_size as int));
        if awaits_draft(r) && best is Some {
            if r.id == d.recordings[k].id {
                one_row_per_id(d, n - 1, k);
            }
            replaced_rallies_are_read_back(
                e.rallies,
                r.id,
                best->0.rallies.map_values(adopted_rally()),
                d.recordings[k].id,
            );
        }
    }
}

/// Adopting published Analyses leaves every recording as it is that does not wait
/// for a draft: one of another library, or with a draft of its own.
pub proof fn adoption_keeps_finished_drafts(
    d: StoreView,
    files: Seq<AnalysisFileView>,
    k: int,
)
    requires
        d.wf(),
        0 <= k < d.recordings.len(),
        !awaits_draft(d.recordings[k]),
    ensures
        analyses_adopted(d, files).recordings[k] == d.recordings[k],
        same_review(d, analyses_adopted(d, files), d.recordings[k].id),
{
    adopting_first_keeps_drafts(d, files, d.recordings.len(), k);
}

/// Whether two stores hold their recordings at the same places.
pub open spec fn same_places(a: StoreView, b: StoreView) -> bool {
    &&& a.recordings.len() == b.recordings.len()
    &&& forall|k: int|
        0 <= k < a.recordings.len() ==> (#[trigger] b.recordings[k]).library
            == a.recordings[k].library && b.recordings[k].path == a.recordings[k].path
}

/// Adopting what is published keeps every place.
proof fn adopting_keeps_every_place(
    d: StoreView,
    files: Seq<AnalysisFileView>,
    rows: Seq<RecordingView>,
    n: nat,
)
    requires
        n <= rows.len(),
    ensures
        same_places(d, adopt_first(d, files, rows, n)),
    decreases n,
{
    if n > 0 {
        adopting_keeps_every_place(d, files, rows, (n - 1) as nat);
    }
}

/// What follows the walk of a scan keeps every place.
proof fn after_the_walk_places_stay(
    d: StoreView,
    files: Seq<AnalysisFileView>,
    kind: Seq<char>,
)
    ensures
        same_places(d, stale_requeued(analyses_adopted(d, files), kind)),
{
    adopting_keeps_every_place(d, files, d.recordings, d.recordings.len());
}

/// What a scan looks for in a store.
spec fn sought(
    d: StoreView,
    kind: Seq<char>,
    folder: Seq<char>,
    disk: Seq<DiskEntryView>,
) -> Seq<RecordingView> {
    scan_start(d, kind, folder, disk).missing
}

/// A recording at a key under which something is found is not looked for.
proof fn found_key_is_not_sought(
    r: RecordingView,
    kind: Seq<char>,
    folder: Seq<char>,
    disk: Seq<DiskEntryView>,
)
    requires
        exists_at(disk, joined(folder, r.path)) || r.library != kind,
    ensures
        !lost(kind, folder, disk)(r),
{
}

/// What is looked for after some recordings changed that are then not looked for.
proof fn sought_narrowed(
    d: StoreView,
    n: StoreView,
    kind: Seq<char>,
    folder: Seq<char>,
    disk: Seq<DiskEntryView>,
    q: spec_fn(RecordingView) -> bool,
)
    requires
        d.recordings.len() == n.recordings.len(),
        forall|k: int|
            0 <= k < d.recordings.len() ==> if q(#[trigger] d.recordings[k]) {
                n.recordings[k] == d.recordings[k]
            } else {
                !lost(kind, folder, disk)(n.recordings[k])
            },
    ensures
        sought(n, kind, folder, disk) == sought(d, kind, folder, disk).filter(q),
{
    let s = d.recordings;
    let t = n.recordings;
    let a = lost(kind, folder, disk);
    assert forall|k: int| 0 <= k < t.len() implies (a(#[trigger] t[k]) ==> t[k] == s[k]) && (a(
        t[k],
    ) <==> a(s[k]) && q(s[k])) by {
        assert(q(s[k]) || !q(s[k]));
    }
    filter_narrowed(s, t, a, q);
}

/// What is left to look for after an entry of the walk is what would be looked for
/// in the store that it leaves.
proof fn entry_keeps_track(
    s: ScanView,
    kind: Seq<char>,
    folder: Seq<char>,
    disk: Seq<DiskEntryView>,
    e: DiskEntryView,
)
    requires
        s.store.wf(),
        lost_in_place(s, kind, folder, disk),
        s.missing == sought(s.store, kind, folder, disk),
        stripped(folder, e.path) matches Some(rel) ==> exists_at(disk, joined(folder, rel)),
    ensures
        entry_met(s, kind, folder, e).missing == sought(
            entry_met(s, kind, folder, e).store,
            kind,
            folder,
            disk,
        ),
{
    let n = entry_met(s, kind, folder, e);
    let d = s.store;
    if e.is_file && video_path(e.path) && stripped(folder, e.path) is Some && e.meta is Some
        && !any(d.recordings, recording_at(kind, stripped(folder, e.path)->0)) {
        let rel = stripped(folder, e.path)->0;
        let meta = e.meta->0;
        let p = with_content(stored_size(meta.size), hash_or_none(meta));
        first_found(s.missing, p);
        first_found(s.cross, p);
        if let Some(r) = first(s.missing, p) {
            let q = other_than(r.id);
            assert forall|k: int| 0 <= k < d.recordings.len() implies if q(
                #[trigger] d.recordings[k],
            ) {
                n.store.recordings[k] == d.recordings[k]
            } else {
                !lost(kind, folder, disk)(n.store.recordings[k])
            } by {
                if !q(d.recordings[k]) {
                    found_key_is_not_sought(n.store.recordings[k], kind, folder, disk);
                }
            }
            sought_narrowed(d, n.store, kind, folder, disk, q);
        } else if let Some(r) = first(s.cross, p) {
            let m = choose|m: int| 0 <= m < s.cross.len() && s.cross[m] == r;
            assert(any(d.recordings, recording_with(s.cross[m].id)));
            first_found(d.recordings, recording_with(r.id));
            let q = other_than(r.id);
            assert forall|k: int| 0 <= k < d.recordings.len() implies if q(
                #[trigger] d.recordings[k],
            ) {
                n.store.recordings[k] == d.recordings[k]
            } else {
                !lost(kind, folder, disk)(n.store.recordings[k])
            } by {
                if !q(d.recordings[k]) {
                    found_key_is_not_sought(n.store.recordings[k], kind, folder, disk);
                }
            }
            sought_narrowed(d, n.store, kind, folder, disk, q);
            missing_is_lost(d, kind, folder, disk);
            assert forall|i: int| 0 <= i < s.missing.len() implies q(#[trigger] s.missing[i]) by {
                if s.missing[i].id == r.id {
                    assert(d.recordings.contains(s.missing[i]));
                    let k = choose|k: int|
                        0 <= k < d.recordings.len() && d.recordings[k] == s.missing[i];
                    assert(lost(kind, folder, disk)(s.missing[i]));
                    assert(s.cross[m].id == d.recordings[k].id);
                }
            }
            filter_keeps_all(s.missing, q);
        } else {
            let x = n.store.recordings.last();
            found_key_is_not_sought(x, kind, folder, disk);
            assert(n.store.recordings =~= d.recordings.push(x));
            filter_pushed(d.recordings, x, lost(kind, folder, disk));
        }
    }
}

/// What is left to look for after a walk is what would be looked for in the store
/// that it leaves.
proof fn walk_keeps_track(
    d: StoreView,
    kind: Seq<char>,
    folder: Seq<char>,
    disk: Seq<DiskEntryView>,
    walk: Seq<DiskEntryView>,
    bound: int,
)
    requires
        d.wf(),
        walk_is_on_disk(folder, disk, walk),
        sessions_below(d.sessions, bound),
        recordings_below(d.recordings, bound),
        bound + walk.len() <= i64::MAX,
    ensures
        walked(d, kind, folder, disk, walk).missing == sought(
            walked(d, kind, folder, disk, walk).store,
            kind,
            folder,
            disk,
        ),
    decreases walk.len(),
{
    if walk.len() > 0 {
        let less = walk.drop_last();
        assert(walk_is_on_disk(folder, disk, less)) by {
            assert forall|i: int| 0 <= i < less.len() implies (stripped(
                folder,
                (#[trigger] less[i]).path,
            ) matches Some(rel) ==> exists_at(disk, joined(folder, rel))) by {
                assert(less[i] == walk[i]);
            }
        }
        walk_keeps_track(d, kind, folder, disk, less, bound);
        walk_settles(d, kind, folder, disk, less, bound);
        walked_wf(d, kind, folder, disk, less, bound);
        assert(walk.last() == walk[walk.len() - 1]);
        entry_keeps_track(
            walked(d, kind, folder, disk, less),
            kind,
            folder,
            disk,
            walk.last(),
        );
    }
}

/// Whether an entry is a video file that is registered.
spec fn known_entry(d: StoreView, kind: Seq<char>, folder: Seq<char>, e: DiskEntryView) -> bool {
    &&& e.is_file && video_path(e.path)
    &&& stripped(folder, e.path) matches Some(rel) && any(d.recordings, recording_at(kind, rel))
}

/// How many entries are video files that are registered.
spec fn known_count(
    d: StoreView,
    kind: Seq<char>,
    folder: Seq<char>,
    walk: Seq<DiskEntryView>,
) -> nat
    decreases walk.len(),
{
    if walk.len() == 0 {
        0
    } else {
        known_count(d, kind, folder, walk.drop_last()) + (if known_entry(
            d,
            kind,
            folder,
            walk.last(),
        ) {
            1nat
        } else {
            0nat
        })
    }
}

/// A walk over settled entries skips those that are registered, and looks for what
/// it looked for before.
proof fn settled_walk_skips(
    d: StoreView,
    kind: Seq<char>,
    folder: Seq<char>,
    disk: Seq<DiskEntryView>,
    walk: Seq<DiskEntryView>,
)
    requires
        forall|i: int| 0 <= i < walk.len() ==> settled(d, kind, folder, #[trigger] walk[i]),
    ensures
        walked(d, kind, folder, disk, walk).skipped == known_count(d, kind, folder, walk),
        walked(d, kind, folder, disk, walk).missing == sought(d, kind, folder, disk),
    decreases walk.len(),
{
    if walk.len() > 0 {
        let less = walk.drop_last();
        assert forall|i: int| 0 <= i < less.len() implies settled(
            d,
            kind,
            folder,
            #[trigger] less[i],
        ) by {
            assert(less[i] == walk[i]);
        }
        settled_walk_skips(d, kind, folder, disk, less);
        settled_walk_is_quiet(d, kind, folder, disk, less);
        assert(settled(d, kind, folder, walk[walk.len() - 1]));
    }
}

/// Whether no entry that could not be read is met again under its key.
pub open spec fn unreadable_met_once(folder: Seq<char>, walk: Seq<DiskEntryView>) -> bool {
    forall|i: int, j: int|
        0 <= i < j < walk.len() && (#[trigger] walk[i]).meta is None && stripped(
            folder,
            walk[i].path,
        ) is Some ==> stripped(folder, (#[trigger] walk[j]).path) != stripped(folder, walk[i].path)
}

/// Only the key of an entry can become registered by it.
proof fn only_met_keys_appear(
    s: ScanView,
    kind: Seq<char>,
    folder: Seq<char>,
    e: DiskEntryView,
    key: Seq<char>,
)
    requires
        any(entry_met(s, kind, folder, e).store.recordings, recording_at(kind, key)),
        stripped(folder, e.path) != Some(key),
    ensures
        any(s.store.recordings, recording_at(kind, key)),
{
    let t = entry_met(s, kind, folder, e).store.recordings;
    let q = recording_at(kind, key);
    let k = choose|k: int| 0 <= k < t.len() && q(#[trigger] t[k]);
    assert(k < s.store.recordings.len());
    assert(q(s.store.recordings[k]));
}

/// What is registered after the first entries of a walk and what after more of them:
/// an entry that was met stays registered, and a key that is not met again does not
/// become so.
proof fn rest_of_the_walk(
    d: StoreView,
    kind: Seq<char>,
    folder: Seq<char>,
    disk: Seq<DiskEntryView>,
    walk: Seq<DiskEntryView>,
    bound: int,
    key: Seq<char>,
    i: int,
    j: int,
)
    requires
        d.wf(),
        walk_is_on_disk(folder, disk, walk),
        sessions_below(d.sessions, bound),
        recordings_below(d.recordings, bound),
        bound + walk.len() <= i64::MAX,
        0 <= i <= j <= walk.len(),
        exists_at(disk, joined(folder, key)),
    ensures
        ({
            let a = walked(d, kind, folder, disk, walk.take(i)).store.recordings;
            let b = walked(d, kind, folder, disk, walk.take(j)).store.recordings;
            &&& any(a, recording_at(kind, key)) ==> any(b, recording_at(kind, key))
            &&& (forall|k: int|
                i <= k < j ==> stripped(folder, (#[trigger] walk[k]).path) != Some(key)) ==> (any(
                b,
                recording_at(kind, key),
            ) ==> any(a, recording_at(kind, key)))
        }),
    decreases j - i,
{
    if i < j {
        rest_of_the_walk(d, kind, folder, disk, walk, bound, key, i, j - 1);
        let less = walk.take(j - 1);
        assert(walk.take(j).drop_last() =~= less);
        assert(walk.take(j).last() == walk[j - 1]);
        assert(walk_is_on_disk(folder, disk, less)) by {
            assert forall|k: int| 0 <= k < less.len() implies (stripped(
                folder,
                (#[trigger] less[k]).path,
            ) matches Some(rel) ==> exists_at(disk, joined(folder, rel))) by {
                assert(less[k] == walk[k]);
            }
        }
        walk_settles(d, kind, folder, disk, less, bound);
        walked_wf(d, kind, folder, disk, less, bound);
        let s = walked(d, kind, folder, disk, less);
        let e = walk[j - 1];
        if any(s.store.recordings, recording_at(kind, key)) {
            key_stays(s, kind, folder, disk, e, key);
        }
        let n = entry_met(s, kind, folder, e);
        if any(n.store.recordings, recording_at(kind, key)) && stripped(folder, e.path) != Some(
            key,
        ) {
            only_met_keys_appear(s, kind, folder, e, key);
        }
    }
}

/// A key under which something is found stays registered.
proof fn key_stays(
    s: ScanView,
    kind: Seq<char>,
    folder: Seq<char>,
    disk: Seq<DiskEntryView>,
    e: DiskEntryView,
    key: Seq<char>,
)
    requires
        s.store.wf(),
        lost_belong(s, kind),
        lost_in_place(s, kind, folder, disk),
        any(s.store.recordings, recording_at(kind, key)),
        exists_at(disk, joined(folder, key)),
    ensures
        any(entry_met(s, kind, folder, e).store.recordings, recording_at(kind, key)),
{
    let t = s.store.recordings;
    let n = entry_met(s, kind, folder, e).store.recordings;
    let q = recording_at(kind, key);
    let k = choose|k: int| 0 <= k < t.len() && q(#[trigger] t[k]);
    if e.meta is Some {
        let meta = e.meta->0;
        let p = with_content(stored_size(meta.size), hash_or_none(meta));
        first_found(s.missing, p);
        first_found(s.cross, p);
        if let Some(r) = first(s.missing, p) {
            let m = choose|m: int| 0 <= m < s.missing.len() && s.missing[m] == r;
            if t[k].id == r.id {
                assert(s.missing[m].id == t[k].id);
            }
        } else if let Some(r) = first(s.cross, p) {
            let m = choose|m: int| 0 <= m < s.cross.len() && s.cross[m] == r;
            if t[k].id == r.id {
                assert(s.cross[m].id == t[k].id);
            }
        }
    }
    assert(n[k] == t[k]);
    assert(q(n[k]));
}

/// A walk counts the entries that are registered after it.
proof fn walk_counts_known(
    d: StoreView,
    kind: Seq<char>,
    folder: Seq<char>,
    disk: Seq<DiskEntryView>,
    walk: Seq<DiskEntryView>,
    bound: int,
    i: int,
)
    requires
        d.wf(),
        walk_is_on_disk(folder, disk, walk),
        unreadable_met_once(folder, walk),
        sessions_below(d.sessions, bound),
        recordings_below(d.recordings, bound),
        bound + walk.len() <= i64::MAX,
        0 <= i <= walk.len(),
    ensures
        ({
            let s = walked(d, kind, folder, disk, walk.take(i));
            s.registered + s.skipped + s.relocated == known_count(
                walked(d, kind, folder, disk, walk).store,
                kind,
                folder,
                walk.take(i),
            )
        }),
    decreases i,
{
    let last = walked(d, kind, folder, disk, walk).store;
    if i == 0 {
        assert(walk.take(0) =~= Seq::empty());
    } else {
        walk_counts_known(d, kind, folder, disk, walk, bound, i - 1);
        let less = walk.take(i - 1);
        let e = walk[i - 1];
        assert(walk.take(i).drop_last() =~= less);
        assert(walk.take(i).last() == e);
        assert(walk.take(walk.len() as int) =~= walk);
        let s = walked(d, kind, folder, disk, less);
        let n = walked(d, kind, folder, disk, walk.take(i));
        if e.is_file && video_path(e.path) && stripped(folder, e.path) is Some {
            let key = stripped(folder, e.path)->0;
            rest_of_the_walk(
                d,
                kind,
                folder,
                disk,
                walk,
                bound,
                key,
                i,
                walk.len() as int,
            );
            if any(s.store.recordings, recording_at(kind, key)) {
                assert(n.store == s.store);
            } else if e.meta is Some {
                entry_becomes_known(d, kind, folder, disk, walk, bound, i);
            } else {
                assert(n.store == s.store);
                assert forall|k: int| i <= k < walk.len() implies stripped(
                    folder,
                    (#[trigger] walk[k]).path,
                ) != Some(key) by {
                    assert(walk[i - 1].meta is None);
                }
            }
        }
    }
}

/// An entry that can be read is registered once it was met.
proof fn entry_becomes_known(
    d: StoreView,
    kind: Seq<char>,
    folder: Seq<char>,
    disk: Seq<DiskEntryView>,
    walk: Seq<DiskEntryView>,
    bound: int,
    i: int,
)
    requires
        d.wf(),
        walk_is_on_disk(folder, disk, walk),
        sessions_below(d.sessions, bound),
        recordings_below(d.recordings, bound),
        bound + walk.len() <= i64::MAX,
        0 < i <= walk.len(),
        walk[i - 1].is_file && video_path(walk[i - 1].path) && walk[i - 1].meta is Some,
        stripped(folder, walk[i - 1].path) is Some,
    ensures
        any(
            walked(d, kind, folder, disk, walk.take(i)).store.recordings,
            recording_at(kind, stripped(folder, walk[i - 1].path)->0),
        ),
{
    let part = walk.take(i);
    assert(walk_is_on_disk(folder, disk, part)) by {
        assert forall|k: int| 0 <= k < part.len() implies (stripped(
            folder,
            (#[trigger] part[k]).path,
        ) matches Some(rel) ==> exists_at(disk, joined(folder, rel))) by {
            assert(part[k] == walk[k]);
        }
    }
    walk_settles(d, kind, folder, disk, part, bound);
    assert(settled(
        walked(d, kind, folder, disk, part).store,
        kind,
        folder,
        part[i - 1],
    ));
}

/// Scanning an unchanged library again reports the same: every file that the first
/// scan registered, skipped or re-linked is skipped, and the same recordings are
/// told as not found. No recording is added, removed or moved by the second scan.
pub proof fn scanning_again_reports_the_same(
    d: StoreView,
    disk: Seq<DiskEntryView>,
    walk: Seq<DiskEntryView>,
    files: Seq<AnalysisFileView>,
    folder: Seq<char>,
)
    requires
        d.wf(),
        scan_fits(d, walk, files),
        d.library_path_of(d.active_kind()) == Some(folder),
        walk_is_on_disk(folder, disk, walk),
        unreadable_met_once(folder, walk),
    ensures
        ({
            let kind = d.active_kind();
            let first = walked(d, kind, folder, disk, walk);
            let after = scanned(d, disk, walk, files);
            let again = walked(after, kind, folder, disk, walk);
            &&& again.skipped == first.registered + first.skipped + first.relocated
            &&& unresolved_paths(again, folder) == unresolved_paths(first, folder)
            &&& same_places(after, scanned(after, disk, walk, files))
        }),
{
    let kind = d.active_kind();
    let bound = i64::MAX - walk.len();
    let first = walked(d, kind, folder, disk, walk);
    let v = first.store;
    let w = all_noticed(v, kind, folder, disk);
    let after = scanned(d, disk, walk, files);
    scanning_again_finds_nothing(d, disk, walk, files, folder);
    after_the_walk_places_stay(w, files, kind);
    walk_settles(d, kind, folder, disk, walk, bound);
    assert forall|i: int| 0 <= i < walk.len() implies settled(
        after,
        kind,
        folder,
        #[trigger] walk[i],
    ) by {
        let e = walk[i];
        assert(settled(v, kind, folder, e));
        if let Some(rel) = stripped(folder, e.path) {
            same_keys(v, w, kind, rel);
            same_keys(w, after, kind, rel);
        }
    }
    settled_walk_skips(after, kind, folder, disk, walk);
    walk_counts_known(d, kind, folder, disk, walk, bound, walk.len() as int);
    assert(walk.take(walk.len() as int) =~= walk);
    counts_agree(v, w, kind, folder, walk);
    counts_agree(w, after, kind, folder, walk);
    walk_keeps_track(d, kind, folder, disk, walk, bound);
    let f = path_in(folder);
    let a = lost(kind, folder, disk);
    filter_mapped_alike(v.recordings, w.recordings, a, f);
    filter_mapped_alike(w.recordings, after.recordings, a, f);
    walks_lose_nothing(d, kind, folder, disk, walk);
    after_the_walk_settings_stay(w, files, kind);
    assert(after.active_kind() == kind);
    assert(after.library_path_of(kind) == Some(folder));
    after_the_walk_places_stay(all_noticed(after, kind, folder, disk), files, kind);
}

/// The video files among the entries of a walk.
pub open spec fn video_files() -> spec_fn(DiskEntryView) -> bool {
    |e: DiskEntryView| e.is_file && video_path(e.path)
}

/// Whether every video file of a walk lies under the folder and can be read.
pub open spec fn videos_readable(folder: Seq<char>, walk: Seq<DiskEntryView>) -> bool {
    forall|i: int|
        0 <= i < walk.len() && video_files()(#[trigger] walk[i]) ==> stripped(
            folder,
            walk[i].path,
        ) is Some && walk[i].meta is Some
}

/// A walk counts every video file once, and adds what it registers.
proof fn walk_counts(
    d: StoreView,
    kind: Seq<char>,
    folder: Seq<char>,
    disk: Seq<DiskEntryView>,
    walk: Seq<DiskEntryView>,
)
    requires
        videos_readable(folder, walk),
    ensures
        ({
            let s = walked(d, kind, folder, disk, walk);
            &&& s.registered + s.skipped + s.relocated == walk.filter(video_files()).len()
            &&& s.store.recordings.len() == d.recordings.len() + s.registered
        }),
    decreases walk.len(),
{
    reveal(Seq::filter);
    if walk.len() > 0 {
        let less = walk.drop_last();
        assert forall|i: int| 0 <= i < less.len() && video_files()(
            #[trigger] less[i],
        ) implies stripped(folder, less[i].path) is Some && less[i].meta is Some by {
            assert(less[i] == walk[i]);
        }
        walk_counts(d, kind, folder, disk, less);
        assert(walk[walk.len() - 1] == walk.last());
    }
}

/// A scan accounts for every video file under the folder: it is registered, skipped
/// or re-linked, and then has exactly one recording, under its key. As many
/// recordings are added as were registered.
pub proof fn scans_account_for_every_video(
    d: StoreView,
    disk: Seq<DiskEntryView>,
    walk: Seq<DiskEntryView>,
    files: Seq<AnalysisFileView>,
    folder: Seq<char>,
)
    requires
        d.wf(),
        scan_fits(d, walk, files),
        d.library_path_of(d.active_kind()) == Some(folder),
        walk_is_on_disk(folder, disk, walk),
        videos_readable(folder, walk),
    ensures
        ({
            let kind = d.active_kind();
            let s = walked(d, kind, folder, disk, walk);
            let after = scanned(d, disk, walk, files);
            &&& s.registered + s.skipped + s.relocated == walk.filter(video_files()).len()
            &&& after.recordings.len() == d.recordings.len() + s.registered
            &&& forall|i: int|
                0 <= i < walk.len() && video_files()(#[trigger] walk[i]) ==> after.recordings.filter(
                    recording_at(kind, stripped(folder, walk[i].path)->0),
                ).len() == 1
        }),
{
    let kind = d.active_kind();
    let v = walked(d, kind, folder, disk, walk).store;
    let w = all_noticed(v, kind, folder, disk);
    let after = scanned(d, disk, walk, files);
    walk_counts(d, kind, folder, disk, walk);
    walk_settles(d, kind, folder, disk, walk, i64::MAX - walk.len());
    after_the_walk_places_stay(w, files, kind);
    scanned_wf(d, disk, walk, files);
    assert forall|i: int| 0 <= i < walk.len() && video_files()(
        #[trigger] walk[i],
    ) implies after.recordings.filter(
        recording_at(kind, stripped(folder, walk[i].path)->0),
    ).len() == 1 by {
        let rel = stripped(folder, walk[i].path)->0;
        assert(settled(v, kind, folder, walk[i]));
        same_keys(v, w, kind, rel);
        same_keys(w, after, kind, rel);
        one_at_a_key(after, kind, rel);
    }
}

/// A key that is taken is taken by one recording.
proof fn one_at_a_key(d: StoreView, kind: Seq<char>, key: Seq<char>)
    requires
        d.recordings_wf(),
        any(d.recordings, recording_at(kind, key)),
    ensures
        d.recordings.filter(recording_at(kind, key)).len() == 1,
    decreases d.recordings.len(),
{
    reveal(Seq::filter);
    let p = recording_at(kind, key);
    let s = d.recordings;
    let less = StoreView { recordings: s.drop_last(), ..d };
    let k = choose|k: int| 0 <= k < s.len() && p(#[trigger] s[k]);
    assert(s.last() == s[s.len() - 1]);
    if k == s.len() - 1 {
        filter_elements(s.drop_last(), p);
        if s.drop_last().filter(p).len() > 0 {
            let x = s.drop_last().filter(p)[0];
            assert(p(x) && s.drop_last().contains(x));
            let j = choose|j: int| 0 <= j < s.len() - 1 && s.drop_last()[j] == x;
            assert(s[j] == x);
            assert(!(s[j].library == s[k].library && s[j].path == s[k].path));
        }
    } else {
        assert(p(less.recordings[k]));
        assert(less.recordings_wf()) by {
            assert forall|i: int, j: int| 0 <= i < j < less.recordings.len() implies (
            #[trigger] less.recordings[i]).id < (#[trigger] less.recordings[j]).id && !(
            less.recordings[i].library == less.recordings[j].library && less.recordings[i].path
                == less.recordings[j].path) by {
                assert(s[i].id < s[j].id);
                assert(!(s[i].library == s[j].library && s[i].path == s[j].path));
            }
        }
        one_at_a_key(less, kind, key);
        assert(!(s[k].library == s[s.len() - 1].library && s[k].path == s[s.len() - 1].path));
    }
}

/// A scan reports exactly what is lost then: the recordings of the active library
/// under relative keys at which nothing is found, as ascending absolute paths. What
/// is left outside of the library after it is among them.
pub proof fn scans_report_what_is_lost(
    d: StoreView,
    disk: Seq<DiskEntryView>,
    walk: Seq<DiskEntryView>,
    files: Seq<AnalysisFileView>,
    folder: Seq<char>,
)
    requires
        d.wf(),
        scan_fits(d, walk, files),
        d.library_path_of(d.active_kind()) == Some(folder),
        walk_is_on_disk(folder, disk, walk),
    ensures
        ({
            let kind = d.active_kind();
            let after = scanned(d, disk, walk, files);
            &&& unresolved_paths(walked(d, kind, folder, disk, walk), folder) == sort_by(
                after.recordings.filter(lost(kind, folder, disk)).map_values(path_in(folder)),
                text_order(),
            )
            &&& forall|k: int|
                0 <= k < after.recordings.len() && (#[trigger] after.recordings[k]).library == kind
                    && !rooted(after.recordings[k].path) && after.recordings[k].outside ==> lost(
                    kind,
                    folder,
                    disk,
                )(after.recordings[k])
        }),
{
    let kind = d.active_kind();
    let v = walked(d, kind, folder, disk, walk).store;
    let w = all_noticed(v, kind, folder, disk);
    let after = scanned(d, disk, walk, files);
    let f = path_in(folder);
    let a = lost(kind, folder, disk);
    walk_keeps_track(d, kind, folder, disk, walk, i64::MAX - walk.len());
    after_the_walk_places_stay(w, files, kind);
    filter_mapped_alike(v.recordings, w.recordings, a, f);
    filter_mapped_alike(w.recordings, after.recordings, a, f);
    marks_stay(w, files, kind);
}

/// What follows the walk of a scan lets every recording appear as it did.
proof fn marks_stay(d: StoreView, files: Seq<AnalysisFileView>, kind: Seq<char>)
    ensures
        ({
            let n = stale_requeued(analyses_adopted(d, files), kind);
            &&& n.recordings.len() == d.recordings.len()
            &&& forall|k: int|
                0 <= k < d.recordings.len() ==> (#[trigger] n.recordings[k]).outside
                    == d.recordings[k].outside
        }),
{
    adopting_keeps_marks(d, files, d.recordings, d.recordings.len());
}

/// Adopting lets every recording appear as it did.
proof fn adopting_keeps_marks(
    d: StoreView,
    files: Seq<AnalysisFileView>,
    rows: Seq<RecordingView>,
    n: nat,
)
    requires
        n <= rows.len(),
    ensures
        adopt_first(d, files, rows, n).recordings.len() == d.recordings.len(),
        forall|k: int|
            0 <= k < d.recordings.len() ==> (#[trigger] adopt_first(
                d,
                files,
                rows,
                n,
            ).recordings[k]).outside == d.recordings[k].outside,
    decreases n,
{
    if n > 0 {
        adopting_keeps_marks(d, files, rows, (n - 1) as nat);
    }
}

/// A recording of the active library whose file is found under its key appears
/// after a scan, also where it was left outside before: its folder was designated
/// again, or its file moved along with the library.
pub proof fn found_recordings_appear(
    d: StoreView,
    disk: Seq<DiskEntryView>,
    walk: Seq<DiskEntryView>,
    files: Seq<AnalysisFileView>,
    folder: Seq<char>,
    k: int,
)
    requires
        d.wf(),
        scan_fits(d, walk, files),
        d.library_path_of(d.active_kind()) == Some(folder),
        0 <= k < d.recordings.len(),
        d.recordings[k].library == d.active_kind(),
        !rooted(d.recordings[k].path),
        exists_at(disk, joined(folder, d.recordings[k].path)),
    ensures
        ({
            let after = scanned(d, disk, walk, files);
            &&& after.recordings[k].id == d.recordings[k].id
            &&& after.recordings[k].library == d.recordings[k].library
            &&& after.recordings[k].path == d.recordings[k].path
            &&& appears(after, d.recordings[k].id)
        }),
{
    let kind = d.active_kind();
    let v = walked(d, kind, folder, disk, walk).store;
    let w = all_noticed(v, kind, folder, disk);
    let after = scanned(d, disk, walk, files);
    first_found(d.libraries, library_of(kind));
    let l = first(d.libraries, library_of(kind))->0;
    let at = choose|i: int| 0 <= i < d.libraries.len() && d.libraries[i] == l;
    assert forall|i: int|
        0 <= i < d.libraries.len() && (#[trigger] d.libraries[i]).kind == kind implies i == at by {
        assert(d.libraries[at].kind == kind);
    }
    assert(in_place(d, disk, d.recordings[k]));
    found_recordings_stay(d, folder, disk, walk, k);
    scans_forget_nothing(d, disk, walk, files);
    walks_lose_nothing(d, kind, folder, disk, walk);
    after_the_walk_places_stay(w, files, kind);
    after_the_walk_settings_stay(w, files, kind);
    marks_stay(w, files, kind);
    scanned_wf(d, disk, walk, files);
    assert(after.active_kind() == kind);
    assert(after.library_path_of(kind) == Some(folder));
    recordings_in_the_library_appear(after, k);
}

/// What follows the walk of a scan keeps libraries and settings.
proof fn after_the_walk_settings_stay(d: StoreView, files: Seq<AnalysisFileView>, kind: Seq<char>)
    ensures
        stale_requeued(analyses_adopted(d, files), kind).libraries == d.libraries,
        stale_requeued(analyses_adopted(d, files), kind).meta == d.meta,
{
    adoption_keeps_settings(d, files, d.recordings, d.recordings.len());
}

/// Adopting keeps libraries and settings.
proof fn adoption_keeps_settings(
    d: StoreView,
    files: Seq<AnalysisFileView>,
    rows: Seq<RecordingView>,
    n: nat,
)
    requires
        n <= rows.len(),
    ensures
        adopt_first(d, files, rows, n).libraries == d.libraries,
        adopt_first(d, files, rows, n).meta == d.meta,
    decreases n,
{
    if n > 0 {
        adoption_keeps_settings(d, files, rows, (n - 1) as nat);
    }
}

/// Stores with the same places have the same keys.
proof fn same_keys(a: StoreView, b: StoreView, kind: Seq<char>, key: Seq<char>)
    requires
        same_places(a, b),
    ensures
        any(a.recordings, recording_at(kind, key)) == any(b.recordings, recording_at(kind, key)),
{
    let q = recording_at(kind, key);
    if any(a.recordings, q) {
        let k = choose|k: int| 0 <= k < a.recordings.len() && q(#[trigger] a.recordings[k]);
        assert(q(b.recordings[k]));
    }
    if any(b.recordings, q) {
        let k = choose|k: int| 0 <= k < b.recordings.len() && q(#[trigger] b.recordings[k]);
        assert(q(a.recordings[k]));
    }
}

/// Stores with the same places know the same entries.
proof fn counts_agree(
    a: StoreView,
    b: StoreView,
    kind: Seq<char>,
    folder: Seq<char>,
    walk: Seq<DiskEntryView>,
)
    requires
        same_places(a, b),
    ensures
        known_count(a, kind, folder, walk) == known_count(b, kind, folder, walk),
    decreases walk.len(),
{
    if walk.len() > 0 {
        counts_agree(a, b, kind, folder, walk.drop_last());
        if let Some(rel) = stripped(folder, walk.last().path) {
            same_keys(a, b, kind, rel);
        }
    }
}

/// A video that is registered under its key is skipped; what is no file, no video or not
/// under the folder is passed over.
pub proof fn known_videos_are_skipped(
    s: ScanView,
    kind: Seq<char>,
    folder: Seq<char>,
    e: DiskEntryView,
    k: int,
)
    ensures
        !e.is_file || !video_path(e.path) || stripped(folder, e.path) is None ==> entry_met(
            s,
            kind,
            folder,
            e,
        ) == s,
        e.is_file && video_path(e.path) && 0 <= k < s.store.recordings.len()
            && s.store.recordings[k].library == kind && stripped(folder, e.path) == Some(
            s.store.recordings[k].path,
        ) ==> entry_met(s, kind, folder, e) == (ScanView { skipped: s.skipped + 1, ..s }),
{
    if 0 <= k < s.store.recordings.len() && s.store.recordings[k].library == kind && stripped(
        folder,
        e.path,
    ) == Some(s.store.recordings[k].path) {
        assert(recording_at(kind, s.store.recordings[k].path)(s.store.recordings[k]));
    }
}

/// What is reported as not found comes in ascending order.
pub proof fn reports_come_in_order(s: ScanView, folder: Seq<char>, i: int, j: int)
    requires
        0 <= i < j < unresolved_paths(s, folder).len(),
    ensures
        !text_before(unresolved_paths(s, folder)[j], unresolved_paths(s, folder)[i]),
        s.missing.len() == unresolved_paths(s, folder).len(),
{
    let b = text_order();
    let paths = s.missing.map_values(path_in(folder));
    assert(is_order(b)) by {
        assert forall|x: Seq<char>, y: Seq<char>| #[trigger] b(x, y) implies !b(y, x) by {
            before_one_way(x, y);
        }
        assert forall|x: Seq<char>, y: Seq<char>, z: Seq<char>|
            !#[trigger] b(x, y) && !#[trigger] b(y, z) implies !b(x, z) by {
            not_before_is_carried(x, y, z);
        }
    }
    sort_by_sorted(paths, b);
    sort_by_len(paths, b);
    assert(!b(unresolved_paths(s, folder)[j], unresolved_paths(s, folder)[i]));
}

/// What is reported as not found are the places of the recordings that were looked for in
/// vain: their keys under the folder.
pub proof fn reports_tell_places(s: ScanView, folder: Seq<char>, path: Seq<char>)
    ensures
        unresolved_paths(s, folder).contains(path) <==> exists|k: int|
            0 <= k < s.missing.len() && path == joined(folder, (#[trigger] s.missing[k]).path),
{
    let f = path_in(folder);
    let paths = s.missing.map_values(f);
    sort_by_elements(paths, text_order());
    assert(unresolved_paths(s, folder).contains(path) <==> paths.contains(path));
    if paths.contains(path) {
        let k = choose|k: int| 0 <= k < paths.len() && paths[k] == path;
        assert(path == joined(folder, s.missing[k].path));
    }
    if exists|k: int|
        0 <= k < s.missing.len() && path == joined(folder, (#[trigger] s.missing[k]).path) {
        let k = choose|k: int|
            0 <= k < s.missing.len() && path == joined(folder, (#[trigger] s.missing[k]).path);
        assert(paths[k] == path);
    }
}

/// A scan takes in what is published: a recording of the shared library that waits for a
/// draft has one after the scan, where one of a current segmenter is there for its content.
pub proof fn scans_take_in_what_is_published(
    d: StoreView,
    disk: Seq<DiskEntryView>,
    walk: Seq<DiskEntryView>,
    files: Seq<AnalysisFileView>,
    folder: Seq<char>,
    k: int,
)
    requires
        d.wf(),
        scan_fits(d, walk, files),
        d.library_path_of(d.active_kind()) == Some(folder),
        0 <= k < walked(d, d.active_kind(), folder, disk, walk).store.recordings.len(),
        ({
            let v = walked(d, d.active_kind(), folder, disk, walk).store;
            let r = v.recordings[k];
            &&& takes_analysis(v, r)
            &&& best_analysis(files, key_prefix(r.quick_hash, r.file_size as int)) matches Some(a)
                && a.segmenter_version >= 1
        }),
    ensures
        ({
            let r = walked(d, d.active_kind(), folder, disk, walk).store.recordings[k];
            let n = scanned(d, disk, walk, files).recordings[k];
            let a = best_analysis(files, key_prefix(r.quick_hash, r.file_size as int))->0;
            &&& n.id == r.id
            &&& n.segment_state == "ready"@
            &&& n.probe_state == "ready"@
            &&& n.duration_ms == a.duration_ms
            &&& n.segmenter_version == Some(a.segmenter_version as i64)
        }),
{
    let kind = d.active_kind();
    let v = walked(d, kind, folder, disk, walk).store;
    let w = all_noticed(v, kind, folder, disk);
    let r = v.recordings[k];
    walked_wf(d, kind, folder, disk, walk, i64::MAX - walk.len());
    all_noticed_wf(v, kind, folder, disk);
    assert(hand_touched(w, r.id) == hand_touched(v, r.id));
    assert(w.library_path_of("shared"@) == v.library_path_of("shared"@));
    waiting_recordings_take_what_is_published(w, files, k);
    let x = analyses_adopted(w, files);
    adoption_keeps_ids(w, files, w.recordings, w.recordings.len());
    assert(!stale(x, kind)(x.recordings[k]));
}

} // verus!
