//! Receiving a session bundle into this device's shared library, and settling the
//! conflicts that a receive reports.
use vstd::prelude::*;
use vstd::string::*;

use crate::bundle::{
    apply_bundle_state, received, state_applied, state_matches, state_matches_bundle, BUNDLE_FORMAT,
    BUNDLE_VERSION, BundleRecording, BundleRecordingView, SessionBundle, SessionBundleView,
};
use crate::disk::{file_verified, verify_bundle_file, DiskEntry, DiskEntryView};
use crate::drafts::{annotations_fit, annotations_replaced_below, rallies_fit, replaced_below};
use crate::grouping::{pushed_below, register, registered, rewritten_below, with_session_below};
use crate::library::{active_kind, library_path_of};
use crate::path::{absolute, joined};
use crate::store::{
    annotations_below, next_recording, next_session, rallies_below, recording_at, recording_with,
    recordings_below, sessions_below, Store, StoreView,
};
use crate::table::first;
use crate::text::{decimal, decimal_text, same};
use crate::timeline::{find_recording, hand_touched, is_hand_touched};

verus! {

/// One recording a receive could not apply, named so the user knows which file.
#[derive(Debug)]
pub struct BundleRefusal {
    /// Absolute path of the file that failed verification.
    pub path: String,
    pub reason: String,
}

/// The outcome of receiving a bundle.
#[derive(Debug)]
pub struct ReceiveResult {
    /// Recordings taken silently.
    pub applied: usize,
    /// Files that failed verification.
    pub refused: Vec<BundleRefusal>,
    /// Library-relative paths of hand-touched recordings that await a choice.
    pub conflicts: Vec<String>,
}

/// What a refusal holds.
#[verifier::ext_equal]
pub struct RefusalView {
    pub path: Seq<char>,
    pub reason: Seq<char>,
}

impl DeepView for BundleRefusal {
    type V = RefusalView;

    open spec fn deep_view(&self) -> RefusalView {
        RefusalView { path: self.path@, reason: self.reason@ }
    }
}

/// The store and the outcome so far of receiving a bundle.
#[verifier::ext_equal]
pub struct Reception {
    pub store: StoreView,
    pub applied: nat,
    pub refused: Seq<RefusalView>,
    pub conflicts: Seq<Seq<char>>,
}

/// Why a file that fails verification is refused.
pub open spec fn mismatch_reason() -> Seq<char> {
    "file does not match the bundle (missing, or different content)"@
}

/// The store after one recording of a bundle is applied: registered first where
/// the shared library does not know it.
pub open spec fn taken(d: StoreView, rec: BundleRecordingView) -> StoreView {
    match d.id_at("shared"@, rec.path) {
        Some(id) => state_applied(d, id, rec),
        None => state_applied(
            registered(
                d,
                "shared"@,
                rec.path,
                rec.file_size,
                rec.quick_hash,
                rec.capture_day,
            ),
            next_recording(d.recordings) as i64,
            rec,
        ),
    }
}

/// One recording of a bundle received: nothing where the store already holds its
/// state, a conflict where a hand touched what it holds, a refusal where the file
/// is not the one described, and else the carried state applied.
pub open spec fn receive_one(
    s: Reception,
    library: Seq<char>,
    disk: Seq<DiskEntryView>,
    rec: BundleRecordingView,
) -> Reception {
    let existing = s.store.id_at("shared"@, rec.path);
    let path = joined(library, rec.path);
    if existing is Some && state_matches(s.store, existing->0, rec) {
        s
    } else if existing is Some && hand_touched(s.store, existing->0) {
        Reception { conflicts: s.conflicts.push(rec.path), ..s }
    } else if !file_verified(disk, path, rec.quick_hash, rec.file_size) {
        Reception {
            refused: s.refused.push(RefusalView { path, reason: mismatch_reason() }),
            ..s
        }
    } else {
        Reception { store: taken(s.store, rec), applied: s.applied + 1, ..s }
    }
}

/// The recordings of a bundle received one after the other.
pub open spec fn receive_all(
    d: StoreView,
    library: Seq<char>,
    disk: Seq<DiskEntryView>,
    recs: Seq<BundleRecordingView>,
) -> Reception
    decreases recs.len(),
{
    if recs.len() == 0 {
        Reception { store: d, applied: 0, refused: Seq::empty(), conflicts: Seq::empty() }
    } else {
        receive_one(receive_all(d, library, disk, recs.drop_last()), library, disk, recs.last())
    }
}

/// Why a bundle is not received at all, if so.
pub open spec fn receive_error(d: StoreView, bundle: SessionBundleView) -> Option<Seq<char>> {
    if bundle.format != BUNDLE_FORMAT@ {
        Some("this file is not a Voloph session bundle"@)
    } else if bundle.version > BUNDLE_VERSION {
        Some(
            "this bundle is from a newer version of Voloph (format v"@ + decimal(
                bundle.version as nat,
            ) + ")"@,
        )
    } else if d.library_path_of("shared"@) is None {
        Some("designate the shared library before receiving a bundle"@)
    } else {
        None
    }
}

/// How many rallies the recordings of a bundle hold.
pub open spec fn rally_total(recs: Seq<BundleRecordingView>) -> nat
    decreases recs.len(),
{
    if recs.len() == 0 {
        0
    } else {
        rally_total(recs.drop_last()) + recs.last().rallies.len()
    }
}

/// How many annotations the recordings of a bundle hold.
pub open spec fn annotation_total(recs: Seq<BundleRecordingView>) -> nat
    decreases recs.len(),
{
    if recs.len() == 0 {
        0
    } else {
        annotation_total(recs.drop_last()) + recs.last().annotations.len()
    }
}

/// Whether every id stays in range while so many rows are added.
pub open spec fn ids_fit(
    d: StoreView,
    recordings: int,
    rallies: int,
    annotations: int,
) -> bool {
    &&& sessions_below(d.sessions, i64::MAX - recordings)
    &&& recordings_below(d.recordings, i64::MAX - recordings)
    &&& rallies_below(d.rallies, i64::MAX - rallies)
    &&& annotations_below(d.annotations, i64::MAX - annotations)
}

/// Totals over a prefix are those of the whole at most.
pub(crate) proof fn totals_ascend(recs: Seq<BundleRecordingView>, i: int)
    requires
        0 <= i <= recs.len(),
    ensures
        rally_total(recs.take(i)) <= rally_total(recs),
        annotation_total(recs.take(i)) <= annotation_total(recs),
    decreases recs.len() - i,
{
    if i < recs.len() {
        totals_ascend(recs, i + 1);
        assert(recs.take(i + 1).drop_last() =~= recs.take(i));
    } else {
        assert(recs.take(i) =~= recs);
    }
}

/// Receiving one recording uses up no more ids than it holds rows.
pub(crate) proof fn taken_fits(d: StoreView, rec: BundleRecordingView, n: int, r: int, a: int)
    requires
        ids_fit(d, n + 1, r + rec.rallies.len(), a + rec.annotations.len()),
        n >= 0,
        r >= 0,
        a >= 0,
    ensures
        ids_fit(taken(d, rec), n, r, a),
        next_session(d.sessions) <= i64::MAX,
        next_recording(d.recordings) <= i64::MAX,
        forall|id: i64|
            rallies_fit(d.rallies, id, #[trigger] rec.rallies.len()) && annotations_fit(
                d.annotations,
                id,
                rec.annotations.len(),
            ),
{
    let day = rec.capture_day;
    let bs = i64::MAX - n - 1;
    with_session_below(d.sessions, "shared"@, day, bs);
    let (id, e) = match d.id_at("shared"@, rec.path) {
        Some(id) => (id, d),
        None => (
            next_recording(d.recordings) as i64,
            registered(d, "shared"@, rec.path, rec.file_size, rec.quick_hash, day),
        ),
    };
    if d.recordings.len() > 0 {
        assert(d.recordings[d.recordings.len() - 1].id < bs);
    }
    if d.id_at("shared"@, rec.path) is None {
        pushed_below(d.recordings, e.recordings.last(), bs);
    } else {
        assert(recordings_below(d.recordings, bs + 1));
        assert(sessions_below(d.sessions, bs + 1));
    }
    rewritten_below(e.recordings, recording_with(id), received(rec), bs + 1);
    replaced_below(d.rallies, id, rec.rallies, i64::MAX - r - rec.rallies.len());
    annotations_replaced_below(
        d.annotations,
        id,
        rec.annotations,
        i64::MAX - a - rec.annotations.len(),
    );
    assert forall|id: i64|
        rallies_fit(d.rallies, id, #[trigger] rec.rallies.len()) && annotations_fit(
            d.annotations,
            id,
            rec.annotations.len(),
        ) by {
        replaced_below(d.rallies, id, rec.rallies, i64::MAX - r - rec.rallies.len());
        annotations_replaced_below(
            d.annotations,
            id,
            rec.annotations,
            i64::MAX - a - rec.annotations.len(),
        );
    }
}

/// Fewer rows fit where more do.
proof fn fits_less(d: StoreView, n: int, r: int, a: int, n2: int, r2: int, a2: int)
    requires
        ids_fit(d, n, r, a),
        n2 <= n,
        r2 <= r,
        a2 <= a,
    ensures
        ids_fit(d, n2, r2, a2),
{
}

/// Apply one recording of a bundle, registering it first where the shared library
/// does not know it.
fn take_recording(
    conn: &mut Store,
    existing: Option<i64>,
    rec: &BundleRecording,
    Ghost(n): Ghost<int>,
    Ghost(r): Ghost<int>,
    Ghost(a): Ghost<int>,
)
    requires
        existing == old(conn)@.id_at("shared"@, rec.path@),
        n >= 0,
        r >= 0,
        a >= 0,
        ids_fit(
            old(conn)@,
            n + 1,
            r + rec.deep_view().rallies.len(),
            a + rec.deep_view().annotations.len(),
        ),
    ensures
        final(conn)@ == taken(old(conn)@, rec.deep_view()),
        ids_fit(final(conn)@, n, r, a),
{
    proof {
        let rv = rec.deep_view();
        taken_fits(conn@, rv, n, r, a);
        assert(rv.rallies.len() == rec.rallies@.len());
        assert(rv.annotations.len() == rec.annotations@.len());
    }
    let id = match existing {
        Some(id) => id,
        None => register(
            conn,
            "shared",
            &rec.path,
            rec.file_size,
            &rec.quick_hash,
            &rec.capture_day,
        ),
    };
    apply_bundle_state(conn, id, rec);
}

/// The error text for a bundle of a newer format.
fn newer_format(version: u32) -> (r: String)
    ensures
        r@ == "this bundle is from a newer version of Voloph (format v"@ + decimal(version as nat)
            + ")"@,
{
    let mut out = "this bundle is from a newer version of Voloph (format v".to_owned();
    out.append(&decimal_text(version as u128));
    out.append(")");
    out
}

/// Receive a session bundle into this device's shared library. Registers unknown
/// recordings after verifying their file, replaces machine-only state silently,
/// and reports hand-touched recordings as conflicts, leaving those untouched. A
/// recording whose file is not the one described is refused by name while the
/// rest still applies.
pub fn receive_session_bundle(
    conn: &mut Store,
    bundle: &SessionBundle,
    disk: &Vec<DiskEntry>,
) -> (r: Result<ReceiveResult, String>)
    requires
        ids_fit(
            old(conn)@,
            bundle.deep_view().recordings.len() as int,
            rally_total(bundle.deep_view().recordings) as int,
            annotation_total(bundle.deep_view().recordings) as int,
        ),
    ensures
        r is Err <==> receive_error(old(conn)@, bundle.deep_view()) is Some,
        r matches Err(e) ==> Some(e@) == receive_error(old(conn)@, bundle.deep_view())
            && final(conn)@ == old(conn)@,
        r matches Ok(v) ==> {
            let all = receive_all(
                old(conn)@,
                old(conn)@.library_path_of("shared"@)->0,
                disk.deep_view(),
                bundle.deep_view().recordings,
            );
            &&& final(conn)@ == all.store
            &&& v.applied == all.applied
            &&& v.refused.deep_view() == all.refused
            &&& v.conflicts.deep_view() == all.conflicts
        },
        old(conn)@.wf() ==> final(conn)@.wf(),
{
    proof {
        if conn@.wf() {
            crate::upkeep::receive_all_wf(
                conn@,
                conn@.library_path_of("shared"@)->0,
                disk.deep_view(),
                bundle.deep_view().recordings,
                0,
                0,
                0,
            );
        }
    }
    let ghost d = old(conn)@;
    let ghost bv = bundle.deep_view();
    let ghost recs = bv.recordings;
    let ghost dv = disk.deep_view();
    if !same(&bundle.format, BUNDLE_FORMAT) {
        return Err("this file is not a Voloph session bundle".to_owned());
    }
    if bundle.version > BUNDLE_VERSION {
        return Err(newer_format(bundle.version));
    }
    let library = match library_path_of(conn, "shared") {
        Some(l) => l,
        None => {
            return Err("designate the shared library before receiving a bundle".to_owned());
        },
    };
    let mut applied: usize = 0;
    let mut refused: Vec<BundleRefusal> = Vec::new();
    let mut conflicts: Vec<String> = Vec::new();
    let mut i: usize = 0;
    proof {
        assert(recs.take(0) =~= Seq::empty());
        assert(refused.deep_view() =~= Seq::empty());
        assert(conflicts.deep_view() =~= Seq::empty());
    }
    while i < bundle.recordings.len()
        invariant
            i <= bundle.recordings@.len(),
            bv == bundle.deep_view(),
            recs == bv.recordings,
            dv == disk.deep_view(),
            applied <= i,
            ({
                let all = receive_all(d, library@, dv, recs.take(i as int));
                &&& conn@ == all.store
                &&& applied == all.applied
                &&& refused.deep_view() == all.refused
                &&& conflicts.deep_view() == all.conflicts
            }),
            ids_fit(
                conn@,
                recs.len() - i,
                rally_total(recs) - rally_total(recs.take(i as int)),
                annotation_total(recs) - annotation_total(recs.take(i as int)),
            ),
        decreases bundle.recordings@.len() - i,
    {
        let rec = &bundle.recordings[i];
        let ghost rv = rec.deep_view();
        let ghost n = recs.len() - i - 1;
        let ghost r = rally_total(recs) - rally_total(recs.take(i + 1));
        let ghost a = annotation_total(recs) - annotation_total(recs.take(i + 1));
        proof {
            assert(recs[i as int] == rv);
            assert(recs.take(i + 1).drop_last() =~= recs.take(i as int));
            assert(recs.take(i + 1).last() == rv);
            totals_ascend(recs, i + 1);
            fits_less(
                conn@,
                recs.len() - i,
                rally_total(recs) - rally_total(recs.take(i as int)),
                annotation_total(recs) - annotation_total(recs.take(i as int)),
                n,
                r,
                a,
            );
        }
        let path = absolute(&library, &rec.path);
        let existing = match find_recording(conn, "shared", &rec.path) {
            Some(k) => Some(conn.recordings[k].id),
            None => None,
        };
        i += 1;
        if let Some(id) = existing {
            if state_matches_bundle(conn, id, rec) {
                continue;
            }
            if is_hand_touched(conn, id) {
                let ghost prev = conflicts.deep_view();
                conflicts.push(rec.path.clone());
                assert(conflicts.deep_view() =~= prev.push(rv.path));
                continue;
            }
        }
        if !verify_bundle_file(disk, &path, &rec.quick_hash, rec.file_size) {
            let ghost prev = refused.deep_view();
            let ghost pv = path@;
            refused.push(
                BundleRefusal {
                    path,
                    reason:
                        "file does not match the bundle (missing, or different content)".to_owned(),
                },
            );
            assert(refused.deep_view() =~= prev.push(
                RefusalView { path: pv, reason: mismatch_reason() },
            ));
            continue;
        }
        take_recording(conn, existing, rec, Ghost(n), Ghost(r), Ghost(a));
        applied += 1;
    }
    assert(recs.take(i as int) =~= recs);
    Ok(ReceiveResult { applied, refused, conflicts })
}

/// Whether a bundle may be received now: bundles live in the shared library, so
/// not while another one is active.
pub fn may_receive(conn: &Store) -> (r: Result<(), String>)
    ensures
        r is Ok <==> conn@.active_kind() == "shared"@,
        r matches Err(e) ==> e@ == "switch to the shared library to receive a bundle"@,
{
    if same(&active_kind(conn), "shared") {
        Ok(())
    } else {
        Err("switch to the shared library to receive a bundle".to_owned())
    }
}

/// The recording of a bundle at a path.
pub open spec fn bundled_at(path: Seq<char>) -> spec_fn(BundleRecordingView) -> bool {
    |r: BundleRecordingView| r.path == path
}

/// Why a conflict is not settled by taking the bundle's side, if so.
pub open spec fn resolve_error(
    d: StoreView,
    bundle: SessionBundleView,
    disk: Seq<DiskEntryView>,
    path: Seq<char>,
) -> Option<Seq<char>> {
    match first(bundle.recordings, bundled_at(path)) {
        None => Some("recording not in bundle"@),
        Some(rec) => match d.library_path_of("shared"@) {
            None => Some("the shared library is not designated"@),
            Some(library) => if !file_verified(
                disk,
                joined(library, rec.path),
                rec.quick_hash,
                rec.file_size,
            ) {
                Some("file does not match the bundle: "@ + joined(library, rec.path))
            } else if d.id_at("shared"@, rec.path) is None {
                Some("Query returned no rows"@)
            } else {
                None
            },
        },
    }
}

/// Settle one conflict of a received bundle: take theirs replaces the recipient's
/// whole timeline and annotations with the bundle's after verifying the file
/// again; keep mine changes nothing. Returns whether the recording was replaced.
pub fn resolve_bundle_conflict(
    conn: &mut Store,
    bundle: &SessionBundle,
    disk: &Vec<DiskEntry>,
    path: &str,
    take_theirs: bool,
) -> (r: Result<bool, String>)
    requires
        ids_fit(
            old(conn)@,
            1,
            rally_total(bundle.deep_view().recordings) as int,
            annotation_total(bundle.deep_view().recordings) as int,
        ),
    ensures
        !take_theirs ==> r == Ok::<bool, String>(false) && final(conn)@ == old(conn)@,
        take_theirs ==> {
            let e = resolve_error(old(conn)@, bundle.deep_view(), disk.deep_view(), path@);
            &&& r is Err <==> e is Some
            &&& r matches Err(m) ==> Some(m@) == e && final(conn)@ == old(conn)@
            &&& r matches Ok(b) ==> b && final(conn)@ == state_applied(
                old(conn)@,
                old(conn)@.id_at("shared"@, path@)->0,
                first(bundle.deep_view().recordings, bundled_at(path@))->0,
            )
        },
        old(conn)@.wf() ==> final(conn)@.wf(),
{
    if !take_theirs {
        return Ok(false);
    }
    let ghost recs = bundle.deep_view().recordings;
    let mut i: usize = 0;
    assert(recs.take(0) =~= Seq::empty());
    while i < bundle.recordings.len() && !same(&bundle.recordings[i].path, path)
        invariant
            i <= bundle.recordings@.len(),
            recs == bundle.deep_view().recordings,
            forall|j: int| 0 <= j < i ==> !bundled_at(path@)(#[trigger] recs[j]),
        ensures
            i < bundle.recordings@.len() ==> bundled_at(path@)(recs[i as int]),
        decreases bundle.recordings@.len() - i,
    {
        assert(!bundled_at(path@)(recs[i as int]));
        i += 1;
    }
    if i >= bundle.recordings.len() {
        proof {
            crate::table::first_found(recs, bundled_at(path@));
        }
        return Err("recording not in bundle".to_owned());
    }
    proof {
        crate::table::first_is(recs, bundled_at(path@), i as int);
    }
    let rec = &bundle.recordings[i];
    assert(recs[i as int] == rec.deep_view());
    let library = match library_path_of(conn, "shared") {
        Some(l) => l,
        None => {
            return Err("the shared library is not designated".to_owned());
        },
    };
    let abs = absolute(&library, &rec.path);
    if !verify_bundle_file(disk, &abs, &rec.quick_hash, rec.file_size) {
        let mut out = "file does not match the bundle: ".to_owned();
        out.append(&abs);
        return Err(out);
    }
    let id = match find_recording(conn, "shared", &rec.path) {
        Some(k) => conn.recordings[k].id,
        None => {
            return Err("Query returned no rows".to_owned());
        },
    };
    proof {
        let rv = rec.deep_view();
        rest_of_totals(recs, i as int);
        fits_less(
            conn@,
            1,
            rally_total(recs) as int,
            annotation_total(recs) as int,
            1,
            rv.rallies.len() as int,
            rv.annotations.len() as int,
        );
        taken_fits(conn@, rv, 0, 0, 0);
        assert(rv.rallies.len() == rec.rallies@.len());
        assert(rv.annotations.len() == rec.annotations@.len());
    }
    proof {
        if conn@.wf() {
            let r = first(conn@.recordings, recording_at("shared"@, rec.path@))->0;
            crate::table::first_found(conn@.recordings, recording_at("shared"@, rec.path@));
            let k = choose|k: int| 0 <= k < conn@.recordings.len() && conn@.recordings[k] == r;
            assert(recording_with(r.id)(conn@.recordings[k]));
            crate::upkeep::state_applied_wf(conn@, id, rec.deep_view());
        }
    }
    apply_bundle_state(conn, id, rec);
    Ok(true)
}

/// One recording holds no more rows than the whole bundle.
proof fn rest_of_totals(recs: Seq<BundleRecordingView>, i: int)
    requires
        0 <= i < recs.len(),
    ensures
        recs[i].rallies.len() <= rally_total(recs),
        recs[i].annotations.len() <= annotation_total(recs),
{
    totals_ascend(recs, i + 1);
    assert(recs.take(i + 1).drop_last() =~= recs.take(i));
    assert(recs.take(i + 1).last() == recs[i]);
}

} // verus!
