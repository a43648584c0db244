//! Cross-library carry-over: when the same content is a copy in both libraries
//! and only one side is hand-touched, offer to carry that review onto the
//! untouched copy.
use vstd::prelude::*;
use vstd::string::*;

use crate::bundle::{carried_annotation, carried_rally};
use crate::disk::{exists_at, is_present, DiskEntry, DiskEntryView};
use crate::drafts::{
    annotations_fit, annotations_replaced, rallies_fit, rallies_replaced, replace_annotations,
    replace_rallies, Draft, Remark, RemarkView,
};
use crate::grouping::{amend, find_id};
use crate::laws::settings::settings_are_read_back;
use crate::ledger::{is_member, json_set_text, kept_set, parse_set, set_with};
use crate::library::{library_path_of, meta_get, meta_set, with_meta};
use crate::path::{absolute, is_absolute, joined, relative, rooted, stripped};
use crate::store::{
    annotations_of, rallies_of, recording_with, AnnotationRow, LibraryView, RallyRow, RecordingRow,
    RecordingView, Store, StoreView,
};
use crate::table::{each, first, keep, rewrite, Row};
use crate::text::{copy_option, same};
use crate::timeline::{find_recording, hand_touched, is_hand_touched};

verus! {

/// An offer to carry a review from one copy of a content to the other.
#[derive(Debug)]
pub struct CarryOffer {
    /// Absolute path of the copy that has the review.
    pub from_path: String,
    /// Absolute path of the copy that would receive it.
    pub to_path: String,
    /// Library kind of the copy that would receive it.
    pub to_kind: String,
}

/// What an offer holds.
#[verifier::ext_equal]
pub struct CarryView {
    pub from_path: Seq<char>,
    pub to_path: Seq<char>,
    pub to_kind: Seq<char>,
}

impl DeepView for CarryOffer {
    type V = CarryView;

    open spec fn deep_view(&self) -> CarryView {
        CarryView { from_path: self.from_path@, to_path: self.to_path@, to_kind: self.to_kind@ }
    }
}

/// The key under which a dismissal is kept: the destination's kind and the
/// content's fingerprint.
pub open spec fn dismissal_key(to_kind: Seq<char>, quick_hash: Seq<char>) -> Seq<char> {
    to_kind + ":"@ + quick_hash
}

/// The stable key a carry-over dismissal is stored under.
pub fn carry_key(to_kind: &str, quick_hash: &str) -> (r: String)
    ensures
        r@ == dismissal_key(to_kind@, quick_hash@),
{
    let mut out = to_kind.to_owned();
    out.append(":");
    out.append(quick_hash);
    out
}

/// The dismissals that are kept.
pub open spec fn dismissed(d: StoreView) -> Set<Seq<char>> {
    kept_set(d.meta_value("dismissed_carries"@))
}

/// The dismissals that are kept.
pub fn dismissed_carries(conn: &Store) -> (r: Vec<String>)
    ensures
        r.deep_view().to_set() == dismissed(conn@),
{
    parse_set(&meta_get(conn, "dismissed_carries"))
}

/// The offer between a recording of the local library and one of the shared
/// library: made where both have one content, both are found under their
/// libraries, exactly one is hand-touched, and it was not dismissed.
pub open spec fn offer_between(
    d: StoreView,
    disk: Seq<DiskEntryView>,
    local: Seq<char>,
    shared: Seq<char>,
    l: RecordingView,
    s: RecordingView,
) -> Option<CarryView> {
    let l_path = joined(local, l.path);
    let s_path = joined(shared, s.path);
    let to_kind = if hand_touched(d, l.id) {
        "shared"@
    } else {
        "local"@
    };
    if l.library == "local"@ && s.library == "shared"@ && l.quick_hash == s.quick_hash
        && l.file_size == s.file_size && !rooted(l.path) && !rooted(s.path) && exists_at(
        disk,
        l_path,
    ) && exists_at(disk, s_path) && hand_touched(d, l.id) != hand_touched(d, s.id)
        && !dismissed(d).contains(dismissal_key(to_kind, l.quick_hash)) {
        if hand_touched(d, l.id) {
            Some(CarryView { from_path: l_path, to_path: s_path, to_kind })
        } else {
            Some(CarryView { from_path: s_path, to_path: l_path, to_kind })
        }
    } else {
        None
    }
}

/// The offers between one recording of the local library and some others.
pub open spec fn offers_with(
    d: StoreView,
    disk: Seq<DiskEntryView>,
    local: Seq<char>,
    shared: Seq<char>,
    l: RecordingView,
) -> spec_fn(RecordingView) -> Option<CarryView> {
    |s: RecordingView| offer_between(d, disk, local, shared, l, s)
}

/// The offers of some recordings of the local library, each with every other
/// recording.
pub open spec fn offers_from(
    d: StoreView,
    disk: Seq<DiskEntryView>,
    local: Seq<char>,
    shared: Seq<char>,
    rows: Seq<RecordingView>,
) -> Seq<CarryView>
    decreases rows.len(),
{
    if rows.len() == 0 {
        Seq::empty()
    } else {
        offers_from(d, disk, local, shared, rows.drop_last()) + d.recordings.filter_map(
            offers_with(d, disk, local, shared, rows.last()),
        )
    }
}

/// Every carry-over offer: none when either library is not designated.
pub open spec fn all_offers(d: StoreView, disk: Seq<DiskEntryView>) -> Seq<CarryView> {
    match (d.library_path_of("local"@), d.library_path_of("shared"@)) {
        (Some(local), Some(shared)) => offers_from(d, disk, local, shared, d.recordings),
        _ => Seq::empty(),
    }
}

/// The offer between two recordings.
fn offer_for(
    conn: &Store,
    disk: &Vec<DiskEntry>,
    kept: &Vec<String>,
    local: &str,
    shared: &str,
    l: &RecordingRow,
    s: &RecordingRow,
) -> (r: Option<CarryOffer>)
    requires
        kept.deep_view().to_set() == dismissed(conn@),
    ensures
        r.deep_view() == offer_between(
            conn@,
            disk.deep_view(),
            local@,
            shared@,
            l.deep_view(),
            s.deep_view(),
        ),
{
    if !same(&l.library, "local") || !same(&s.library, "shared") || !same(
        &l.quick_hash,
        &s.quick_hash,
    ) || l.file_size != s.file_size {
        return None;
    }
    if is_absolute(&l.path) || is_absolute(&s.path) {
        return None;
    }
    let l_path = absolute(local, &l.path);
    let s_path = absolute(shared, &s.path);
    if !is_present(disk, &l_path) || !is_present(disk, &s_path) {
        return None;
    }
    let l_touched = is_hand_touched(conn, l.id);
    let s_touched = is_hand_touched(conn, s.id);
    if l_touched == s_touched {
        return None;
    }
    let to_kind = if l_touched {
        "shared".to_owned()
    } else {
        "local".to_owned()
    };
    if is_member(kept, &carry_key(&to_kind, &l.quick_hash)) {
        return None;
    }
    if l_touched {
        Some(CarryOffer { from_path: l_path, to_path: s_path, to_kind })
    } else {
        Some(CarryOffer { from_path: s_path, to_path: l_path, to_kind })
    }
}

/// Cross-library carry-over offers: every pair of recordings, one in each
/// library, of one content with both files present, where exactly one side is
/// hand-touched and the offer was not dismissed.
pub fn carry_offers(conn: &Store, disk: &Vec<DiskEntry>) -> (r: Vec<CarryOffer>)
    ensures
        r.deep_view() == all_offers(conn@, disk.deep_view()),
{
    let mut out: Vec<CarryOffer> = Vec::new();
    assert(out.deep_view() =~= Seq::empty());
    let local = match library_path_of(conn, "local") {
        Some(l) => l,
        None => {
            return out;
        },
    };
    let shared = match library_path_of(conn, "shared") {
        Some(l) => l,
        None => {
            return out;
        },
    };
    let kept = dismissed_carries(conn);
    let ghost d = conn@;
    let ghost dv = disk.deep_view();
    let ghost rows = d.recordings;
    let mut i: usize = 0;
    assert(rows.take(0) =~= Seq::empty());
    while i < conn.recordings.len()
        invariant
            i <= conn.recordings@.len(),
            d == conn@,
            dv == disk.deep_view(),
            rows == d.recordings,
            kept.deep_view().to_set() == dismissed(d),
            out.deep_view() == offers_from(d, dv, local@, shared@, rows.take(i as int)),
        decreases conn.recordings@.len() - i,
    {
        let l = &conn.recordings[i];
        let ghost f = offers_with(d, dv, local@, shared@, l.deep_view());
        let ghost start = out.deep_view();
        proof {
            assert(rows.take(i + 1).drop_last() =~= rows.take(i as int));
            assert(rows.take(i + 1).last() == l.deep_view());
            assert(start + rows.take(0).filter_map(f) =~= start);
        }
        let mut j: usize = 0;
        while j < conn.recordings.len()
            invariant
                j <= conn.recordings@.len(),
                d == conn@,
                dv == disk.deep_view(),
                rows == d.recordings,
                kept.deep_view().to_set() == dismissed(d),
                f == offers_with(d, dv, local@, shared@, l.deep_view()),
                out.deep_view() == start + rows.take(j as int).filter_map(f),
            decreases conn.recordings@.len() - j,
        {
            let s = &conn.recordings[j];
            proof {
                assert(rows.take(j + 1).drop_last() =~= rows.take(j as int));
                assert(rows.take(j + 1).last() == s.deep_view());
            }
            if let Some(offer) = offer_for(conn, disk, &kept, &local, &shared, l, s) {
                let ghost prev = out.deep_view();
                let ghost ov = offer.deep_view();
                out.push(offer);
                assert(out.deep_view() =~= prev.push(ov));
                assert(out.deep_view() =~= start + (rows.take(j as int).filter_map(f) + seq![ov]));
            }
            j += 1;
        }
        assert(rows.take(j as int) =~= rows);
        i += 1;
    }
    assert(rows.take(i as int) =~= rows);
    out
}

/// The id of the recording at an absolute path in the first of some libraries
/// that it is registered in.
pub open spec fn id_in_any(d: StoreView, libraries: Seq<LibraryView>, path: Seq<char>) -> Option<
    i64,
>
    decreases libraries.len(),
{
    if libraries.len() == 0 {
        None
    } else {
        match id_in_any(d, libraries.drop_last(), path) {
            Some(id) => Some(id),
            None => match stripped(libraries.last().path, path) {
                Some(rel) => d.id_at(libraries.last().kind, rel),
                None => None,
            },
        }
    }
}

/// The id of the recording at an absolute path in whichever library it lies
/// under.
pub fn recording_id_any_library(conn: &Store, path: &str) -> (r: Option<i64>)
    ensures
        r == id_in_any(conn@, conn@.libraries, path@),
{
    let ghost libs = conn@.libraries;
    let mut i: usize = 0;
    let mut found: Option<i64> = None;
    assert(libs.take(0) =~= Seq::empty());
    while i < conn.libraries.len()
        invariant
            i <= conn.libraries@.len(),
            libs == conn@.libraries,
            found == id_in_any(conn@, libs.take(i as int), path@),
        decreases conn.libraries@.len() - i,
    {
        let l = &conn.libraries[i];
        proof {
            assert(libs.take(i + 1).drop_last() =~= libs.take(i as int));
            assert(libs.take(i + 1).last() == l.deep_view());
        }
        if found.is_none() {
            if let Some(rel) = relative(&l.path, path) {
                if let Some(k) = find_recording(conn, &l.kind, &rel) {
                    found = Some(conn.recordings[k].id);
                }
            }
        }
        i += 1;
    }
    assert(libs.take(i as int) =~= libs);
    found
}

/// The store after the offer into the copy at a path is dismissed.
pub open spec fn dismissal(d: StoreView, row: RecordingView) -> StoreView {
    with_meta(
        d,
        "dismissed_carries"@,
        json_set_text(dismissed(d).insert(dismissal_key(row.library, row.quick_hash))),
    )
}

/// Dismiss the carry-over offer whose receiving copy is at `to_path`, so that it
/// is not surfaced again. Nothing happens when `to_path` is not a registered
/// recording.
pub fn dismiss_carry(conn: &mut Store, to_path: &str)
    ensures
        match id_in_any(old(conn)@, old(conn)@.libraries, to_path@) {
            Some(id) => match first(old(conn)@.recordings, recording_with(id)) {
                Some(row) => {
                    let kept = dismissed(old(conn)@).insert(
                        dismissal_key(row.library, row.quick_hash),
                    );
                    &&& final(conn)@ == dismissal(old(conn)@, row)
                    &&& dismissed(final(conn)@) == kept
                },
                None => final(conn)@ == old(conn)@,
            },
            None => final(conn)@ == old(conn)@,
        },
        old(conn)@.wf() ==> final(conn)@.wf(),
{
    let id = match recording_id_any_library(conn, to_path) {
        Some(id) => id,
        None => {
            return;
        },
    };
    let at = match find_id(conn, id) {
        Some(i) => i,
        None => {
            return;
        },
    };
    let key = carry_key(&conn.recordings[at].library, &conn.recordings[at].quick_hash);
    let kept = dismissed_carries(conn);
    let json = set_with(kept, key);
    proof {
        settings_are_read_back(conn@, "dismissed_carries"@, json@, "dismissed_carries"@);
    }
    meta_set(conn, "dismissed_carries", &json);
}

/// A recording with the analyzed timeline of another.
pub open spec fn timeline_from(source: RecordingView) -> spec_fn(RecordingView) -> RecordingView {
    |r: RecordingView|
        RecordingView {
            segment_state: "ready"@,
            duration_ms: source.duration_ms,
            waveform: source.waveform,
            ..r
        }
}

/// The rallies of a recording as they are copied.
pub open spec fn copied_rallies(d: StoreView, id: i64) -> Seq<Draft> {
    d.rallies.filter(rallies_of(id)).map_values(carried_rally())
}

/// The annotations of a recording as they are copied.
pub open spec fn copied_annotations(d: StoreView, id: i64) -> Seq<RemarkView> {
    d.annotations.filter(annotations_of(id)).map_values(carried_annotation())
}

/// The store after the review of one recording replaces that of another: rallies
/// with their flags, annotations, and the analyzed timeline.
pub open spec fn review_carried(d: StoreView, from: RecordingView, to: i64) -> StoreView {
    StoreView {
        rallies: rallies_replaced(d.rallies, to, copied_rallies(d, from.id)),
        annotations: annotations_replaced(d.annotations, to, copied_annotations(d, from.id)),
        recordings: rewrite(d.recordings, recording_with(to), timeline_from(from)),
        ..d
    }
}

/// The recordings between which a review is carried, if both are registered.
pub open spec fn carry_ends(d: StoreView, from_path: Seq<char>, to_path: Seq<char>) -> Option<
    (RecordingView, i64),
> {
    match (id_in_any(d, d.libraries, from_path), id_in_any(d, d.libraries, to_path)) {
        (Some(from), Some(to)) => match first(d.recordings, recording_with(from)) {
            Some(row) => Some((row, to)),
            None => None,
        },
        _ => None,
    }
}

/// Apply an accepted carry-over offer: copy the review and the analyzed timeline
/// from the recording at `from_path` onto the copy at `to_path`, replacing what
/// it had. Returns whether anything was carried: not when either path is not a
/// registered recording.
pub fn carry_review(conn: &mut Store, from_path: &str, to_path: &str) -> (r: bool)
    requires
        carry_ends(old(conn)@, from_path@, to_path@) matches Some((from, to)) ==> {
            &&& rallies_fit(
                old(conn)@.rallies,
                to,
                copied_rallies(old(conn)@, from.id).len(),
            )
            &&& annotations_fit(
                old(conn)@.annotations,
                to,
                copied_annotations(old(conn)@, from.id).len(),
            )
        },
    ensures
        r == (carry_ends(old(conn)@, from_path@, to_path@) is Some),
        final(conn)@ == (match carry_ends(old(conn)@, from_path@, to_path@) {
            Some((from, to)) => review_carried(old(conn)@, from, to),
            None => old(conn)@,
        }),
        old(conn)@.wf() ==> final(conn)@.wf(),
{
    proof {
        if conn@.wf() {
            crate::upkeep::id_in_any_is_known(conn@, conn@.libraries, to_path@);
            if let Some((from, to)) = carry_ends(conn@, from_path@, to_path@) {
                crate::upkeep::review_carried_wf(conn@, from, to);
            }
        }
    }
    let from_id = match recording_id_any_library(conn, from_path) {
        Some(id) => id,
        None => {
            return false;
        },
    };
    let to_id = match recording_id_any_library(conn, to_path) {
        Some(id) => id,
        None => {
            return false;
        },
    };
    let at = match find_id(conn, from_id) {
        Some(i) => i,
        None => {
            return false;
        },
    };
    let ghost d = conn@;
    let ghost from = conn.recordings@[at as int].deep_view();
    let duration_ms = conn.recordings[at].duration_ms;
    let waveform = copy_option(&conn.recordings[at].waveform);
    let drafts = drafts_of(conn, from_id);
    let remarks = remarks_of(conn, from_id);
    assert(remarks.deep_view().len() == remarks@.len());
    replace_rallies(conn, to_id, &drafts);
    replace_annotations(conn, to_id, &remarks);
    let ghost g = timeline_from(from);
    amend(
        conn,
        to_id,
        |r: &RecordingRow| -> (n: RecordingRow)
            ensures
                n.deep_view() == g(r.deep_view())
            {
                let mut n = r.dup();
                n.segment_state = "ready".to_owned();
                n.duration_ms = duration_ms;
                n.waveform = copy_option(&waveform);
                n
            },
        Ghost(g),
    );
    assert(conn@ =~= review_carried(d, from, to_id));
    true
}

/// The rallies of a recording as they are copied.
fn drafts_of(conn: &Store, id: i64) -> (r: Vec<Draft>)
    ensures
        r@ == copied_rallies(conn@, id),
{
    let own = keep(
        &conn.rallies,
        |r: &RallyRow| -> (b: bool)
            ensures
                b == (r.recording_id == id)
            { r.recording_id == id },
        Ghost(rallies_of(id)),
    );
    let ghost all = own.deep_view();
    let mut out: Vec<Draft> = Vec::new();
    let mut i: usize = 0;
    while i < own.len()
        invariant
            i <= own@.len(),
            all == own.deep_view(),
            out@ == all.take(i as int).map_values(carried_rally()),
        decreases own@.len() - i,
    {
        let r = &own[i];
        assert(all[i as int] == r.deep_view());
        out.push(
            Draft {
                start_ms: r.start_ms,
                end_ms: r.end_ms,
                confidence: r.confidence,
                flagged: r.flagged,
            },
        );
        assert(out@ =~= all.take(i + 1).map_values(carried_rally()));
        i += 1;
    }
    assert(all.take(i as int) =~= all);
    out
}

/// The annotations of a recording as they are copied.
fn remarks_of(conn: &Store, id: i64) -> (r: Vec<Remark>)
    ensures
        r.deep_view() == copied_annotations(conn@, id),
{
    let own = keep(
        &conn.annotations,
        |a: &AnnotationRow| -> (b: bool)
            ensures
                b == (a.recording_id == id)
            { a.recording_id == id },
        Ghost(annotations_of(id)),
    );
    each(
        &own,
        |a: &AnnotationRow| -> (r: Remark)
            ensures
                r.deep_view() == carried_annotation()(a.deep_view())
            {
                Remark {
                    time_ms: a.time_ms,
                    verdict: a.verdict.clone(),
                    aspect: copy_option(&a.aspect),
                    note: copy_option(&a.note),
                }
            },
        Ghost(carried_annotation()),
    )
}

} // verus!
