//! Offers: declining one leaves the others, and accepting an offer to carry a review
//! carries it between the two recordings that it names.
use vstd::prelude::*;

use crate::carry::{
    all_offers, carry_ends, copied_annotations, copied_rallies, id_in_any, offer_between,
    offers_from, offers_with, review_carried, timeline_from, CarryView,
};
use crate::disk::DiskEntryView;
use crate::laws::edits::{carried_review_is_the_sources, carrying_again_changes_nothing};
use crate::laws::libraries::{clean, keys_round_trip};
use crate::laws::reviews::same_review;
use crate::laws::settings::settings_are_read_back;
use crate::library::with_meta;
use crate::offers::{
    declined, ledger_entry, ledger_name, offer_of, offer_order, seen, signature_of, BundleFileView,
    FileStamp, OfferView,
};
use crate::path::{joined, stripped};
use crate::store::{library_of, recording_at, recording_with, LibraryView, RecordingView, StoreView};
use crate::table::{
    filter_map_elements, filter_pushed, first, first_found, first_is, first_rewritten, is_order,
    sort_by, sort_by_filtered,
};
use crate::text::{before_one_way, not_before_is_carried, text_before_irreflexive};
use crate::timeline::hand_touched;

verus! {

/// The order of offers is an order.
pub proof fn offer_order_is_order()
    ensures
        is_order(offer_order()),
{
    let b = offer_order();
    assert forall|x: OfferView, y: OfferView| #[trigger] b(x, y) implies !b(y, x) by {
        if x.capture_day != y.capture_day {
            before_one_way(x.capture_day, y.capture_day);
        } else {
            before_one_way(x.sharer_label, y.sharer_label);
        }
    }
    assert forall|x: OfferView, y: OfferView, z: OfferView|
        !#[trigger] b(x, y) && !#[trigger] b(y, z) implies !b(x, z) by {
        text_before_irreflexive(x.capture_day);
        text_before_irreflexive(y.capture_day);
        not_before_is_carried(x.capture_day, y.capture_day, z.capture_day);
        if x.capture_day == z.capture_day {
            not_before_is_carried(x.sharer_label, y.sharer_label, z.sharer_label);
        }
    }
}

/// The offers of other files.
pub open spec fn offers_besides(path: Seq<char>) -> spec_fn(OfferView) -> bool {
    |o: OfferView| o.bundle_path != path
}

/// Declining the bundle at a path, where the files have different names, takes its
/// offer away and leaves the others as they are, in their order.
pub proof fn declining_leaves_the_other_offers(
    d: StoreView,
    files: Seq<BundleFileView>,
    k: int,
    stamp: FileStamp,
    ledger: Seq<char>,
)
    requires
        0 <= k < files.len(),
        files[k].stamp == Some(stamp),
        forall|i: int|
            0 <= i < files.len() && i != k ==> ledger_name((#[trigger] files[i]).path)
                != ledger_name(files[k].path),
        declined(with_meta(d, "declined_bundles"@, ledger)) == declined(d).insert(
            ledger_name(files[k].path),
            signature_of(stamp),
        ),
    ensures
        sort_by(
            files.filter_map(offer_of(with_meta(d, "declined_bundles"@, ledger))),
            offer_order(),
        ) == sort_by(files.filter_map(offer_of(d)), offer_order()).filter(
            offers_besides(files[k].path),
        ),
{
    let n = with_meta(d, "declined_bundles"@, ledger);
    let p = offers_besides(files[k].path);
    reveal_strlit("declined_bundles");
    reveal_strlit("sharer_label");
    assert("declined_bundles"@.len() != "sharer_label"@.len());
    settings_are_read_back(d, "declined_bundles"@, ledger, "sharer_label"@);
    assert forall|i: int| 0 <= i < files.len() implies offer_of(n)(#[trigger] files[i]) == (if i
        == k {
        None
    } else {
        offer_of(d)(files[i])
    }) by {
        assert(n.library_path_of("shared"@) == d.library_path_of("shared"@));
        if i == k {
            assert(seen(n, files[k]));
        } else {
            assert(ledger_entry(n, files[i]) == ledger_entry(d, files[i]));
        }
    }
    declined_offer_goes(d, n, files, k, files.len() as int);
    assert(files.take(files.len() as int) =~= files);
    offer_order_is_order();
    sort_by_filtered(files.filter_map(offer_of(d)), offer_order(), p);
}

/// The first offers without that of one file.
proof fn declined_offer_goes(
    d: StoreView,
    n: StoreView,
    files: Seq<BundleFileView>,
    k: int,
    i: int,
)
    requires
        0 <= k < files.len(),
        0 <= i <= files.len(),
        forall|j: int|
            0 <= j < files.len() && j != k ==> ledger_name((#[trigger] files[j]).path)
                != ledger_name(files[k].path),
        forall|j: int|
            0 <= j < files.len() ==> offer_of(n)(#[trigger] files[j]) == (if j == k {
                None
            } else {
                offer_of(d)(files[j])
            }),
    ensures
        files.take(i).filter_map(offer_of(n)) == files.take(i).filter_map(offer_of(d)).filter(
            offers_besides(files[k].path),
        ),
    decreases i,
{
    let p = offers_besides(files[k].path);
    if i == 0 {
        assert(files.take(0) =~= Seq::empty());
        reveal(Seq::filter);
        assert(files.take(0).filter_map(offer_of(n)) =~= Seq::<OfferView>::empty().filter(p));
    } else {
        declined_offer_goes(d, n, files, k, i - 1);
        let f = files[i - 1];
        let less = files.take(i - 1);
        assert(files.take(i).drop_last() =~= less);
        assert(files.take(i).last() == f);
        if let Some(o) = offer_of(d)(f) {
            let before = less.filter_map(offer_of(d));
            assert(before + seq![o] =~= before.push(o));
            filter_pushed(before, o, p);
            if i - 1 != k {
                assert(ledger_name(f.path) != ledger_name(files[k].path));
                assert(less.filter_map(offer_of(n)) + seq![o] =~= less.filter_map(
                    offer_of(n),
                ).push(o));
            }
        }
    }
}

/// Whether no other recording than one lies at a path, in whatever library.
pub open spec fn names_one(d: StoreView, path: Seq<char>, id: i64) -> bool {
    forall|i: int|
        0 <= i < d.libraries.len() ==> (stripped((#[trigger] d.libraries[i]).path, path) matches Some(
            rel,
        ) ==> (d.id_at(d.libraries[i].kind, rel) matches Some(other) ==> other == id))
}

/// A recording is found by its path where no other one lies there.
proof fn found_by_path(
    d: StoreView,
    libraries: Seq<LibraryView>,
    path: Seq<char>,
    id: i64,
    at: int,
    rel: Seq<char>,
)
    requires
        0 <= at < libraries.len(),
        stripped(libraries[at].path, path) == Some(rel),
        d.id_at(libraries[at].kind, rel) == Some(id),
        forall|i: int|
            0 <= i < libraries.len() ==> (stripped(
                (#[trigger] libraries[i]).path,
                path,
            ) matches Some(rel) ==> (d.id_at(libraries[i].kind, rel) matches Some(other) ==> other
                == id)),
    ensures
        id_in_any(d, libraries, path) == Some(id),
    decreases libraries.len(),
{
    let less = libraries.drop_last();
    let last = libraries.last();
    assert(last == libraries[libraries.len() - 1]);
    assert forall|i: int| 0 <= i < less.len() implies (stripped(
        (#[trigger] less[i]).path,
        path,
    ) matches Some(rel) ==> (d.id_at(less[i].kind, rel) matches Some(other) ==> other == id)) by {
        assert(less[i] == libraries[i]);
    }
    if at < less.len() {
        assert(less[at] == libraries[at]);
        found_by_path(d, less, path, id, at, rel);
    } else {
        id_is_the_one(d, less, path, id);
    }
}

/// Whatever is found by the path is the recording.
proof fn id_is_the_one(d: StoreView, libraries: Seq<LibraryView>, path: Seq<char>, id: i64)
    requires
        forall|i: int|
            0 <= i < libraries.len() ==> (stripped(
                (#[trigger] libraries[i]).path,
                path,
            ) matches Some(rel) ==> (d.id_at(libraries[i].kind, rel) matches Some(other) ==> other
                == id)),
    ensures
        id_in_any(d, libraries, path) matches Some(other) ==> other == id,
    decreases libraries.len(),
{
    if libraries.len() > 0 {
        let less = libraries.drop_last();
        assert(libraries.last() == libraries[libraries.len() - 1]);
        assert forall|i: int| 0 <= i < less.len() implies (stripped(
            (#[trigger] less[i]).path,
            path,
        ) matches Some(rel) ==> (d.id_at(less[i].kind, rel) matches Some(other) ==> other == id)) by {
            assert(less[i] == libraries[i]);
        }
        id_is_the_one(d, less, path, id);
    }
}

/// The path of a recording leads to it: that of a key as scans write them, under the
/// folder of its library, where no recording of another library lies at that path.
pub proof fn paths_lead_to_recordings(d: StoreView, folder: Seq<char>, k: int)
    requires
        d.wf(),
        0 <= k < d.recordings.len(),
        d.library_path_of(d.recordings[k].library) == Some(folder),
        clean(d.recordings[k].path),
        names_one(d, joined(folder, d.recordings[k].path), d.recordings[k].id),
    ensures
        id_in_any(d, d.libraries, joined(folder, d.recordings[k].path)) == Some(
            d.recordings[k].id,
        ),
{
    let r = d.recordings[k];
    keys_round_trip(folder, r.path);
    first_found(d.libraries, library_of(r.library));
    let l = first(d.libraries, library_of(r.library))->0;
    let at = choose|i: int| 0 <= i < d.libraries.len() && d.libraries[i] == l;
    let q = recording_at(r.library, r.path);
    assert forall|j: int| 0 <= j < k implies !q(#[trigger] d.recordings[j]) by {
        assert(!(d.recordings[j].library == d.recordings[k].library && d.recordings[j].path
            == d.recordings[k].path));
    }
    first_is(d.recordings, q, k);
    found_by_path(d, d.libraries, joined(folder, r.path), r.id, at, r.path);
}

/// A recording is the first one with its id.
proof fn id_is_found(d: StoreView, k: int)
    requires
        d.wf(),
        0 <= k < d.recordings.len(),
    ensures
        first(d.recordings, recording_with(d.recordings[k].id)) == Some(d.recordings[k]),
{
    let p = recording_with(d.recordings[k].id);
    assert forall|j: int| 0 <= j < k implies !p(#[trigger] d.recordings[j]) by {
        assert(d.recordings[j].id < d.recordings[k].id);
    }
    first_is(d.recordings, p, k);
}

/// Every offer to carry a review is one between two recordings.
pub proof fn offers_are_between_two(d: StoreView, disk: Seq<DiskEntryView>, o: CarryView)
    requires
        all_offers(d, disk).contains(o),
    ensures
        d.library_path_of("local"@) is Some,
        d.library_path_of("shared"@) is Some,
        exists|i: int, j: int|
            0 <= i < d.recordings.len() && 0 <= j < d.recordings.len() && offer_between(
                d,
                disk,
                d.library_path_of("local"@)->0,
                d.library_path_of("shared"@)->0,
                #[trigger] d.recordings[i],
                #[trigger] d.recordings[j],
            ) == Some(o),
{
    let local = d.library_path_of("local"@)->0;
    let shared = d.library_path_of("shared"@)->0;
    offer_comes_from(d, disk, local, shared, d.recordings, o);
    let (i, j) = choose|i: int, j: int|
        0 <= i < d.recordings.len() && 0 <= j < d.recordings.len() && offer_between(
            d,
            disk,
            local,
            shared,
            #[trigger] d.recordings[i],
            #[trigger] d.recordings[j],
        ) == Some(o);
    assert(offer_between(d, disk, local, shared, d.recordings[i], d.recordings[j]) == Some(o));
}

/// Where an offer of some recordings comes from.
proof fn offer_comes_from(
    d: StoreView,
    disk: Seq<DiskEntryView>,
    local: Seq<char>,
    shared: Seq<char>,
    rows: Seq<RecordingView>,
    o: CarryView,
)
    requires
        offers_from(d, disk, local, shared, rows).contains(o),
    ensures
        exists|i: int, j: int|
            0 <= i < rows.len() && 0 <= j < d.recordings.len() && offer_between(
                d,
                disk,
                local,
                shared,
                #[trigger] rows[i],
                #[trigger] d.recordings[j],
            ) == Some(o),
    decreases rows.len(),
{
    let all = offers_from(d, disk, local, shared, rows);
    if rows.len() > 0 {
        let less = rows.drop_last();
        let rest = offers_from(d, disk, local, shared, less);
        let f = offers_with(d, disk, local, shared, rows.last());
        let own = d.recordings.filter_map(f);
        let c = choose|c: int| 0 <= c < all.len() && all[c] == o;
        if c < rest.len() {
            assert(rest[c] == o);
            offer_comes_from(d, disk, local, shared, less, o);
            let (i, j) = choose|i: int, j: int|
                0 <= i < less.len() && 0 <= j < d.recordings.len() && offer_between(
                    d,
                    disk,
                    local,
                    shared,
                    #[trigger] less[i],
                    #[trigger] d.recordings[j],
                ) == Some(o);
            assert(rows[i] == less[i]);
            assert(offer_between(d, disk, local, shared, rows[i], d.recordings[j]) == Some(o));
        } else {
            assert(own[c - rest.len()] == o);
            filter_map_elements(d.recordings, f);
            let j = choose|j: int|
                0 <= j < d.recordings.len() && f(#[trigger] d.recordings[j]) == Some(
                    own[c - rest.len()],
                );
            assert(rows[rows.len() - 1] == rows.last());
            assert(offer_between(
                d,
                disk,
                local,
                shared,
                rows[rows.len() - 1],
                d.recordings[j],
            ) == Some(o));
        }
    }
}

/// Accepting an offer carries the review between the two recordings that it names:
/// the receiver has the source's rallies with their flags, its annotations, its
/// duration and its waveform, and counts as segmented; the source keeps its review;
/// no offer between the two is left; and accepting it again carries between the same
/// two and leaves the receiver with the same. Left out are offers with a path that
/// leads to another recording than the one it was made for.
pub proof fn accepted_offers_are_carried(
    d: StoreView,
    disk: Seq<DiskEntryView>,
    local: Seq<char>,
    shared: Seq<char>,
    i: int,
    j: int,
    o: CarryView,
)
    requires
        d.wf(),
        d.library_path_of("local"@) == Some(local),
        d.library_path_of("shared"@) == Some(shared),
        0 <= i < d.recordings.len(),
        0 <= j < d.recordings.len(),
        offer_between(d, disk, local, shared, d.recordings[i], d.recordings[j]) == Some(o),
        id_in_any(d, d.libraries, joined(local, d.recordings[i].path)) == Some(d.recordings[i].id),
        id_in_any(d, d.libraries, joined(shared, d.recordings[j].path)) == Some(
            d.recordings[j].id,
        ),
    ensures
        ({
            let (f, t) = if hand_touched(d, d.recordings[i].id) {
                (i, j)
            } else {
                (j, i)
            };
            let from = d.recordings[f];
            let to = d.recordings[t].id;
            let n = review_carried(d, from, to);
            &&& carry_ends(d, o.from_path, o.to_path) == Some((from, to))
            &&& copied_rallies(n, to) == copied_rallies(d, from.id)
            &&& copied_annotations(n, to) == copied_annotations(d, from.id)
            &&& n.recordings[t] == timeline_from(from)(d.recordings[t])
            &&& n.recordings[f] == from
            &&& same_review(d, n, from.id)
            &&& offer_between(n, disk, local, shared, n.recordings[i], n.recordings[j]) is None
            &&& carry_ends(n, o.from_path, o.to_path) == Some((from, to))
            &&& copied_rallies(review_carried(n, from, to), to) == copied_rallies(n, to)
            &&& copied_annotations(review_carried(n, from, to), to) == copied_annotations(n, to)
            &&& review_carried(n, from, to).recordings == n.recordings
        }),
{
    let l = d.recordings[i];
    let s = d.recordings[j];
    id_is_found(d, i);
    id_is_found(d, j);
    let (f, t) = if hand_touched(d, l.id) {
        (i, j)
    } else {
        (j, i)
    };
    let from = d.recordings[f];
    let to = d.recordings[t].id;
    assert(from.id != to) by {
        reveal_strlit("local");
        reveal_strlit("shared");
        assert("local"@.len() != "shared"@.len());
        if i < j {
            assert(l.id < s.id);
        } else if j < i {
            assert(s.id < l.id);
        }
    }
    let n = review_carried(d, from, to);
    carried_review_is_the_sources(
        d,
        from,
        to,
        disk,
        local,
        shared,
        n.recordings[i],
        n.recordings[j],
    );
    carried_stays_found(d, from, to, d.libraries, o.from_path);
    carried_stays_found(d, from, to, d.libraries, o.to_path);
    first_rewritten(
        d.recordings,
        recording_with(to),
        timeline_from(from),
        recording_with(from.id),
    );
    carrying_again_changes_nothing(d, from, to);
}

/// Carrying a review changes nothing about which recording lies at a path.
proof fn carried_stays_found(
    d: StoreView,
    from: RecordingView,
    to: i64,
    libraries: Seq<LibraryView>,
    path: Seq<char>,
)
    ensures
        id_in_any(review_carried(d, from, to), libraries, path) == id_in_any(d, libraries, path),
    decreases libraries.len(),
{
    if libraries.len() > 0 {
        carried_stays_found(d, from, to, libraries.drop_last(), path);
        if let Some(rel) = stripped(libraries.last().path, path) {
            first_rewritten(
                d.recordings,
                recording_with(to),
                timeline_from(from),
                recording_at(libraries.last().kind, rel),
            );
        }
    }
}

} // verus!
