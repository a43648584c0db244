//! Offers, one by one: which bundles are offered and told of, and between which copies a
//! review can be carried.
use vstd::prelude::*;

use crate::bundle::BundleRecordingView;
use crate::carry::{dismissal_key, dismissed, offer_between, CarryView};
use crate::disk::{exists_at, DiskEntryView};
use crate::laws::videos::extension_behind_dot;
use crate::offers::{
    covered, covers, declined, foreign_bundle, ledger_name, offer_of, offer_order, offers_path,
    signature_of, summary_of, BundleFileView, OfferView,
};
use crate::path::{extension_of, joined, rooted};
use crate::receive::{annotation_total, rally_total};
use crate::store::{RecordingView, StoreView};
use crate::table::{any, is_sorted, sort_by, sort_by_sorted};
use crate::text::text_before;
use crate::timeline::hand_touched;

verus! {

/// Whether a file is a bundle from another device: a readable one of this format and of a
/// version that is known, under another name than this device's own.
pub open spec fn from_another(d: StoreView, f: BundleFileView) -> bool {
    &&& d.library_path_of("shared"@) is Some
    &&& extension_of(f.path) == Some("vbundle"@)
    &&& f.stamp is Some
    &&& f.content is Some
    &&& f.content->0.format == "voloph-session-bundle"@
    &&& f.content->0.version <= 1
    &&& d.meta_value("sharer_label"@) != Some(f.content->0.sharer_label)
}

/// Whether the user has dealt with the file of a name as it now is.
pub open spec fn dealt_with(d: StoreView, f: BundleFileView) -> bool {
    declined(d).contains_key(ledger_name(f.path)) && declined(d)[ledger_name(f.path)]
        == signature_of(f.stamp->0)
}

/// A bundle is offered exactly where it comes from another device and was not dealt with
/// as it now is, as an update where an earlier one of its name was; it is told of with
/// what it carries wherever it comes from another device.
pub proof fn bundles_of_others_are_offered(d: StoreView, f: BundleFileView)
    ensures
        offer_of(d)(f) is Some <==> from_another(d, f) && !dealt_with(d, f),
        offer_of(d)(f) matches Some(o) ==> {
            &&& o.bundle_path == f.path
            &&& o.capture_day == f.content->0.capture_day
            &&& o.sharer_label == f.content->0.sharer_label
            &&& o.is_update == declined(d).contains_key(ledger_name(f.path))
        },
        summary_of(d)(f) is Some <==> from_another(d, f),
        summary_of(d)(f) matches Some(o) ==> {
            &&& o.bundle_path == f.path
            &&& o.capture_day == f.content->0.capture_day
            &&& o.sharer_label == f.content->0.sharer_label
            &&& o.recording_count == f.content->0.recordings.len()
            &&& o.rally_count == rally_total(f.content->0.recordings)
            &&& o.annotation_count == annotation_total(f.content->0.recordings)
            &&& o.seen == dealt_with(d, f)
        },
{
    assert(foreign_bundle(d, f) == from_another(d, f));
}

/// Every recording of a bundle counts with its rallies and its annotations.
pub proof fn totals_count_every_recording(recs: Seq<BundleRecordingView>, r: BundleRecordingView)
    ensures
        rally_total(Seq::empty()) == 0,
        annotation_total(Seq::empty()) == 0,
        rally_total(recs.push(r)) == rally_total(recs) + r.rallies.len(),
        annotation_total(recs.push(r)) == annotation_total(recs) + r.annotations.len(),
{
    assert(recs.push(r).drop_last() =~= recs);
}

/// A file is taken for a bundle by the end of its name.
pub proof fn bundle_files_end_in_vbundle(front: Seq<char>)
    requires
        front.len() > 0,
        front.last() != '/',
    ensures
        extension_of(front + ".vbundle"@) == Some("vbundle"@),
{
    reveal_strlit(".vbundle");
    reveal_strlit("vbundle");
    let s = front + ".vbundle"@;
    let k = front.len() as int;
    assert(s[k - 1] == front.last());
    assert forall|j: int| k < j < s.len() implies s[j] != '.' && s[j] != '/' by {
        assert(s[j] == ".vbundle"@[j - k]);
    }
    extension_behind_dot(s, k);
    assert(s.skip(k + 1) =~= "vbundle"@);
}

/// Offers come by their day, and those of one day by the name of the one who shares.
pub proof fn offers_come_by_day_and_name(offers: Seq<OfferView>, i: int, j: int)
    requires
        0 <= i < j < sort_by(offers, offer_order()).len(),
    ensures
        ({
            let s = sort_by(offers, offer_order());
            &&& !text_before(s[j].capture_day, s[i].capture_day)
            &&& s[i].capture_day == s[j].capture_day ==> !text_before(
                s[j].sharer_label,
                s[i].sharer_label,
            )
        }),
{
    crate::laws::offering::offer_order_is_order();
    sort_by_sorted(offers, offer_order());
    let s = sort_by(offers, offer_order());
    assert(is_sorted(s, offer_order()));
    assert(!offer_order()(s[j], s[i]));
    crate::text::text_before_irreflexive(s[i].capture_day);
}

/// A recording waits for an offer exactly while the shared library is active and a bundle
/// on offer carries it.
pub proof fn offers_cover_what_they_carry(
    d: StoreView,
    files: Seq<BundleFileView>,
    path: Seq<char>,
)
    ensures
        covered(d, files, path) <==> d.active_kind() == "shared"@ && exists|i: int, j: int|
            {
                &&& 0 <= i < files.len()
                &&& from_another(d, #[trigger] files[i])
                &&& !dealt_with(d, files[i])
                &&& 0 <= j < files[i].content->0.recordings.len()
                &&& (#[trigger] files[i].content->0.recordings[j]).path == path
            },
{
    let p = offers_path(d, path);
    if d.active_kind() == "shared"@ {
        if any(files, p) {
            let i = choose|i: int| 0 <= i < files.len() && p(#[trigger] files[i]);
            bundles_of_others_are_offered(d, files[i]);
            let recs = files[i].content->0.recordings;
            let j = choose|j: int| 0 <= j < recs.len() && covers(path)(#[trigger] recs[j]);
            assert(from_another(d, files[i]));
            assert(files[i].content->0.recordings[j].path == path);
        }
        if exists|i: int, j: int|
            {
                &&& 0 <= i < files.len()
                &&& from_another(d, #[trigger] files[i])
                &&& !dealt_with(d, files[i])
                &&& 0 <= j < files[i].content->0.recordings.len()
                &&& (#[trigger] files[i].content->0.recordings[j]).path == path
            } {
            let (i, j) = choose|i: int, j: int|
                {
                    &&& 0 <= i < files.len()
                    &&& from_another(d, #[trigger] files[i])
                    &&& !dealt_with(d, files[i])
                    &&& 0 <= j < files[i].content->0.recordings.len()
                    &&& (#[trigger] files[i].content->0.recordings[j]).path == path
                };
            bundles_of_others_are_offered(d, files[i]);
            assert(covers(path)(files[i].content->0.recordings[j]));
            assert(p(files[i]));
        }
    }
}

/// Whether two recordings are copies of one content, one in each library, that both lie
/// where their libraries say.
pub open spec fn are_copies(
    disk: Seq<DiskEntryView>,
    local: Seq<char>,
    shared: Seq<char>,
    l: RecordingView,
    s: RecordingView,
) -> bool {
    &&& l.library == "local"@ && s.library == "shared"@
    &&& l.quick_hash == s.quick_hash && l.file_size == s.file_size
    &&& !rooted(l.path) && !rooted(s.path)
    &&& exists_at(disk, joined(local, l.path)) && exists_at(disk, joined(shared, s.path))
}

/// A review is offered from the copy that a hand touched to the one that none did, into
/// the library of the latter, unless that was dismissed for the content; and never where
/// both are touched or neither is.
pub proof fn reviews_are_offered_to_untouched_copies(
    d: StoreView,
    disk: Seq<DiskEntryView>,
    local: Seq<char>,
    shared: Seq<char>,
    l: RecordingView,
    s: RecordingView,
)
    ensures
        ({
            let o = offer_between(d, disk, local, shared, l, s);
            let a = joined(local, l.path);
            let b = joined(shared, s.path);
            &&& !are_copies(disk, local, shared, l, s) ==> o is None
            &&& hand_touched(d, l.id) == hand_touched(d, s.id) ==> o is None
            &&& are_copies(disk, local, shared, l, s) && hand_touched(d, l.id) && !hand_touched(
                d,
                s.id,
            ) ==> o == (if dismissed(d).contains("shared:"@ + l.quick_hash) {
                None
            } else {
                Some(CarryView { from_path: a, to_path: b, to_kind: "shared"@ })
            })
            &&& are_copies(disk, local, shared, l, s) && !hand_touched(d, l.id) && hand_touched(
                d,
                s.id,
            ) ==> o == (if dismissed(d).contains("local:"@ + l.quick_hash) {
                None
            } else {
                Some(CarryView { from_path: b, to_path: a, to_kind: "local"@ })
            })
        }),
{
    reveal_strlit("shared:");
    reveal_strlit("local:");
    reveal_strlit("shared");
    reveal_strlit("local");
    reveal_strlit(":");
    assert(dismissal_key("shared"@, l.quick_hash) =~= "shared:"@ + l.quick_hash);
    assert(dismissal_key("local"@, l.quick_hash) =~= "local:"@ + l.quick_hash);
}

} // verus!
