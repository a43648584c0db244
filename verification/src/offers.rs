//! Discovering the bundles that other people drop into the shared library:
//! offers, the browsable list, and the recordings that pending offers hold out of
//! analysis.
use vstd::prelude::*;
use vstd::string::*;

use crate::bundle::{
    BUNDLE_FORMAT, BUNDLE_VERSION, BundleRecordingView, SessionBundle, SessionBundleView,
};
use crate::laws::settings::settings_are_read_back;
use crate::ledger::{json_map_text, kept_map, look_up, map_of, map_with, parse_map, value_under};
use crate::library::{active_kind, library_path_of, meta_get, meta_set, with_meta};
use crate::path::{extension, extension_of, file_name, file_name_of};
use crate::receive::{annotation_total, rally_total};
use crate::store::{Store, StoreView};
use crate::table::{any, sort_by, sorted, Row};
use crate::text::{before, decimal, decimal_text, same, text_before};

verus! {

/// A discovered shared bundle awaiting a receive-it? offer.
#[derive(Debug)]
pub struct BundleOffer {
    /// Absolute path of the bundle file on this device.
    pub bundle_path: String,
    pub capture_day: String,
    pub sharer_label: String,
    /// A re-share of a bundle the user dealt with before.
    pub is_update: bool,
}

/// A shared bundle as listed for browsing.
#[derive(Debug)]
pub struct BundleSummary {
    /// Absolute path of the bundle file on this device.
    pub bundle_path: String,
    pub capture_day: String,
    pub sharer_label: String,
    pub recording_count: usize,
    pub rally_count: usize,
    pub annotation_count: usize,
    /// Already received or declined as it now is.
    pub seen: bool,
}

/// What an offer holds.
#[verifier::ext_equal]
pub struct OfferView {
    pub bundle_path: Seq<char>,
    pub capture_day: Seq<char>,
    pub sharer_label: Seq<char>,
    pub is_update: bool,
}

/// What a summary holds.
#[verifier::ext_equal]
pub struct SummaryView {
    pub bundle_path: Seq<char>,
    pub capture_day: Seq<char>,
    pub sharer_label: Seq<char>,
    pub recording_count: nat,
    pub rally_count: nat,
    pub annotation_count: nat,
    pub seen: bool,
}

impl DeepView for BundleOffer {
    type V = OfferView;

    open spec fn deep_view(&self) -> OfferView {
        OfferView {
            bundle_path: self.bundle_path@,
            capture_day: self.capture_day@,
            sharer_label: self.sharer_label@,
            is_update: self.is_update,
        }
    }
}

impl Row for BundleOffer {
    fn dup(&self) -> (r: Self) {
        BundleOffer {
            bundle_path: self.bundle_path.clone(),
            capture_day: self.capture_day.clone(),
            sharer_label: self.sharer_label.clone(),
            is_update: self.is_update,
        }
    }
}

impl DeepView for BundleSummary {
    type V = SummaryView;

    open spec fn deep_view(&self) -> SummaryView {
        SummaryView {
            bundle_path: self.bundle_path@,
            capture_day: self.capture_day@,
            sharer_label: self.sharer_label@,
            recording_count: self.recording_count as nat,
            rally_count: self.rally_count as nat,
            annotation_count: self.annotation_count as nat,
            seen: self.seen,
        }
    }
}

impl Row for BundleSummary {
    fn dup(&self) -> (r: Self) {
        BundleSummary {
            bundle_path: self.bundle_path.clone(),
            capture_day: self.capture_day.clone(),
            sharer_label: self.sharer_label.clone(),
            recording_count: self.recording_count,
            rally_count: self.rally_count,
            annotation_count: self.annotation_count,
            seen: self.seen,
        }
    }
}

/// The size of a file and its modification time in nanoseconds since 1970-01-01,
/// 0 when that is not known.
#[derive(Debug, Clone, Copy)]
pub struct FileStamp {
    pub size: u64,
    pub modified_nanos: u128,
}

/// A file in the root of the shared library: its path, its stamp where it can be
/// read, and its content where it parses as a bundle.
pub struct BundleFile {
    pub path: String,
    pub stamp: Option<FileStamp>,
    pub content: Option<SessionBundle>,
}

/// What a file in the root of the shared library holds.
#[verifier::ext_equal]
pub struct BundleFileView {
    pub path: Seq<char>,
    pub stamp: Option<FileStamp>,
    pub content: Option<SessionBundleView>,
}

impl DeepView for BundleFile {
    type V = BundleFileView;

    open spec fn deep_view(&self) -> BundleFileView {
        BundleFileView {
            path: self.path@,
            stamp: self.stamp,
            content: self.content.deep_view(),
        }
    }
}

/// The change signature of a file: its size and its modification time.
pub open spec fn signature_of(stamp: FileStamp) -> Seq<char> {
    decimal(stamp.size as nat) + ":"@ + decimal(stamp.modified_nanos as nat)
}

/// A bundle file's change signature, enough to notice a re-share.
pub fn bundle_signature(stamp: &FileStamp) -> (r: String)
    ensures
        r@ == signature_of(*stamp),
{
    let mut out = decimal_text(stamp.size as u128);
    out.append(":");
    out.append(&decimal_text(stamp.modified_nanos));
    out
}

/// The name under which a bundle file stands in the ledger.
pub open spec fn ledger_name(path: Seq<char>) -> Seq<char> {
    match file_name_of(path) {
        Some(n) => n,
        None => Seq::empty(),
    }
}

/// The ledger of bundles the user has dealt with: file name to signature.
pub open spec fn declined(d: StoreView) -> Map<Seq<char>, Seq<char>> {
    kept_map(d.meta_value("declined_bundles"@))
}

/// Whether a file is a shared bundle of someone else: a readable bundle of this
/// format, not under this device's own sharer label.
pub open spec fn foreign_bundle(d: StoreView, f: BundleFileView) -> bool {
    &&& d.library_path_of("shared"@) is Some
    &&& extension_of(f.path) == Some("vbundle"@)
    &&& f.content matches Some(b) && {
        &&& b.format == BUNDLE_FORMAT@
        &&& b.version <= BUNDLE_VERSION
        &&& d.meta_value("sharer_label"@) != Some(b.sharer_label)
    }
    &&& f.stamp is Some
}

/// What the ledger holds of a bundle file.
pub open spec fn ledger_entry(d: StoreView, f: BundleFileView) -> Option<Seq<char>> {
    value_under(declined(d), ledger_name(f.path))
}

/// Whether the user has dealt with a bundle file as it now is.
pub open spec fn seen(d: StoreView, f: BundleFileView) -> bool {
    ledger_entry(d, f) == Some(signature_of(f.stamp->0))
}

/// The offer of a bundle file, if it is one to be made.
pub open spec fn offer_of(d: StoreView) -> spec_fn(BundleFileView) -> Option<OfferView> {
    |f: BundleFileView|
        if foreign_bundle(d, f) && !seen(d, f) {
            Some(
                OfferView {
                    bundle_path: f.path,
                    capture_day: f.content->0.capture_day,
                    sharer_label: f.content->0.sharer_label,
                    is_update: ledger_entry(d, f) is Some,
                },
            )
        } else {
            None
        }
}

/// The summary of a bundle file, if it is a shared bundle of someone else.
pub open spec fn summary_of(d: StoreView) -> spec_fn(BundleFileView) -> Option<SummaryView> {
    |f: BundleFileView|
        if foreign_bundle(d, f) {
            Some(
                SummaryView {
                    bundle_path: f.path,
                    capture_day: f.content->0.capture_day,
                    sharer_label: f.content->0.sharer_label,
                    recording_count: f.content->0.recordings.len(),
                    rally_count: rally_total(f.content->0.recordings),
                    annotation_count: annotation_total(f.content->0.recordings),
                    seen: seen(d, f),
                },
            )
        } else {
            None
        }
}

/// Offers by session day, then by sharer label.
pub open spec fn offer_order() -> spec_fn(OfferView, OfferView) -> bool {
    |a: OfferView, b: OfferView|
        if a.capture_day != b.capture_day {
            text_before(a.capture_day, b.capture_day)
        } else {
            text_before(a.sharer_label, b.sharer_label)
        }
}

/// Summaries by session day, then by sharer label.
pub open spec fn summary_order() -> spec_fn(SummaryView, SummaryView) -> bool {
    |a: SummaryView, b: SummaryView|
        if a.capture_day != b.capture_day {
            text_before(a.capture_day, b.capture_day)
        } else {
            text_before(a.sharer_label, b.sharer_label)
        }
}

/// The entries of the ledger of bundles the user has dealt with.
pub fn declined_bundles(conn: &Store) -> (r: Vec<(String, String)>)
    ensures
        map_of(r.deep_view()) == declined(conn@),
{
    parse_map(&meta_get(conn, "declined_bundles"))
}

/// The name under which a bundle file stands in the ledger.
fn name_of(path: &str) -> (r: String)
    ensures
        r@ == ledger_name(path@),
{
    match file_name(path) {
        Some(n) => n,
        None => String::new(),
    }
}

/// The parsed content and the signature of a file, if it is a shared bundle of
/// someone else.
fn foreign<'a>(conn: &Store, f: &'a BundleFile) -> (r: Option<(&'a SessionBundle, String)>)
    ensures
        match r {
            Some((b, sig)) => foreign_bundle(conn@, f.deep_view()) && f.content == Some(*b) && sig@
                == signature_of(f.stamp->0),
            None => !foreign_bundle(conn@, f.deep_view()),
        },
{
    if library_path_of(conn, "shared").is_none() {
        return None;
    }
    let ours = match extension(&f.path) {
        Some(e) => same(&e, "vbundle"),
        None => false,
    };
    if !ours {
        return None;
    }
    let bundle = match &f.content {
        Some(b) => b,
        None => {
            return None;
        },
    };
    if !same(&bundle.format, BUNDLE_FORMAT) || bundle.version > BUNDLE_VERSION {
        return None;
    }
    if let Some(own) = meta_get(conn, "sharer_label") {
        if same(&own, &bundle.sharer_label) {
            return None;
        }
    }
    match &f.stamp {
        Some(stamp) => Some((bundle, bundle_signature(stamp))),
        None => None,
    }
}

/// Whether a ledger value is a signature.
fn is_signature(v: &Option<String>, sig: &str) -> (r: bool)
    ensures
        r == (v.deep_view() == Some(sig@)),
{
    match v {
        Some(s) => same(s, sig),
        None => false,
    }
}

/// The offers surfaced on a scan of the shared library: every bundle of someone
/// else, minus those the user dealt with and that have not changed since. A
/// changed one is offered again as an update. Ordered by session day, then by
/// sharer label.
pub fn discover_bundles(conn: &Store, files: &Vec<BundleFile>) -> (r: Vec<BundleOffer>)
    ensures
        r.deep_view() == sort_by(
            files.deep_view().filter_map(offer_of(conn@)),
            offer_order(),
        ),
{
    let ledger = declined_bundles(conn);
    let ghost all = files.deep_view();
    let ghost f = offer_of(conn@);
    let mut offers: Vec<BundleOffer> = Vec::new();
    let mut i: usize = 0;
    assert(offers.deep_view() =~= all.take(0).filter_map(f));
    while i < files.len()
        invariant
            i <= files@.len(),
            all == files.deep_view(),
            f == offer_of(conn@),
            map_of(ledger.deep_view()) == declined(conn@),
            offers.deep_view() == all.take(i as int).filter_map(f),
        decreases files@.len() - i,
    {
        proof {
            assert(all.take(i + 1).drop_last() =~= all.take(i as int));
            assert(all.take(i + 1).last() == files@[i as int].deep_view());
        }
        if let Some((bundle, sig)) = foreign(conn, &files[i]) {
            let prior = look_up(&ledger, &name_of(&files[i].path));
            if !is_signature(&prior, &sig) {
                let ghost prev = offers.deep_view();
                let offer = BundleOffer {
                    bundle_path: files[i].path.clone(),
                    capture_day: bundle.capture_day.clone(),
                    sharer_label: bundle.sharer_label.clone(),
                    is_update: prior.is_some(),
                };
                let ghost ov = offer.deep_view();
                offers.push(offer);
                assert(offers.deep_view() =~= prev + seq![ov]);
            }
        }
        i += 1;
    }
    assert(all.take(i as int) =~= all);
    sorted(
        &offers,
        |a: &BundleOffer, b: &BundleOffer| -> (r: bool)
            ensures
                r == offer_order()(a.deep_view(), b.deep_view())
            {
                if !same(&a.capture_day, &b.capture_day) {
                    before(&a.capture_day, &b.capture_day)
                } else {
                    before(&a.sharer_label, &b.sharer_label)
                }
            },
        Ghost(offer_order()),
    )
}

/// Whether the rows of every bundle can be counted.
pub open spec fn countable(files: Seq<BundleFileView>) -> bool {
    forall|i: int|
        0 <= i < files.len() ==> ((#[trigger] files[i]).content matches Some(b) ==> {
            &&& rally_total(b.recordings) <= usize::MAX
            &&& annotation_total(b.recordings) <= usize::MAX
        })
}

/// How many rallies and annotations a bundle holds.
fn totals(bundle: &SessionBundle) -> (r: (usize, usize))
    requires
        rally_total(bundle.deep_view().recordings) <= usize::MAX,
        annotation_total(bundle.deep_view().recordings) <= usize::MAX,
    ensures
        r.0 == rally_total(bundle.deep_view().recordings),
        r.1 == annotation_total(bundle.deep_view().recordings),
{
    let ghost recs = bundle.deep_view().recordings;
    let mut rallies: usize = 0;
    let mut annotations: usize = 0;
    let mut i: usize = 0;
    assert(recs.take(0) =~= Seq::empty());
    while i < bundle.recordings.len()
        invariant
            i <= bundle.recordings@.len(),
            recs == bundle.deep_view().recordings,
            rallies == rally_total(recs.take(i as int)),
            annotations == annotation_total(recs.take(i as int)),
            rally_total(recs) <= usize::MAX,
            annotation_total(recs) <= usize::MAX,
        decreases bundle.recordings@.len() - i,
    {
        proof {
            crate::receive::totals_ascend(recs, i + 1);
            assert(recs.take(i + 1).drop_last() =~= recs.take(i as int));
            assert(recs.take(i + 1).last() == bundle.recordings@[i as int].deep_view());
        }
        rallies += bundle.recordings[i].rallies.len();
        annotations += bundle.recordings[i].annotations.len();
        i += 1;
    }
    assert(recs.take(i as int) =~= recs);
    (rallies, annotations)
}

/// Every shared bundle of someone else, summarized: who shared it, how much
/// review it carries, and whether the user has dealt with it as it now is.
/// Ordered by session day, then by sharer label.
pub fn list_bundles(conn: &Store, files: &Vec<BundleFile>) -> (r: Vec<BundleSummary>)
    requires
        countable(files.deep_view()),
    ensures
        r.deep_view() == sort_by(
            files.deep_view().filter_map(summary_of(conn@)),
            summary_order(),
        ),
{
    let ledger = declined_bundles(conn);
    let ghost all = files.deep_view();
    let ghost f = summary_of(conn@);
    let mut out: Vec<BundleSummary> = Vec::new();
    let mut i: usize = 0;
    assert(out.deep_view() =~= all.take(0).filter_map(f));
    while i < files.len()
        invariant
            i <= files@.len(),
            all == files.deep_view(),
            countable(all),
            f == summary_of(conn@),
            map_of(ledger.deep_view()) == declined(conn@),
            out.deep_view() == all.take(i as int).filter_map(f),
        decreases files@.len() - i,
    {
        proof {
            assert(all.take(i + 1).drop_last() =~= all.take(i as int));
            assert(all[i as int] == files@[i as int].deep_view());
        }
        if let Some((bundle, sig)) = foreign(conn, &files[i]) {
            let prior = look_up(&ledger, &name_of(&files[i].path));
            let (rally_count, annotation_count) = totals(bundle);
            let ghost prev = out.deep_view();
            let summary = BundleSummary {
                bundle_path: files[i].path.clone(),
                capture_day: bundle.capture_day.clone(),
                sharer_label: bundle.sharer_label.clone(),
                recording_count: bundle.recordings.len(),
                rally_count,
                annotation_count,
                seen: is_signature(&prior, &sig),
            };
            let ghost sv = summary.deep_view();
            out.push(summary);
            assert(out.deep_view() =~= prev + seq![sv]);
        }
        i += 1;
    }
    assert(all.take(i as int) =~= all);
    sorted(
        &out,
        |a: &BundleSummary, b: &BundleSummary| -> (r: bool)
            ensures
                r == summary_order()(a.deep_view(), b.deep_view())
            {
                if !same(&a.capture_day, &b.capture_day) {
                    before(&a.capture_day, &b.capture_day)
                } else {
                    before(&a.sharer_label, &b.sharer_label)
                }
            },
        Ghost(summary_order()),
    )
}

/// The bundle recordings at a path.
pub open spec fn covers(path: Seq<char>) -> spec_fn(BundleRecordingView) -> bool {
    |r: BundleRecordingView| r.path == path
}

/// The bundle files on offer that cover a recording path.
pub open spec fn offers_path(d: StoreView, path: Seq<char>) -> spec_fn(BundleFileView) -> bool {
    |f: BundleFileView|
        foreign_bundle(d, f) && !seen(d, f) && any(f.content->0.recordings, covers(path))
}

/// Whether a pending offer covers a recording path: only while the shared library
/// is active.
pub open spec fn covered(d: StoreView, files: Seq<BundleFileView>, path: Seq<char>) -> bool {
    d.active_kind() == "shared"@ && any(files, offers_path(d, path))
}

/// The library-relative paths of every recording covered by a bundle on offer:
/// none unless the shared library is active.
pub fn pending_bundle_paths(conn: &Store, files: &Vec<BundleFile>) -> (r: Vec<String>)
    ensures
        forall|x: Seq<char>|
            #[trigger] r.deep_view().contains(x) <==> covered(conn@, files.deep_view(), x),
{
    let mut out: Vec<String> = Vec::new();
    if !same(&active_kind(conn), "shared") {
        return out;
    }
    let ledger = declined_bundles(conn);
    let ghost d = conn@;
    let ghost all = files.deep_view();
    let mut i: usize = 0;
    while i < files.len()
        invariant
            i <= files@.len(),
            d == conn@,
            all == files.deep_view(),
            map_of(ledger.deep_view()) == declined(d),
            forall|x: Seq<char>|
                #[trigger] out.deep_view().contains(x) <==> any(
                    all.take(i as int),
                    offers_path(d, x),
                ),
        decreases files@.len() - i,
    {
        let ghost fv = files@[i as int].deep_view();
        let ghost prev = out.deep_view();
        let ghost mut added: Seq<BundleRecordingView> = Seq::empty();
        assert(all[i as int] == fv);
        if let Some((bundle, sig)) = foreign(conn, &files[i]) {
            let prior = look_up(&ledger, &name_of(&files[i].path));
            if !is_signature(&prior, &sig) {
                let ghost recs = bundle.deep_view().recordings;
                let mut k: usize = 0;
                while k < bundle.recordings.len()
                    invariant
                        k <= bundle.recordings@.len(),
                        recs == bundle.deep_view().recordings,
                        forall|x: Seq<char>|
                            #[trigger] out.deep_view().contains(x) <==> prev.contains(x) || any(
                                recs.take(k as int),
                                covers(x),
                            ),
                    decreases bundle.recordings@.len() - k,
                {
                    let ghost before_push = out.deep_view();
                    let ghost rv = bundle.recordings@[k as int].deep_view();
                    out.push(bundle.recordings[k].path.clone());
                    proof {
                        assert(recs[k as int] == rv);
                        assert(out.deep_view() =~= before_push.push(rv.path));
                        assert forall|x: Seq<char>|
                            #[trigger] out.deep_view().contains(x) <==> prev.contains(x) || any(
                                recs.take(k + 1),
                                covers(x),
                            ) by {
                            contains_push(before_push, rv.path, x);
                            any_take(recs, covers(x), k as int);
                            assert(before_push.contains(x) <==> prev.contains(x) || any(
                                recs.take(k as int),
                                covers(x),
                            ));
                        }
                    }
                    k += 1;
                }
                assert(recs.take(k as int) =~= recs);
                proof {
                    added = recs;
                }
            }
        }
        proof {
            assert forall|x: Seq<char>| #[trigger] out.deep_view().contains(x) <==> any(
                all.take(i + 1),
                offers_path(d, x),
            ) by {
                any_take(all, offers_path(d, x), i as int);
                assert(prev.contains(x) <==> any(all.take(i as int), offers_path(d, x)));
                if foreign_bundle(d, fv) && !seen(d, fv) {
                    assert(added == fv.content->0.recordings);
                    assert(offers_path(d, x)(fv) == any(added, covers(x)));
                } else {
                    assert(!offers_path(d, x)(fv));
                }
            }
        }
        i += 1;
    }
    assert(all.take(i as int) =~= all);
    out
}

/// Pushing an element adds exactly it.
proof fn contains_push<A>(s: Seq<A>, y: A, x: A)
    ensures
        s.push(y).contains(x) <==> s.contains(x) || x == y,
{
    let t = s.push(y);
    if t.contains(x) {
        let i = choose|i: int| 0 <= i < t.len() && t[i] == x;
        if i < s.len() {
            assert(s[i] == x);
        }
    }
    if s.contains(x) {
        let i = choose|i: int| 0 <= i < s.len() && s[i] == x;
        assert(t[i] == x);
    }
    assert(t[s.len() as int] == y);
}

/// Looking at one more element.
proof fn any_take<A>(s: Seq<A>, p: spec_fn(A) -> bool, i: int)
    requires
        0 <= i < s.len(),
    ensures
        any(s.take(i + 1), p) <==> any(s.take(i), p) || p(s[i]),
{
    let a = s.take(i);
    let b = s.take(i + 1);
    if any(b, p) {
        let j = choose|j: int| 0 <= j < b.len() && p(#[trigger] b[j]);
        if j < i {
            assert(p(a[j]));
        }
    }
    if any(a, p) {
        let j = choose|j: int| 0 <= j < a.len() && p(#[trigger] a[j]);
        assert(p(b[j]));
    }
    assert(b[i] == s[i]);
}

/// Record a bundle's current signature in the ledger, so that it stops nagging
/// until it changes. Refused, with nothing changed, when the file cannot be read
/// or its path has no file name.
pub fn decline_bundle(conn: &mut Store, bundle_path: &str, stamp: Option<FileStamp>) -> (r: Result<
    (),
    String,
>)
    ensures
        r is Err <==> stamp is None || file_name_of(bundle_path@) is None,
        r matches Err(e) ==> {
            &&& e@ == (if stamp is None {
                "bundle file could not be read"@
            } else {
                "bad bundle path"@
            })
            &&& final(conn)@ == old(conn)@
        },
        r is Ok ==> final(conn)@ == with_meta(
            old(conn)@,
            "declined_bundles"@,
            json_map_text(
                declined(old(conn)@).insert(
                    file_name_of(bundle_path@)->0,
                    signature_of(stamp->0),
                ),
            ),
        ),
        r is Ok ==> declined(final(conn)@) == declined(old(conn)@).insert(
            file_name_of(bundle_path@)->0,
            signature_of(stamp->0),
        ),
        r is Ok ==> forall|f: BundleFileView|
            f.path == bundle_path@ && f.stamp == stamp ==> #[trigger] seen(final(conn)@, f),
        old(conn)@.wf() ==> final(conn)@.wf(),
{
    let signature = match &stamp {
        Some(s) => bundle_signature(s),
        None => {
            return Err("bundle file could not be read".to_owned());
        },
    };
    let name = match file_name(bundle_path) {
        Some(n) => n,
        None => {
            return Err("bad bundle path".to_owned());
        },
    };
    let ledger = declined_bundles(conn);
    let json = map_with(ledger, name, signature);
    proof {
        settings_are_read_back(conn@, "declined_bundles"@, json@, "declined_bundles"@);
    }
    meta_set(conn, "declined_bundles", &json);
    Ok(())
}

} // verus!
