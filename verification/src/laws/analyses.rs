//! Published Analyses: what one device publishes another adopts, and publishing
//! what is missing leaves nothing missing.
use vstd::prelude::*;

use crate::analysis::{
    adopt_one, adopted_rally, analysis_entry, analysis_view_of, analyzed, awaits_draft,
    best_analysis, file_name_for, key_prefix, machine_rally, missing_first, missing_publications,
    names_content, publication_of, publishable, published_as, publishes, readable, readable_file,
    AnalysisFileView, AnalysisRally, AnalysisView, PublicationView,
};
use crate::bundle::carried_rally;
use crate::drafts::drafts_by_start;
use crate::laws::reviews::{
    replaced_rallies_are_read_back, timeline_of_drafts, timelines_are_in_order,
};
use crate::laws::texts::{peaks_are_numbers, waveform_is_read_back};
use crate::store::{RecordingView, StoreView};
use crate::table::{any, is_sorted, sort_by, sort_by_kept, sort_by_mapped};
use crate::timeline::{by_start, hand_touched, ordered_rallies};

verus! {

/// Rallies of an Analysis in the order of their starts.
pub open spec fn machine_order() -> spec_fn(AnalysisRally, AnalysisRally) -> bool {
    |a: AnalysisRally, b: AnalysisRally| a.start_ms < b.start_ms
}

/// The best Analysis of a content is a readable one of it, and no readable one of
/// it is of a higher segmenter version.
pub proof fn best_is_highest(files: Seq<AnalysisFileView>, prefix: Seq<char>)
    ensures
        best_analysis(files, prefix) is None <==> forall|i: int|
            0 <= i < files.len() ==> !(names_content((#[trigger] files[i]).name, prefix)
                && readable_file(files[i])),
        best_analysis(files, prefix) matches Some(a) ==> readable(a),
        best_analysis(files, prefix) matches Some(a) ==> forall|i: int|
            0 <= i < files.len() && names_content((#[trigger] files[i]).name, prefix)
                && readable_file(files[i]) ==> files[i].content->0.segmenter_version
                <= a.segmenter_version,
    decreases files.len(),
{
    if files.len() > 0 {
        let less = files.drop_last();
        best_is_highest(less, prefix);
        let f = files.last();
        assert(f == files[files.len() - 1]);
        assert forall|i: int| 0 <= i < less.len() implies #[trigger] files[i] == less[i] by {}
        if best_analysis(less, prefix) is Some {
            let i = choose|i: int|
                0 <= i < less.len() && names_content((#[trigger] less[i]).name, prefix)
                    && readable_file(less[i]);
            assert(names_content(files[i].name, prefix));
        }
        if best_analysis(files, prefix) is None {
            assert forall|i: int| 0 <= i < files.len() implies !(names_content(
                (#[trigger] files[i]).name,
                prefix,
            ) && readable_file(files[i])) by {
                if i < less.len() {
                    assert(!(names_content(less[i].name, prefix) && readable_file(less[i])));
                }
            }
        }
        if let Some(a) = best_analysis(files, prefix) {
            assert forall|i: int|
                0 <= i < files.len() && names_content((#[trigger] files[i]).name, prefix)
                    && readable_file(files[i]) implies files[i].content->0.segmenter_version
                <= a.segmenter_version by {
                if i < less.len() {
                    assert(names_content(less[i].name, prefix) && readable_file(less[i]));
                }
            }
        }
    }
}

/// A recording that adopts an Analysis has its timeline: the Analysis's rallies in
/// order, none of them flagged.
pub proof fn adopted_draft_is_read_back(
    d: StoreView,
    files: Seq<AnalysisFileView>,
    r: RecordingView,
)
    requires
        awaits_draft(r),
        !hand_touched(d, r.id),
        best_analysis(files, key_prefix(r.quick_hash, r.file_size as int)) is Some,
    ensures
        ({
            let a = best_analysis(files, key_prefix(r.quick_hash, r.file_size as int))->0;
            &&& ordered_rallies(adopt_one(d, files, r), r.id).map_values(machine_rally())
                == sort_by(a.rallies, machine_order())
            &&& ordered_rallies(adopt_one(d, files, r), r.id).map_values(carried_rally())
                == sort_by(a.rallies, machine_order()).map_values(adopted_rally())
        }),
{
    let a = best_analysis(files, key_prefix(r.quick_hash, r.file_size as int))->0;
    let n = adopt_one(d, files, r);
    let drafts = a.rallies.map_values(adopted_rally());
    replaced_rallies_are_read_back(d.rallies, r.id, drafts, r.id);
    timeline_of_drafts(n, r.id);
    assert forall|y: AnalysisRally, z: AnalysisRally| #[trigger]
        machine_order()(y, z) == drafts_by_start()(adopted_rally()(y), adopted_rally()(z)) by {}
    sort_by_mapped(a.rallies, adopted_rally(), machine_order(), drafts_by_start());
    let o = ordered_rallies(n, r.id);
    let s = sort_by(a.rallies, machine_order());
    assert(o.map_values(machine_rally()) =~= s) by {
        assert(o.map_values(carried_rally()) == s.map_values(adopted_rally()));
        assert(o.map_values(carried_rally()).len() == o.len());
        assert(s.map_values(adopted_rally()).len() == s.len());
        assert forall|i: int| 0 <= i < o.len() implies #[trigger] o.map_values(machine_rally())[i]
            == s[i] by {
            assert(o.map_values(carried_rally())[i] == s.map_values(adopted_rally())[i]);
        }
    }
}

/// What one device publishes of a recording is what another holds of it after
/// adopting it: the same rallies, duration, waveform and segmenter version.
pub proof fn published_analysis_arrives(
    publisher: StoreView,
    row: RecordingView,
    adopter: StoreView,
    files: Seq<AnalysisFileView>,
    k: int,
)
    requires
        adopter.wf(),
        0 <= k < adopter.recordings.len(),
        awaits_draft(adopter.recordings[k]),
        !hand_touched(adopter, adopter.recordings[k].id),
        row.segmenter_version matches Some(v) ==> 0 <= v <= u32::MAX,
        best_analysis(
            files,
            key_prefix(
                adopter.recordings[k].quick_hash,
                adopter.recordings[k].file_size as int,
            ),
        ) == Some(analysis_view_of(publisher, row)),
    ensures
        ({
            let after = adopt_one(adopter, files, adopter.recordings[k]);
            let sent = analysis_view_of(publisher, row);
            let got = analysis_view_of(after, after.recordings[k]);
            &&& got.rallies == sent.rallies
            &&& got.duration_ms == sent.duration_ms
            &&& got.waveform == sent.waveform
            &&& got.segmenter_version == sent.segmenter_version
            &&& after.recordings[k].segment_state == "ready"@
        }),
{
    let r = adopter.recordings[k];
    let sent = analysis_view_of(publisher, row);
    let after = adopt_one(adopter, files, r);
    adopted_draft_is_read_back(adopter, files, r);
    timelines_are_in_order(publisher, row.id);
    let o = ordered_rallies(publisher, row.id);
    assert(is_sorted(sent.rallies, machine_order())) by {
        assert forall|x: int, y: int| 0 <= x < y < sent.rallies.len() implies !machine_order()(
            #[trigger] sent.rallies[y],
            #[trigger] sent.rallies[x],
        ) by {
            assert(!by_start()(o[y], o[x]));
        }
    }
    sort_by_kept(sent.rallies, machine_order());
    peaks_are_numbers(row.waveform);
    waveform_is_read_back(sent.waveform);
    assert(after.recordings[k] == analyzed(sent)(r));
}

/// The file that a publication becomes.
pub open spec fn file_of() -> spec_fn(PublicationView) -> AnalysisFileView {
    |p: PublicationView| AnalysisFileView { name: p.name, content: Some(p.analysis) }
}

/// After what is missing is published, nothing is missing.
pub proof fn publishing_leaves_nothing_missing(d: StoreView, files: Seq<AnalysisFileView>)
    ensures
        missing_publications(
            d,
            files + missing_publications(d, files).map_values(file_of()),
        ).len() == 0,
{
    if let Some(root) = d.library_path_of("shared"@) {
        let n = d.recordings.len();
        let all = missing_first(d, files, root, n);
        let more = files + all.map_values(file_of());
        missing_is_covered(d, files, root, n);
        nothing_is_missing(d, files, root, more, n);
    }
}

/// Every publication is readable, under its own name, and every publishable
/// recording has its file there or among the publications.
proof fn missing_is_covered(
    d: StoreView,
    files: Seq<AnalysisFileView>,
    root: Seq<char>,
    n: nat,
)
    requires
        n <= d.recordings.len(),
    ensures
        forall|i: int|
            0 <= i < missing_first(d, files, root, n).len() ==> readable(
                (#[trigger] missing_first(d, files, root, n)[i]).analysis,
            ),
        forall|k: int|
            #![trigger d.recordings[k]]
            0 <= k < n && publishable(d, d.recordings[k]) ==> (analysis_entry(
                d,
                d.recordings[k].id,
                false,
            ) matches Some(entry) ==> any(files, published_as(publication_of(root, entry).name))
                || any(
                missing_first(d, files, root, n),
                publishes(publication_of(root, entry).name),
            )),
    decreases n,
{
    if n > 0 {
        let m = (n - 1) as nat;
        missing_is_covered(d, files, root, m);
        let a = missing_first(d, files, root, m);
        let b = missing_first(d, files, root, n);
        let r = d.recordings[n - 1];
        assert forall|k: int|
            #![trigger d.recordings[k]]
            0 <= k < n && publishable(d, d.recordings[k]) implies (analysis_entry(
            d,
            d.recordings[k].id,
            false,
        ) matches Some(entry) ==> any(files, published_as(publication_of(root, entry).name)) || any(
            b,
            publishes(publication_of(root, entry).name),
        )) by {
            if let Some(entry) = analysis_entry(d, d.recordings[k].id, false) {
                let name = publication_of(root, entry).name;
                if b != a {
                    crate::table::any_pushed(a, b.last(), publishes(name));
                    assert(b =~= a.push(b.last()));
                }
            }
        }
    }
}

/// Nothing is missing where every publication has become a file.
proof fn nothing_is_missing(
    d: StoreView,
    files: Seq<AnalysisFileView>,
    root: Seq<char>,
    more: Seq<AnalysisFileView>,
    n: nat,
)
    requires
        n <= d.recordings.len(),
        more == files + missing_first(d, files, root, d.recordings.len()).map_values(file_of()),
        forall|i: int|
            0 <= i < missing_first(d, files, root, d.recordings.len()).len() ==> readable(
                (#[trigger] missing_first(d, files, root, d.recordings.len())[i]).analysis,
            ),
        forall|k: int|
            #![trigger d.recordings[k]]
            0 <= k < d.recordings.len() && publishable(d, d.recordings[k]) ==> (analysis_entry(
                d,
                d.recordings[k].id,
                false,
            ) matches Some(entry) ==> any(files, published_as(publication_of(root, entry).name))
                || any(
                missing_first(d, files, root, d.recordings.len()),
                publishes(publication_of(root, entry).name),
            )),
    ensures
        missing_first(d, more, root, n).len() == 0,
    decreases n,
{
    if n > 0 {
        nothing_is_missing(d, files, root, more, (n - 1) as nat);
        let all = missing_first(d, files, root, d.recordings.len());
        let r = d.recordings[n - 1];
        if let Some(entry) = analysis_entry(d, r.id, false) {
            let name = publication_of(root, entry).name;
            if publishable(d, r) {
                if any(files, published_as(name)) {
                    let i = choose|i: int|
                        0 <= i < files.len() && published_as(name)(#[trigger] files[i]);
                    assert(more[i] == files[i]);
                } else {
                    let i = choose|i: int|
                        0 <= i < all.len() && publishes(name)(#[trigger] all[i]);
                    assert(more[files.len() + i] == file_of()(all[i]));
                    assert(published_as(name)(more[files.len() + i]));
                }
            }
        }
    }
}

/// Once what is missing is published, every segmented recording that no hand touched
/// and whose content is in the shared library has a readable file of its version
/// there.
pub proof fn published_contents_are_there(
    d: StoreView,
    files: Seq<AnalysisFileView>,
    k: int,
    entry: (Seq<char>, i64, AnalysisView),
)
    requires
        d.library_path_of("shared"@) is Some,
        0 <= k < d.recordings.len(),
        publishable(d, d.recordings[k]),
        analysis_entry(d, d.recordings[k].id, false) == Some(entry),
    ensures
        any(
            files + missing_publications(d, files).map_values(file_of()),
            published_as(
                file_name_for(entry.0, entry.1 as int, entry.2.segmenter_version as nat),
            ),
        ),
{
    let root = d.library_path_of("shared"@)->0;
    let all = missing_publications(d, files);
    let more = files + all.map_values(file_of());
    let name = publication_of(root, entry).name;
    missing_is_covered(d, files, root, d.recordings.len());
    if any(files, published_as(name)) {
        let i = choose|i: int| 0 <= i < files.len() && published_as(name)(#[trigger] files[i]);
        assert(published_as(name)(more[i]));
    } else {
        let i = choose|i: int| 0 <= i < all.len() && publishes(name)(#[trigger] all[i]);
        assert(readable(all[i].analysis));
        assert(more[files.len() + i] == file_of()(all[i]));
        assert(published_as(name)(more[files.len() + i]));
    }
}

/// What is published is the machine output of a recording that no hand touched, and
/// never takes the place of a file that can be read, nor of another publication.
pub proof fn publications_replace_nothing(
    d: StoreView,
    files: Seq<AnalysisFileView>,
    root: Seq<char>,
    n: nat,
)
    requires
        n <= d.recordings.len(),
    ensures
        forall|i: int|
            0 <= i < missing_first(d, files, root, n).len() ==> {
                let p = #[trigger] missing_first(d, files, root, n)[i];
                &&& !any(files, published_as(p.name))
                &&& exists|k: int|
                    0 <= k < n && publishable(d, #[trigger] d.recordings[k]) && (analysis_entry(
                        d,
                        d.recordings[k].id,
                        false,
                    ) matches Some(entry) && p == publication_of(root, entry))
            },
        forall|i: int, j: int|
            0 <= i < j < missing_first(d, files, root, n).len() ==> (#[trigger] missing_first(
                d,
                files,
                root,
                n,
            )[i]).name != (#[trigger] missing_first(d, files, root, n)[j]).name,
    decreases n,
{
    if n > 0 {
        let m = (n - 1) as nat;
        publications_replace_nothing(d, files, root, m);
        let a = missing_first(d, files, root, m);
        let b = missing_first(d, files, root, n);
        assert forall|i: int| 0 <= i < b.len() implies {
            let p = #[trigger] b[i];
            &&& !any(files, published_as(p.name))
            &&& exists|k: int|
                0 <= k < n && publishable(d, #[trigger] d.recordings[k]) && (analysis_entry(
                    d,
                    d.recordings[k].id,
                    false,
                ) matches Some(entry) && p == publication_of(root, entry))
        } by {
            if i < a.len() {
                assert(b[i] == a[i]);
                let k = choose|k: int|
                    0 <= k < m && publishable(d, #[trigger] d.recordings[k]) && (analysis_entry(
                        d,
                        d.recordings[k].id,
                        false,
                    ) matches Some(entry) && a[i] == publication_of(root, entry));
                assert(publishable(d, d.recordings[k]));
            } else {
                assert(publishable(d, d.recordings[n - 1]));
            }
        }
        assert forall|i: int, j: int| 0 <= i < j < b.len() implies (#[trigger] b[i]).name != (
        #[trigger] b[j]).name by {
            assert(b[i] == a[i]);
            if j < a.len() {
                assert(b[j] == a[j]);
            } else {
                assert(!any(a, publishes(b[j].name)));
                assert(!publishes(b[j].name)(a[i]));
            }
        }
    }
}

} // verus!
