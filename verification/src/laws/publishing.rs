//! Analyses, one by one: what is published of a recording and under which name, which of
//! several is taken, and what a recording becomes that takes one.
use vstd::prelude::*;

use crate::analysis::{
    adopt_first, adopted_rally, analyses_adopted, analysis_entry, analysis_view_of, analyzed,
    best_analysis, file_name_for, key_prefix, machine_rally, missing_first, missing_publications,
    names_content, publication, publication_of, publishable, readable_file, shared_twin,
    AnalysisFileView, AnalysisView, PublicationView,
};
use crate::bundle::carried_rally;
use crate::laws::exporting::{digit_run, number_read, numerals_read_back};
use crate::laws::reviews::{replaced_rallies_are_read_back, same_review, touch_shows_in_review};
use crate::numerals::all_digits;
use crate::path::joined;
use crate::store::{rallies_of, recording_with, RecordingView, StoreView};
use crate::table::{any, first, first_is};
use crate::timeline::{hand_touched, ordered_rallies, timeline_of, timeline_rally};
use crate::waveform::is_digit;

verus! {

/// Whether a file holds an Analysis that can be read.
pub open spec fn can_be_read(f: AnalysisFileView) -> bool {
    f.content is Some && f.content->0.format == "voloph-analysis"@ && f.content->0.version <= 1
}

/// Whether a file name is that of a content: its fingerprint and its size, with the number
/// of a segmenter behind it or none.
pub open spec fn named_for(name: Seq<char>, hash: Seq<char>, size: Seq<char>) -> bool {
    ||| name == hash + "_"@ + size + ".vanalysis"@
    ||| exists|version: Seq<char>|
        #[trigger] digit_run(version) && name == hash + "_"@ + size + "_s"@ + version
            + ".vanalysis"@
}

/// Runs of digits are runs of digits.
proof fn digit_runs_agree(s: Seq<char>)
    ensures
        digit_run(s) == all_digits(s),
{
    if digit_run(s) {
        assert forall|i: int| 0 <= i < s.len() implies is_digit(#[trigger] s[i]) by {
            assert('0' <= s[i] <= '9');
        }
    }
    if all_digits(s) {
        assert forall|i: int| 0 <= i < s.len() implies '0' <= #[trigger] s[i] <= '9' by {
            assert(is_digit(s[i]));
        }
    }
}

/// Names of a content are those that are looked for.
proof fn names_agree(name: Seq<char>, hash: Seq<char>, size: i64)
    ensures
        names_content(name, key_prefix(hash, size as int)) == named_for(
            name,
            hash,
            crate::text::signed_decimal(size as int),
        ),
{
    let t = crate::text::signed_decimal(size as int);
    let prefix = key_prefix(hash, size as int);
    assert(prefix == hash + "_"@ + t);
    if exists|v: Seq<char>| #[trigger] all_digits(v) && name == prefix + "_s"@ + v + ".vanalysis"@ {
        let v = choose|v: Seq<char>|
            #[trigger] all_digits(v) && name == prefix + "_s"@ + v + ".vanalysis"@;
        digit_runs_agree(v);
        assert(digit_run(v) && name == hash + "_"@ + t + "_s"@ + v + ".vanalysis"@);
    }
    if exists|v: Seq<char>|
        #[trigger] digit_run(v) && name == hash + "_"@ + t + "_s"@ + v + ".vanalysis"@ {
        let v = choose|v: Seq<char>|
            #[trigger] digit_run(v) && name == hash + "_"@ + t + "_s"@ + v + ".vanalysis"@;
        digit_runs_agree(v);
        assert(all_digits(v) && name == prefix + "_s"@ + v + ".vanalysis"@);
    }
}

/// The Analysis that is taken for a content is one of the files named for it that can be
/// read, and none of those is of a later segmenter; there is none exactly where no such
/// file is there.
pub proof fn the_latest_analysis_is_taken(
    files: Seq<AnalysisFileView>,
    hash: Seq<char>,
    size: i64,
)
    ensures
        ({
            let t = crate::text::signed_decimal(size as int);
            match best_analysis(files, key_prefix(hash, size as int)) {
                Some(a) => {
                    &&& exists|i: int|
                        0 <= i < files.len() && named_for((#[trigger] files[i]).name, hash, t)
                            && can_be_read(files[i]) && files[i].content == Some(a)
                    &&& forall|i: int|
                        0 <= i < files.len() && named_for((#[trigger] files[i]).name, hash, t)
                            && can_be_read(files[i]) ==> files[i].content->0.segmenter_version
                            <= a.segmenter_version
                },
                None => forall|i: int|
                    0 <= i < files.len() ==> !(named_for((#[trigger] files[i]).name, hash, t)
                        && can_be_read(files[i])),
            }
        }),
    decreases files.len(),
{
    let t = crate::text::signed_decimal(size as int);
    let prefix = key_prefix(hash, size as int);
    if files.len() > 0 {
        let less = files.drop_last();
        let f = files.last();
        the_latest_analysis_is_taken(less, hash, size);
        names_agree(f.name, hash, size);
        assert(files[files.len() - 1] == f);
        assert(readable_file(f) == can_be_read(f));
        assert forall|i: int| 0 <= i < less.len() implies #[trigger] files[i] == less[i] by {}
        if let Some(a) = best_analysis(less, prefix) {
            let i = choose|i: int|
                0 <= i < less.len() && named_for((#[trigger] less[i]).name, hash, t)
                    && can_be_read(less[i]) && less[i].content == Some(a);
            assert(named_for(files[i].name, hash, t));
        }
        if let Some(a) = best_analysis(files, prefix) {
            assert forall|i: int|
                0 <= i < files.len() && named_for((#[trigger] files[i]).name, hash, t)
                    && can_be_read(files[i]) implies files[i].content->0.segmenter_version
                <= a.segmenter_version by {
                if i < less.len() {
                    assert(named_for(less[i].name, hash, t) && can_be_read(less[i]));
                }
            }
        } else {
            assert forall|i: int| 0 <= i < files.len() implies !(named_for(
                (#[trigger] files[i]).name,
                hash,
                t,
            ) && can_be_read(files[i])) by {
                if i < less.len() {
                    assert(!(named_for(less[i].name, hash, t) && can_be_read(less[i])));
                }
            }
        }
    }
}

/// The file of an Analysis is named for its content; the first segmenter's without a
/// number, that of a later one with its own.
pub proof fn analyses_are_named_for_their_content(hash: Seq<char>, size: nat, version: nat)
    ensures
        ({
            let name = file_name_for(hash, size as int, version);
            exists|t: Seq<char>|
                {
                    &&& #[trigger] digit_run(t) && number_read(t) == size
                    &&& version <= 1 ==> name == hash + "_"@ + t + ".vanalysis"@
                    &&& version > 1 ==> exists|v: Seq<char>|
                        #[trigger] digit_run(v) && number_read(v) == version && name == hash + "_"@
                            + t + "_s"@ + v + ".vanalysis"@
                }
        }),
{
    let t = crate::text::decimal(size);
    let v = crate::text::decimal(version);
    numerals_read_back(size);
    numerals_read_back(version);
    assert(crate::text::signed_decimal(size as int) == t);
    assert(digit_run(t) && digit_run(v));
}

/// Whether an Analysis tells what the timeline of a recording tells, without flags.
pub open spec fn tells_timeline(d: StoreView, a: AnalysisView, r: RecordingView) -> bool {
    let t = timeline_of(d, r);
    &&& a.format == "voloph-analysis"@
    &&& a.version == 1
    &&& r.segmenter_version is None ==> a.segmenter_version == 1
    &&& r.segmenter_version matches Some(v) ==> 0 <= v <= u32::MAX ==> a.segmenter_version == v
    &&& a.capture_day == r.capture_day
    &&& a.duration_ms == t.duration_ms
    &&& a.waveform == t.waveform
    &&& a.rallies.len() == t.rallies.len()
    &&& forall|k: int|
        0 <= k < t.rallies.len() ==> {
            &&& (#[trigger] a.rallies[k]).start_ms == t.rallies[k].start_ms
            &&& a.rallies[k].end_ms == t.rallies[k].end_ms
            &&& a.rallies[k].confidence == t.rallies[k].confidence
        }
}

/// What is published of a recording is what its timeline tells.
pub proof fn analyses_tell_the_timeline(d: StoreView, r: RecordingView)
    ensures
        tells_timeline(d, analysis_view_of(d, r), r),
{
    let o = ordered_rallies(d, r.id);
    assert(timeline_of(d, r).rallies == o.map_values(timeline_rally()));
    assert(analysis_view_of(d, r).rallies == o.map_values(machine_rally()));
}

/// A finished segmentation is published exactly where the recording belongs to the shared
/// library and that is designated: into its analysis folder, under the name of its
/// content, and with what its timeline tells.
pub proof fn shared_recordings_are_published(d: StoreView, k: int)
    requires
        d.wf(),
        0 <= k < d.recordings.len(),
    ensures
        ({
            let r = d.recordings[k];
            let p = publication(d, r.id);
            &&& p is Some <==> r.library == "shared"@ && d.library_path_of("shared"@) is Some
            &&& p matches Some(x) ==> {
                &&& x.dir == joined(joined(d.library_path_of("shared"@)->0, ".voloph"@), "analysis"@)
                &&& x.name == file_name_for(
                    r.quick_hash,
                    r.file_size as int,
                    x.analysis.segmenter_version as nat,
                )
                &&& tells_timeline(d, x.analysis, r)
            }
        }),
{
    let r = d.recordings[k];
    id_is_found(d, k);
    analyses_tell_the_timeline(d, r);
}

/// A recording is the first one with its id.
proof fn id_is_found(d: StoreView, k: int)
    requires
        d.wf(),
        0 <= k < d.recordings.len(),
    ensures
        first(d.recordings, recording_with(d.recordings[k].id)) == Some(d.recordings[k]),
{
    let p = recording_with(d.recordings[k].id);
    assert forall|j: int| 0 <= j < k implies !p(#[trigger] d.recordings[j]) by {
        assert(d.recordings[j].id < d.recordings[k].id);
    }
    first_is(d.recordings, p, k);
}

/// Whether the machine output of a recording belongs on the shared library's disk.
pub open spec fn belongs_there(d: StoreView, r: RecordingView) -> bool {
    &&& r.segment_state == "ready"@
    &&& !hand_touched(d, r.id)
    &&& exists|j: int|
        0 <= j < d.recordings.len() && (#[trigger] d.recordings[j]).library == "shared"@
            && d.recordings[j].quick_hash == r.quick_hash && d.recordings[j].file_size
            == r.file_size
}

/// What belongs there is what is published.
proof fn publishable_belongs(d: StoreView, r: RecordingView)
    ensures
        publishable(d, r) == belongs_there(d, r),
{
    let p = shared_twin(r);
    if any(d.recordings, p) {
        let j = choose|j: int| 0 <= j < d.recordings.len() && p(#[trigger] d.recordings[j]);
        assert(d.recordings[j].library == "shared"@);
    }
    if exists|j: int|
        0 <= j < d.recordings.len() && (#[trigger] d.recordings[j]).library == "shared"@
            && d.recordings[j].quick_hash == r.quick_hash && d.recordings[j].file_size
            == r.file_size {
        let j = choose|j: int|
            0 <= j < d.recordings.len() && (#[trigger] d.recordings[j]).library == "shared"@
                && d.recordings[j].quick_hash == r.quick_hash && d.recordings[j].file_size
                == r.file_size;
        assert(p(d.recordings[j]));
    }
}

/// Whether a publication is that of a recording that belongs on the shared library's
/// disk, and whose file is not there yet.
pub open spec fn publishes_one_of(
    d: StoreView,
    files: Seq<AnalysisFileView>,
    p: PublicationView,
) -> bool {
    exists|k: int|
        {
            &&& 0 <= k < d.recordings.len()
            &&& belongs_there(d, #[trigger] d.recordings[k])
            &&& tells_timeline(d, p.analysis, d.recordings[k])
            &&& p.name == file_name_for(
                d.recordings[k].quick_hash,
                d.recordings[k].file_size as int,
                p.analysis.segmenter_version as nat,
            )
            &&& forall|i: int|
                0 <= i < files.len() && can_be_read(files[i]) ==> (#[trigger] files[i]).name
                    != p.name
        }
}

/// What is missing on the shared library's disk is the machine output of recordings that
/// belong there: segmented, untouched by hand, with a content of the shared library, and
/// without a file that can be read.
pub proof fn missing_outputs_belong_there(d: StoreView, files: Seq<AnalysisFileView>)
    requires
        d.wf(),
    ensures
        d.library_path_of("shared"@) is None ==> missing_publications(d, files).len() == 0,
        forall|i: int|
            0 <= i < missing_publications(d, files).len() ==> publishes_one_of(
                d,
                files,
                #[trigger] missing_publications(d, files)[i],
            ),
{
    if let Some(root) = d.library_path_of("shared"@) {
        missing_first_belong_there(d, files, root, d.recordings.len());
    }
}

/// What is missing of the first recordings belongs there.
proof fn missing_first_belong_there(
    d: StoreView,
    files: Seq<AnalysisFileView>,
    root: Seq<char>,
    n: nat,
)
    requires
        d.wf(),
        n <= d.recordings.len(),
    ensures
        forall|i: int|
            0 <= i < missing_first(d, files, root, n).len() ==> publishes_one_of(
                d,
                files,
                #[trigger] missing_first(d, files, root, n)[i],
            ),
    decreases n,
{
    if n > 0 {
        let m = (n - 1) as nat;
        missing_first_belong_there(d, files, root, m);
        let r = d.recordings[n - 1];
        id_is_found(d, n - 1);
        analyses_tell_the_timeline(d, r);
        publishable_belongs(d, r);
        let entry = analysis_entry(d, r.id, false)->0;
        let p = publication_of(root, entry);
        let before = missing_first(d, files, root, m);
        let after = missing_first(d, files, root, n);
        if after.len() > before.len() {
            assert forall|i: int| 0 <= i < files.len() && can_be_read(files[i]) implies (
            #[trigger] files[i]).name != p.name by {
                if files[i].name == p.name {
                    assert(crate::analysis::published_as(p.name)(files[i]));
                }
            }
            assert(publishes_one_of(d, files, p));
            assert forall|i: int| 0 <= i < after.len() implies publishes_one_of(
                d,
                files,
                #[trigger] after[i],
            ) by {
                if i < before.len() {
                    assert(after[i] == before[i]);
                }
            }
        }
    }
}

/// Whether a recording takes a published Analysis: one of the shared library, which is
/// designated, without a draft or with a failed one, and untouched by hand.
pub open spec fn takes_analysis(d: StoreView, r: RecordingView) -> bool {
    &&& d.library_path_of("shared"@) is Some
    &&& r.library == "shared"@
    &&& r.segment_state == "unknown"@ || r.segment_state == "failed"@
    &&& !hand_touched(d, r.id)
}

/// A recording that takes an Analysis counts as probed and segmented, with its duration,
/// its waveform, the number of its segmenter and exactly its rallies, none of them
/// flagged. Where nothing is published for its content, or it takes none, it stays as it
/// is.
pub proof fn waiting_recordings_take_what_is_published(
    d: StoreView,
    files: Seq<AnalysisFileView>,
    k: int,
)
    requires
        d.wf(),
        0 <= k < d.recordings.len(),
    ensures
        ({
            let r = d.recordings[k];
            let n = analyses_adopted(d, files);
            let best = best_analysis(files, key_prefix(r.quick_hash, r.file_size as int));
            if takes_analysis(d, r) && best is Some {
                let a = best->0;
                let rows = n.rallies.filter(rallies_of(r.id));
                &&& n.recordings[k].probe_state == "ready"@
                &&& n.recordings[k].segment_state == "ready"@
                &&& n.recordings[k].duration_ms == a.duration_ms
                &&& n.recordings[k].waveform == Some(crate::waveform::waveform_json(a.waveform))
                &&& n.recordings[k].segmenter_version == Some(a.segmenter_version as i64)
                &&& n.recordings[k].id == r.id && n.recordings[k].path == r.path
                &&& rows.len() == a.rallies.len()
                &&& forall|i: int|
                    0 <= i < rows.len() ==> {
                        &&& (#[trigger] rows[i]).start_ms == a.rallies[i].start_ms
                        &&& rows[i].end_ms == a.rallies[i].end_ms
                        &&& rows[i].confidence == a.rallies[i].confidence
                        &&& !rows[i].flagged
                    }
            } else {
                n.recordings[k] == r && same_review(d, n, r.id)
            }
        }),
{
    let r = d.recordings[k];
    if d.library_path_of("shared"@) is Some {
        taken_in_turn(d, files, d.recordings.len(), k);
        let n = analyses_adopted(d, files);
        let best = best_analysis(files, key_prefix(r.quick_hash, r.file_size as int));
        if takes_analysis(d, r) && best is Some {
            let a = best->0;
            let rows = n.rallies.filter(rallies_of(r.id));
            let c = rows.map_values(carried_rally());
            assert(c == a.rallies.map_values(adopted_rally()));
            assert(c.len() == rows.len());
            assert forall|i: int| 0 <= i < rows.len() implies {
                &&& (#[trigger] rows[i]).start_ms == a.rallies[i].start_ms
                &&& rows[i].end_ms == a.rallies[i].end_ms
                &&& rows[i].confidence == a.rallies[i].confidence
                &&& !rows[i].flagged
            } by {
                assert(c[i] == carried_rally()(rows[i]));
                assert(c[i] == adopted_rally()(a.rallies[i]));
            }
        }
    }
}

/// A recording after the first ones have taken what is published for them.
proof fn taken_in_turn(d: StoreView, files: Seq<AnalysisFileView>, n: nat, k: int)
    requires
        d.wf(),
        n <= d.recordings.len(),
        0 <= k < d.recordings.len(),
        d.library_path_of("shared"@) is Some,
    ensures
        ({
            let r = d.recordings[k];
            let e = adopt_first(d, files, d.recordings, n);
            let best = best_analysis(files, key_prefix(r.quick_hash, r.file_size as int));
            &&& e.recordings.len() == d.recordings.len()
            &&& if k < n && takes_analysis(d, r) && best is Some {
                &&& e.recordings[k] == analyzed(best->0)(r)
                &&& e.rallies.filter(rallies_of(r.id)).map_values(carried_rally())
                    == best->0.rallies.map_values(adopted_rally())
            } else {
                e.recordings[k] == r && same_review(d, e, r.id)
            }
        }),
    decreases n,
{
    if n > 0 {
        let m = (n - 1) as nat;
        let r = d.recordings[k];
        let x = d.recordings[n - 1];
        taken_in_turn(d, files, m, k);
        let e = adopt_first(d, files, d.recordings, m);
        let best = best_analysis(files, key_prefix(x.quick_hash, x.file_size as int));
        if n - 1 < k {
            assert(x.id < r.id);
        } else if k < n - 1 {
            assert(r.id < x.id);
        } else {
            touch_shows_in_review(d, e, r.id);
        }
        if best is Some {
            replaced_rallies_are_read_back(
                e.rallies,
                x.id,
                best->0.rallies.map_values(adopted_rally()),
                r.id,
            );
        }
    }
}

} // verus!
