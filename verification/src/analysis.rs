//! The published machine Analysis: the pristine output of segmenting one
//! recording, kept as a content-keyed file in the shared library so that others
//! adopt it instead of spending the compute again.
use vstd::prelude::*;
use vstd::string::*;

use crate::numerals::all_digits;
use crate::drafts::{rallies_replaced, replace_rallies, replaced_below, Draft};
use crate::grouping::{amend, find_id};
use crate::library::library_path_of;
use crate::path::{absolute, joined};
use crate::segment::SEGMENTER_VERSION;
use crate::store::{
    rallies_below, recording_with, RallyRow, RallyView, RecordingRow, RecordingView, Store,
    StoreView,
};
use crate::table::{any, each, first, position, rewrite, Row};
use crate::text::{
    chars_of, decimal, decimal_text, same, signed_decimal, signed_decimal_text, string_of,
};
use crate::timeline::{hand_touched, is_hand_touched, ordered_rallies, rally_rows};
use crate::waveform::{is_digit, parse_waveform, peaks_of, waveform_json, waveform_to_json};

verus! {

/// The on-disk Analysis format version.
pub const ANALYSIS_VERSION: u32 = 1;

/// The on-disk Analysis format tag.
pub const ANALYSIS_FORMAT: &'static str = "voloph-analysis";

/// A rally in a published Analysis: the machine's interval with its confidence in
/// billionths. Flags are review state and never enter an Analysis.
#[derive(Debug, Clone, Copy, PartialEq, Eq, Structural)]
pub struct AnalysisRally {
    pub start_ms: i64,
    pub end_ms: i64,
    pub confidence: i64,
}

/// One recording's pristine machine output.
#[derive(Debug)]
pub struct Analysis {
    pub format: String,
    pub version: u32,
    pub segmenter_version: u32,
    pub capture_day: String,
    pub duration_ms: Option<i64>,
    /// The waveform peaks, each as the text of its number.
    pub waveform: Vec<String>,
    pub rallies: Vec<AnalysisRally>,
}

/// What an Analysis holds.
#[verifier::ext_equal]
pub struct AnalysisView {
    pub format: Seq<char>,
    pub version: u32,
    pub segmenter_version: u32,
    pub capture_day: Seq<char>,
    pub duration_ms: Option<i64>,
    pub waveform: Seq<Seq<char>>,
    pub rallies: Seq<AnalysisRally>,
}

impl DeepView for AnalysisRally {
    type V = AnalysisRally;

    open spec fn deep_view(&self) -> AnalysisRally {
        *self
    }
}

impl DeepView for Analysis {
    type V = AnalysisView;

    open spec fn deep_view(&self) -> AnalysisView {
        AnalysisView {
            format: self.format@,
            version: self.version,
            segmenter_version: self.segmenter_version,
            capture_day: self.capture_day@,
            duration_ms: self.duration_ms,
            waveform: self.waveform.deep_view(),
            rallies: self.rallies@,
        }
    }
}

/// A file of the shared library's analysis folder: its name, and its content
/// where it could be read and parsed.
pub struct AnalysisFile {
    pub name: String,
    pub content: Option<Analysis>,
}

/// What an analysis file holds.
#[verifier::ext_equal]
pub struct AnalysisFileView {
    pub name: Seq<char>,
    pub content: Option<AnalysisView>,
}

impl DeepView for AnalysisFile {
    type V = AnalysisFileView;

    open spec fn deep_view(&self) -> AnalysisFileView {
        AnalysisFileView { name: self.name@, content: self.content.deep_view() }
    }
}

/// An Analysis to be written to a file of a folder.
pub struct Publication {
    pub dir: String,
    pub name: String,
    pub analysis: Analysis,
}

/// What a publication holds.
#[verifier::ext_equal]
pub struct PublicationView {
    pub dir: Seq<char>,
    pub name: Seq<char>,
    pub analysis: AnalysisView,
}

impl DeepView for Publication {
    type V = PublicationView;

    open spec fn deep_view(&self) -> PublicationView {
        PublicationView {
            dir: self.dir@,
            name: self.name@,
            analysis: self.analysis.deep_view(),
        }
    }
}

/// The file name prefix shared by every version's Analysis of one content.
pub open spec fn key_prefix(quick_hash: Seq<char>, file_size: int) -> Seq<char> {
    quick_hash + "_"@ + signed_decimal(file_size)
}

/// The name of the Analysis file of one content for a segmenter version: the bare
/// key for the first, a version suffix for later ones.
pub open spec fn file_name_for(
    quick_hash: Seq<char>,
    file_size: int,
    segmenter_version: nat,
) -> Seq<char> {
    if segmenter_version <= 1 {
        key_prefix(quick_hash, file_size) + ".vanalysis"@
    } else {
        key_prefix(quick_hash, file_size) + "_s"@ + decimal(segmenter_version) + ".vanalysis"@
    }
}

/// Whether a file name is that of an Analysis of the content with a key prefix,
/// of any version.
pub open spec fn names_content(name: Seq<char>, prefix: Seq<char>) -> bool {
    ||| name == prefix + ".vanalysis"@
    ||| exists|version: Seq<char>|
        #[trigger] all_digits(version) && name == prefix + "_s"@ + version + ".vanalysis"@
}

/// Whether a file name is that of an Analysis of the content with a key prefix.
fn is_content_name(name: &str, prefix: &str) -> (r: bool)
    ensures
        r == names_content(name@, prefix@),
{
    let n = chars_of(name);
    let p = chars_of(prefix);
    let mut bare = prefix.to_owned();
    bare.append(".vanalysis");
    if same(name, &bare) {
        return true;
    }
    proof {
        reveal_strlit("_s");
        reveal_strlit(".vanalysis");
    }
    let ghost k = prefix@.len();
    if n.len() < 13 || p.len() > n.len() - 13 {
        assert forall|version: Seq<char>| #[trigger] all_digits(version) implies name@
            != prefix@ + "_s"@ + version + ".vanalysis"@ by {
            assert((prefix@ + "_s"@ + version + ".vanalysis"@).len() == k + 2 + version.len() + 10);
        }
        return false;
    }
    let from: usize = p.len() + 2;
    let to: usize = n.len() - 10;
    let ghost mid = name@.subrange(from as int, to as int);
    let mut i: usize = from;
    while i < to
        invariant
            from <= i <= to <= n@.len(),
            n@ == name@,
            mid == name@.subrange(from as int, to as int),
            forall|j: int| 0 <= j < i - from ==> is_digit(#[trigger] mid[j]),
        ensures
            from <= i <= to,
            forall|j: int| 0 <= j < i - from ==> is_digit(#[trigger] mid[j]),
            i < to ==> !is_digit(mid[i - from]),
        decreases to - i,
    {
        if n[i] < '0' || n[i] > '9' {
            assert(!is_digit(mid[i - from]));
            break;
        }
        assert(is_digit(mid[i - from]));
        i += 1;
    }
    let mut whole = prefix.to_owned();
    whole.append("_s");
    whole.append(&string_of(&n, from, to));
    whole.append(".vanalysis");
    let framed = same(name, &whole);
    proof {
        assert(whole@ =~= prefix@ + "_s"@ + mid + ".vanalysis"@);
        if framed && i == to {
            assert(all_digits(mid));
        } else {
            assert forall|version: Seq<char>| #[trigger] all_digits(version) implies name@
                != prefix@ + "_s"@ + version + ".vanalysis"@ by {
                let other = prefix@ + "_s"@ + version + ".vanalysis"@;
                if name@ == other {
                    assert(other.subrange(from as int, to as int) =~= version);
                    if i < to {
                        assert(is_digit(version[i - from]));
                    }
                }
            }
        }
    }
    framed && i == to
}

/// The Analysis file's name for a content and a segmenter version.
pub fn analysis_file_name(quick_hash: &str, file_size: i64, segmenter_version: u32) -> (r: String)
    ensures
        r@ == file_name_for(quick_hash@, file_size as int, segmenter_version as nat),
{
    let mut out = analysis_key_prefix(quick_hash, file_size);
    if segmenter_version > 1 {
        out.append("_s");
        out.append(&decimal_text(segmenter_version as u128));
    }
    out.append(".vanalysis");
    out
}

/// The content-key prefix shared by every version's Analysis for one recording.
pub fn analysis_key_prefix(quick_hash: &str, file_size: i64) -> (r: String)
    ensures
        r@ == key_prefix(quick_hash@, file_size as int),
{
    let mut out = quick_hash.to_owned();
    out.append("_");
    out.append(&signed_decimal_text(file_size));
    out
}

/// What a rally row contributes to an Analysis.
pub open spec fn machine_rally() -> spec_fn(RallyView) -> AnalysisRally {
    |r: RallyView|
        AnalysisRally { start_ms: r.start_ms, end_ms: r.end_ms, confidence: r.confidence }
}

/// The segmenter version that a row's draft describes itself by.
pub open spec fn version_of(r: RecordingView) -> u32 {
    match r.segmenter_version {
        Some(v) => v as u32,
        None => SEGMENTER_VERSION,
    }
}

/// The machine output that the store holds of a recording.
pub open spec fn analysis_view_of(d: StoreView, r: RecordingView) -> AnalysisView {
    AnalysisView {
        format: ANALYSIS_FORMAT@,
        version: ANALYSIS_VERSION,
        segmenter_version: version_of(r),
        capture_day: r.capture_day,
        duration_ms: r.duration_ms,
        waveform: peaks_of(r.waveform),
        rallies: ordered_rallies(d, r.id).map_values(machine_rally()),
    }
}

/// The content key and the machine output of the recording with an id, if it is
/// there and, where asked for, in the shared library.
pub open spec fn analysis_entry(d: StoreView, id: i64, require_shared: bool) -> Option<
    (Seq<char>, i64, AnalysisView),
> {
    match first(d.recordings, recording_with(id)) {
        Some(r) => if !require_shared || r.library == "shared"@ {
            Some((r.quick_hash, r.file_size, analysis_view_of(d, r)))
        } else {
            None
        },
        None => None,
    }
}

/// The content key and the machine output of a recording.
pub fn analysis_of_impl(conn: &Store, id: i64, require_shared: bool) -> (r: Option<
    (String, i64, Analysis),
>)
    ensures
        r.deep_view() == analysis_entry(conn@, id, require_shared),
{
    let at = match find_id(conn, id) {
        Some(i) => i,
        None => {
            return None;
        },
    };
    let row = &conn.recordings[at];
    if require_shared && !same(&row.library, "shared") {
        return None;
    }
    let waveform = match &row.waveform {
        Some(s) => parse_waveform(Some(s.as_str())),
        None => parse_waveform(None),
    };
    let rows = rally_rows(conn, id);
    let rallies = each(
        &rows,
        |r: &RallyRow| -> (t: AnalysisRally)
            ensures
                t.deep_view() == machine_rally()(r.deep_view())
            {
                AnalysisRally { start_ms: r.start_ms, end_ms: r.end_ms, confidence: r.confidence }
            },
        Ghost(machine_rally()),
    );
    assert(rallies@ =~= rallies.deep_view());
    let segmenter_version: u32 = match row.segmenter_version {
        Some(v) => v as u32,
        None => SEGMENTER_VERSION,
    };
    let analysis = Analysis {
        format: ANALYSIS_FORMAT.to_owned(),
        version: ANALYSIS_VERSION,
        segmenter_version,
        capture_day: row.capture_day.clone(),
        duration_ms: row.duration_ms,
        waveform,
        rallies,
    };
    Some((row.quick_hash.clone(), row.file_size, analysis))
}

/// The content key and the machine output of a recording of the shared library,
/// or `None` for any other.
pub fn analysis_of(conn: &Store, id: i64) -> (r: Option<(String, i64, Analysis)>)
    ensures
        r.deep_view() == analysis_entry(conn@, id, true),
{
    analysis_of_impl(conn, id, true)
}

/// The content key and the machine output of a recording of either library.
pub fn analysis_of_any_library(conn: &Store, id: i64) -> (r: Option<(String, i64, Analysis)>)
    ensures
        r.deep_view() == analysis_entry(conn@, id, false),
{
    analysis_of_impl(conn, id, false)
}

/// The analysis folder of a library.
pub open spec fn analysis_dir(root: Seq<char>) -> Seq<char> {
    joined(joined(root, ".voloph"@), "analysis"@)
}

/// The analysis folder of a library.
pub fn analysis_folder(root: &str) -> (r: String)
    ensures
        r@ == analysis_dir(root@),
{
    absolute(&absolute(root, ".voloph"), "analysis")
}

/// A machine output as it is published into a library.
pub open spec fn publication_of(
    root: Seq<char>,
    entry: (Seq<char>, i64, AnalysisView),
) -> PublicationView {
    PublicationView {
        dir: analysis_dir(root),
        name: file_name_for(entry.0, entry.1 as int, entry.2.segmenter_version as nat),
        analysis: entry.2,
    }
}

/// What is published at the completion of a recording's segmentation.
pub open spec fn publication(d: StoreView, id: i64) -> Option<PublicationView> {
    match (analysis_entry(d, id, true), d.library_path_of("shared"@)) {
        (Some(entry), Some(root)) => Some(publication_of(root, entry)),
        _ => None,
    }
}

/// The Analysis to publish for a recording at segmentation completion: `None` for
/// a recording of the local library, or when the shared library is not
/// designated.
pub fn publish_analysis(conn: &Store, id: i64) -> (r: Option<Publication>)
    ensures
        r.deep_view() == publication(conn@, id),
{
    let (quick_hash, file_size, analysis) = match analysis_of(conn, id) {
        Some(e) => e,
        None => {
            return None;
        },
    };
    let root = match library_path_of(conn, "shared") {
        Some(r) => r,
        None => {
            return None;
        },
    };
    let name = analysis_file_name(&quick_hash, file_size, analysis.segmenter_version);
    Some(Publication { dir: analysis_folder(&root), name, analysis })
}

/// Whether an Analysis is in a format that this version reads.
pub open spec fn readable(a: AnalysisView) -> bool {
    a.format == ANALYSIS_FORMAT@ && a.version <= ANALYSIS_VERSION
}

/// Whether a file holds an Analysis that this version reads.
pub open spec fn readable_file(f: AnalysisFileView) -> bool {
    f.content matches Some(a) && readable(a)
}

/// Whether a file holds an Analysis that this version reads: well-formed, of the
/// right format, and not from a newer format version.
pub fn read_analysis_file(f: &AnalysisFile) -> (r: bool)
    ensures
        r == readable_file(f.deep_view()),
{
    match &f.content {
        Some(a) => same(&a.format, ANALYSIS_FORMAT) && a.version <= ANALYSIS_VERSION,
        None => false,
    }
}

/// The better of the best Analysis so far and one more file: a readable one of
/// the content whose segmenter version is higher.
pub open spec fn better(
    best: Option<AnalysisView>,
    f: AnalysisFileView,
    prefix: Seq<char>,
) -> Option<AnalysisView> {
    if names_content(f.name, prefix) && readable_file(f) && (best is None || best->0.segmenter_version
        < f.content->0.segmenter_version) {
        f.content
    } else {
        best
    }
}

/// The best Analysis of a content: of the readable ones, the first of those with
/// the highest segmenter version.
pub open spec fn best_analysis(files: Seq<AnalysisFileView>, prefix: Seq<char>) -> Option<
    AnalysisView,
>
    decreases files.len(),
{
    if files.len() == 0 {
        None
    } else {
        better(best_analysis(files.drop_last(), prefix), files.last(), prefix)
    }
}

/// The position of the highest-version published Analysis for a content, or
/// `None` when none is readable.
pub fn read_best_analysis(files: &Vec<AnalysisFile>, quick_hash: &str, file_size: i64) -> (r:
    Option<usize>)
    ensures
        match r {
            Some(i) => i < files@.len() && files@[i as int].content is Some && best_analysis(
                files.deep_view(),
                key_prefix(quick_hash@, file_size as int),
            ) == files@[i as int].content.deep_view(),
            None => best_analysis(
                files.deep_view(),
                key_prefix(quick_hash@, file_size as int),
            ) is None,
        },
{
    let prefix = analysis_key_prefix(quick_hash, file_size);
    let ghost all = files.deep_view();
    let mut best: Option<usize> = None;
    let mut i: usize = 0;
    assert(all.take(0) =~= Seq::empty());
    while i < files.len()
        invariant
            i <= files@.len(),
            all == files.deep_view(),
            prefix@ == key_prefix(quick_hash@, file_size as int),
            match best {
                Some(k) => k < i && files@[k as int].content is Some && best_analysis(
                    all.take(i as int),
                    prefix@,
                ) == files@[k as int].content.deep_view(),
                None => best_analysis(all.take(i as int), prefix@) is None,
            },
        decreases files@.len() - i,
    {
        let f = &files[i];
        let ours = is_content_name(&f.name, &prefix);
        proof {
            assert(all[i as int] == f.deep_view());
            assert(all.take(i + 1).drop_last() =~= all.take(i as int));
            assert(all.take(i + 1).last() == all[i as int]);
        }
        if ours && read_analysis_file(f) {
            let wins = match best {
                Some(k) => match (&files[k].content, &f.content) {
                    (Some(b), Some(a)) => a.segmenter_version > b.segmenter_version,
                    _ => true,
                },
                None => true,
            };
            if wins {
                best = Some(i);
            }
        }
        i += 1;
    }
    assert(all.take(i as int) =~= all);
    best
}

/// Whether a recording waits for a draft in the shared library.
pub open spec fn awaits_draft(r: RecordingView) -> bool {
    r.library == "shared"@ && (r.segment_state == "unknown"@ || r.segment_state == "failed"@)
}

/// An Analysis rally as it is written: not flagged.
pub open spec fn adopted_rally() -> spec_fn(AnalysisRally) -> Draft {
    |r: AnalysisRally|
        Draft {
            start_ms: r.start_ms,
            end_ms: r.end_ms,
            confidence: r.confidence,
            flagged: false,
        }
}

/// A recording with an adopted Analysis: probed and segmented with its draft, and
/// stamped with the version that made it.
pub open spec fn analyzed(a: AnalysisView) -> spec_fn(RecordingView) -> RecordingView {
    |r: RecordingView|
        RecordingView {
            probe_state: "ready"@,
            segment_state: "ready"@,
            duration_ms: a.duration_ms,
            waveform: Some(waveform_json(a.waveform)),
            segmenter_version: Some(a.segmenter_version as i64),
            ..r
        }
}

/// The store after a recording that waits for a draft, untouched by hand, adopts
/// the best published Analysis of its content.
pub open spec fn adopt_one(
    d: StoreView,
    files: Seq<AnalysisFileView>,
    r: RecordingView,
) -> StoreView {
    let best = best_analysis(files, key_prefix(r.quick_hash, r.file_size as int));
    if awaits_draft(r) && !hand_touched(d, r.id) && best is Some {
        StoreView {
            rallies: rallies_replaced(
                d.rallies,
                r.id,
                best->0.rallies.map_values(adopted_rally()),
            ),
            recordings: rewrite(d.recordings, recording_with(r.id), analyzed(best->0)),
            ..d
        }
    } else {
        d
    }
}

/// The store after each of the first `n` of some recordings has adopted what is
/// published for it.
pub open spec fn adopt_first(
    d: StoreView,
    files: Seq<AnalysisFileView>,
    rows: Seq<RecordingView>,
    n: nat,
) -> StoreView
    decreases n,
{
    if n == 0 {
        d
    } else {
        adopt_one(adopt_first(d, files, rows, (n - 1) as nat), files, rows[n - 1])
    }
}

/// The store after the adoption of what is published in the shared library.
pub open spec fn analyses_adopted(d: StoreView, files: Seq<AnalysisFileView>) -> StoreView {
    if d.library_path_of("shared"@) is Some {
        adopt_first(d, files, d.recordings, d.recordings.len())
    } else {
        d
    }
}

/// How many rallies some files hold together.
pub open spec fn total_rallies(files: Seq<AnalysisFileView>) -> nat
    decreases files.len(),
{
    if files.len() == 0 {
        0
    } else {
        total_rallies(files.drop_last()) + match files.last().content {
            Some(a) => a.rallies.len(),
            None => 0,
        }
    }
}

/// The best Analysis holds no more rallies than all files together.
pub(crate) proof fn best_is_counted(files: Seq<AnalysisFileView>, prefix: Seq<char>)
    ensures
        best_analysis(files, prefix) matches Some(a) ==> a.rallies.len() <= total_rallies(files),
    decreases files.len(),
{
    if files.len() > 0 {
        best_is_counted(files.drop_last(), prefix);
    }
}

/// Silently adopt a published Analysis for every recording of the shared library
/// that has no draft yet and is not hand-touched: its draft timeline, waveform
/// and duration are registered, and it counts as probed and segmented. A file
/// that is missing, unreadable or of a newer format is passed over, and a
/// recording that is analyzed already or hand-touched is never changed. Nothing
/// happens when the shared library is not designated.
pub fn adopt_analyses(conn: &mut Store, files: &Vec<AnalysisFile>)
    requires
        rallies_below(
            old(conn)@.rallies,
            i64::MAX - old(conn)@.recordings.len() * total_rallies(files.deep_view()),
        ),
    ensures
        final(conn)@ == analyses_adopted(old(conn)@, files.deep_view()),
        rallies_below(final(conn)@.rallies, i64::MAX as int),
        old(conn)@.wf() ==> final(conn)@.wf(),
{
    proof {
        if conn@.wf() {
            crate::upkeep::analyses_adopted_wf(conn@, files.deep_view());
        }
    }
    let ghost d = old(conn)@;
    let ghost all = files.deep_view();
    let ghost rows = d.recordings;
    let ghost k = total_rallies(all);
    let ghost n = rows.len();
    proof {
        assert(n * k >= 0) by (nonlinear_arith)
            requires
                n >= 0,
                k >= 0,
        ;
    }
    if library_path_of(conn, "shared").is_none() {
        return;
    }
    let snapshot = crate::table::copy_rows(&conn.recordings);
    let mut i: usize = 0;
    assert(n * k - 0 * k == n * k) by (nonlinear_arith);
    while i < snapshot.len()
        invariant
            i <= snapshot@.len(),
            snapshot.deep_view() == rows,
            n == rows.len(),
            all == files.deep_view(),
            k == total_rallies(all),
            conn@ == adopt_first(d, all, rows, i as nat),
            rallies_below(conn@.rallies, i64::MAX - n * k + i * k),
        decreases snapshot@.len() - i,
    {
        let r = &snapshot[i];
        assert(r.deep_view() == rows[i as int]);
        let waits = same(&r.library, "shared") && (same(&r.segment_state, "unknown") || same(
            &r.segment_state,
            "failed",
        ));
        proof {
            assert(i * k + k <= n * k && (i + 1) * k == i * k + k) by (nonlinear_arith)
                requires
                    i + 1 <= n,
                    k >= 0,
            ;
        }
        if waits && !is_hand_touched(conn, r.id) {
            if let Some(at) = read_best_analysis(files, &r.quick_hash, r.file_size) {
                if let Some(a) = &files[at].content {
                    proof {
                        best_is_counted(all, key_prefix(r.quick_hash@, r.file_size as int));
                    }
                    adopt_analysis(
                        conn,
                        r.id,
                        a,
                        Ghost(i64::MAX - n * k + i * k),
                    );
                }
            }
        }
        i += 1;
    }
}

/// Write an Analysis onto a recording.
fn adopt_analysis(conn: &mut Store, id: i64, a: &Analysis, Ghost(bound): Ghost<int>)
    requires
        rallies_below(old(conn)@.rallies, bound),
        bound + a.rallies@.len() <= i64::MAX,
    ensures
        final(conn)@ == (StoreView {
            rallies: rallies_replaced(
                old(conn)@.rallies,
                id,
                a.rallies@.map_values(adopted_rally()),
            ),
            recordings: rewrite(
                old(conn)@.recordings,
                recording_with(id),
                analyzed(a.deep_view()),
            ),
            ..old(conn)@
        }),
        rallies_below(final(conn)@.rallies, bound + a.rallies@.len()),
{
    let mut drafts: Vec<Draft> = Vec::new();
    let mut j: usize = 0;
    while j < a.rallies.len()
        invariant
            j <= a.rallies@.len(),
            drafts@ == a.rallies@.take(j as int).map_values(adopted_rally()),
        decreases a.rallies@.len() - j,
    {
        let r: AnalysisRally = a.rallies[j];
        drafts.push(
            Draft {
                start_ms: r.start_ms,
                end_ms: r.end_ms,
                confidence: r.confidence,
                flagged: false,
            },
        );
        assert(drafts@ =~= a.rallies@.take(j + 1).map_values(adopted_rally()));
        j += 1;
    }
    assert(a.rallies@.take(j as int) =~= a.rallies@);
    proof {
        replaced_below(conn@.rallies, id, drafts@, bound);
    }
    replace_rallies(conn, id, &drafts);
    let ghost g = analyzed(a.deep_view());
    amend(
        conn,
        id,
        |r: &RecordingRow| -> (n: RecordingRow)
            ensures
                n.deep_view() == g(r.deep_view())
            {
                let mut n = r.dup();
                n.probe_state = "ready".to_owned();
                n.segment_state = "ready".to_owned();
                n.duration_ms = a.duration_ms;
                n.waveform = Some(waveform_to_json(&a.waveform));
                n.segmenter_version = Some(a.segmenter_version as i64);
                n
            },
        Ghost(g),
    );
}

/// The recordings of the shared library with the content of another.
pub open spec fn shared_twin(r: RecordingView) -> spec_fn(RecordingView) -> bool {
    |s: RecordingView|
        s.library == "shared"@ && s.quick_hash == r.quick_hash && s.file_size == r.file_size
}

/// Whether a recording's machine output belongs on the shared library's disk: it
/// is segmented, its content is in the shared library, and no hand touched it.
pub open spec fn publishable(d: StoreView, r: RecordingView) -> bool {
    r.segment_state == "ready"@ && any(d.recordings, shared_twin(r)) && !hand_touched(d, r.id)
}

/// The readable file of a name.
pub open spec fn published_as(name: Seq<char>) -> spec_fn(AnalysisFileView) -> bool {
    |f: AnalysisFileView| f.name == name && readable_file(f)
}

/// The publication of a name.
pub open spec fn publishes(name: Seq<char>) -> spec_fn(PublicationView) -> bool {
    |p: PublicationView| p.name == name
}

/// The publications after one more recording: its own, unless it is not
/// publishable, or its file is there and readable, or is being published.
pub open spec fn with_publication(
    d: StoreView,
    files: Seq<AnalysisFileView>,
    root: Seq<char>,
    r: RecordingView,
    out: Seq<PublicationView>,
) -> Seq<PublicationView> {
    match analysis_entry(d, r.id, false) {
        Some(entry) => {
            let p = publication_of(root, entry);
            if !publishable(d, r) || any(files, published_as(p.name)) || any(
                out,
                publishes(p.name),
            ) {
                out
            } else {
                out.push(p)
            }
        },
        None => out,
    }
}

/// What the first `n` recordings have missing on the shared library's disk.
pub open spec fn missing_first(
    d: StoreView,
    files: Seq<AnalysisFileView>,
    root: Seq<char>,
    n: nat,
) -> Seq<PublicationView>
    decreases n,
{
    if n == 0 {
        Seq::empty()
    } else {
        with_publication(
            d,
            files,
            root,
            d.recordings[n - 1],
            missing_first(d, files, root, (n - 1) as nat),
        )
    }
}

/// What is missing on the shared library's disk.
pub open spec fn missing_publications(d: StoreView, files: Seq<AnalysisFileView>) -> Seq<
    PublicationView,
> {
    match d.library_path_of("shared"@) {
        Some(root) => missing_first(d, files, root, d.recordings.len()),
        None => Seq::empty(),
    }
}

/// Whether the readable file of a name is there.
fn is_published(files: &Vec<AnalysisFile>, name: &str) -> (r: bool)
    ensures
        r == any(files.deep_view(), published_as(name@)),
{
    let mut i: usize = 0;
    while i < files.len()
        invariant
            i <= files@.len(),
            forall|j: int| 0 <= j < i ==> !published_as(name@)(#[trigger] files.deep_view()[j]),
        decreases files@.len() - i,
    {
        if same(&files[i].name, name) && read_analysis_file(&files[i]) {
            assert(published_as(name@)(files.deep_view()[i as int]));
            return true;
        }
        assert(!published_as(name@)(files.deep_view()[i as int]));
        i += 1;
    }
    false
}

/// Whether a file of a name is being published.
fn is_queued(out: &Vec<Publication>, name: &str) -> (r: bool)
    ensures
        r == any(out.deep_view(), publishes(name@)),
{
    let mut i: usize = 0;
    while i < out.len()
        invariant
            i <= out@.len(),
            forall|j: int| 0 <= j < i ==> !publishes(name@)(#[trigger] out.deep_view()[j]),
        decreases out@.len() - i,
    {
        if same(&out[i].name, name) {
            assert(publishes(name@)(out.deep_view()[i as int]));
            return true;
        }
        assert(!publishes(name@)(out.deep_view()[i as int]));
        i += 1;
    }
    false
}

/// What restores the publication invariant: every segmented recording that no
/// hand touched, and whose content is in the shared library, has its own
/// version's Analysis readable on disk. A readable file is left alone; a missing
/// or unreadable one is written. Nothing when the shared library is not
/// designated.
pub fn publish_missing_analyses(conn: &Store, files: &Vec<AnalysisFile>) -> (r: Vec<Publication>)
    ensures
        r.deep_view() == missing_publications(conn@, files.deep_view()),
{
    let ghost d = conn@;
    let ghost all = files.deep_view();
    let mut out: Vec<Publication> = Vec::new();
    assert(out.deep_view() =~= Seq::empty());
    let root = match library_path_of(conn, "shared") {
        Some(r) => r,
        None => {
            return out;
        },
    };
    let mut i: usize = 0;
    while i < conn.recordings.len()
        invariant
            i <= conn.recordings@.len(),
            d == conn@,
            all == files.deep_view(),
            out.deep_view() == missing_first(d, all, root@, i as nat),
        decreases conn.recordings@.len() - i,
    {
        let r = &conn.recordings[i];
        let ghost rv = r.deep_view();
        assert(rv == d.recordings[i as int]);
        let hash = &r.quick_hash;
        let size = r.file_size;
        let twin = position(
            &conn.recordings,
            |s: &RecordingRow| -> (b: bool)
                ensures
                    b == shared_twin(rv)(s.deep_view())
                { same(&s.library, "shared") && same(&s.quick_hash, hash) && s.file_size == size },
            Ghost(shared_twin(rv)),
        ).is_some();
        if same(&r.segment_state, "ready") && twin && !is_hand_touched(conn, r.id) {
            if let Some((quick_hash, file_size, analysis)) = analysis_of_any_library(conn, r.id) {
                let name = analysis_file_name(&quick_hash, file_size, analysis.segmenter_version);
                if !is_published(files, &name) && !is_queued(&out, &name) {
                    let ghost prev = out.deep_view();
                    let p = Publication { dir: analysis_folder(&root), name, analysis };
                    let ghost pv = p.deep_view();
                    out.push(p);
                    assert(out.deep_view() =~= prev.push(pv));
                }
            }
        }
        i += 1;
    }
    out
}

} // verus!
