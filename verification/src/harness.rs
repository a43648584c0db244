//! The evaluation harness: the gold corpus, what is skipped, the totals over a
//! corpus, the parameter grid, and the diagnosis of missed rallies.
use vstd::prelude::*;
use vstd::string::*;

use crate::bundle::by_path;
use crate::eval::{
    all_near, are_near, best_match, boundary_offsets, is_score_of, miss_count, near, overlapping,
    per_hour, rate, score, Interval, Rate, Score,
};
use crate::library::{active_kind, library_path_of};
use crate::path::{absolute, joined};
use crate::store::{
    recordings_of, RallyRow, RallyView, RecordingRow, RecordingView, Store, StoreView,
};
use crate::table::{any, each, keep, position, sort_by, sorted, Row};
use crate::text::{before, contains_text, holds, same, text_before};
use crate::timeline::{ordered_rallies, rally_rows, CORRECTED_CONFIDENCE};

verus! {

/// One recording as the corpus needs it.
#[derive(Debug)]
pub struct CorpusRecording {
    pub abs_path: String,
    pub rel_path: String,
    pub duration_ms: Option<i64>,
    pub segment_state: String,
    pub gold: Vec<Interval>,
    /// Whether the timeline shows hand-correction. Only these are scored.
    pub hand_corrected: bool,
}

/// What a recording of the corpus holds.
#[verifier::ext_equal]
pub struct CorpusView {
    pub abs_path: Seq<char>,
    pub rel_path: Seq<char>,
    pub duration_ms: Option<i64>,
    pub segment_state: Seq<char>,
    pub gold: Seq<Interval>,
    pub hand_corrected: bool,
}

impl DeepView for CorpusRecording {
    type V = CorpusView;

    open spec fn deep_view(&self) -> CorpusView {
        CorpusView {
            abs_path: self.abs_path@,
            rel_path: self.rel_path@,
            duration_ms: self.duration_ms,
            segment_state: self.segment_state@,
            gold: self.gold@,
            hand_corrected: self.hand_corrected,
        }
    }
}

impl Row for CorpusRecording {
    fn dup(&self) -> (r: Self) {
        let mut gold: Vec<Interval> = Vec::new();
        let mut i: usize = 0;
        while i < self.gold.len()
            invariant
                i <= self.gold@.len(),
                gold@ == self.gold@.take(i as int),
            decreases self.gold@.len() - i,
        {
            gold.push(self.gold[i]);
            assert(gold@ =~= self.gold@.take(i + 1));
            i += 1;
        }
        assert(self.gold@.take(i as int) =~= self.gold@);
        CorpusRecording {
            abs_path: self.abs_path.clone(),
            rel_path: self.rel_path.clone(),
            duration_ms: self.duration_ms,
            segment_state: self.segment_state.clone(),
            gold,
            hand_corrected: self.hand_corrected,
        }
    }
}

/// The interval of a rally.
pub open spec fn interval_of() -> spec_fn(RallyView) -> Interval {
    |r: RallyView| Interval { start_ms: r.start_ms, end_ms: r.end_ms }
}

/// The rallies whose confidence shows a correction.
pub open spec fn corrected() -> spec_fn(RallyView) -> bool {
    |r: RallyView| r.confidence >= CORRECTED_CONFIDENCE
}

/// A recording as the corpus needs it.
pub open spec fn corpus_entry(d: StoreView, library: Seq<char>) -> spec_fn(
    RecordingView,
) -> CorpusView {
    |r: RecordingView|
        CorpusView {
            abs_path: joined(library, r.path),
            rel_path: r.path,
            duration_ms: r.duration_ms,
            segment_state: r.segment_state,
            gold: ordered_rallies(d, r.id).map_values(interval_of()),
            hand_corrected: any(ordered_rallies(d, r.id), corrected()),
        }
}

/// One recording as the corpus needs it.
fn corpus_recording(conn: &Store, library: &str, r: &RecordingRow) -> (c: CorpusRecording)
    ensures
        c.deep_view() == corpus_entry(conn@, library@)(r.deep_view()),
{
    let rows = rally_rows(conn, r.id);
    let gold = each(
        &rows,
        |x: &RallyRow| -> (i: Interval)
            ensures
                i.deep_view() == interval_of()(x.deep_view())
            { Interval { start_ms: x.start_ms, end_ms: x.end_ms } },
        Ghost(interval_of()),
    );
    assert(gold@ =~= gold.deep_view());
    let hand_corrected = position(
        &rows,
        |x: &RallyRow| -> (b: bool)
            ensures
                b == (x.confidence >= CORRECTED_CONFIDENCE)
            { x.confidence >= CORRECTED_CONFIDENCE },
        Ghost(corrected()),
    ).is_some();
    CorpusRecording {
        abs_path: absolute(library, &r.path),
        rel_path: r.path.clone(),
        duration_ms: r.duration_ms,
        segment_state: r.segment_state.clone(),
        gold,
        hand_corrected,
    }
}

/// Every recording in the library of `kind`, in path order, with its current
/// timeline as gold and whether that timeline shows hand-correction.
pub fn gather_corpus(conn: &Store, kind: &str, library: &str) -> (r: Vec<CorpusRecording>)
    ensures
        r.deep_view() == sort_by(
            conn@.recordings.filter(recordings_of(kind@)),
            by_path(),
        ).map_values(corpus_entry(conn@, library@)),
{
    let rows = library_rows(conn, kind);
    each(
        &rows,
        |r: &RecordingRow| -> (c: CorpusRecording)
            ensures
                c.deep_view() == corpus_entry(conn@, library@)(r.deep_view())
            { corpus_recording(conn, library, r) },
        Ghost(corpus_entry(conn@, library@)),
    )
}

/// The recordings of a library in path order.
fn library_rows(conn: &Store, kind: &str) -> (rows: Vec<RecordingRow>)
    ensures
        rows.deep_view() == sort_by(conn@.recordings.filter(recordings_of(kind@)), by_path()),
{
    let own = keep(
        &conn.recordings,
        |r: &RecordingRow| -> (b: bool)
            ensures
                b == (r.library@ == kind@)
            { same(&r.library, kind) },
        Ghost(recordings_of(kind@)),
    );
    sorted(
        &own,
        |a: &RecordingRow, b: &RecordingRow| -> (r: bool)
            ensures
                r == text_before(a.path@, b.path@)
            { before(&a.path, &b.path) },
        Ghost(by_path()),
    )
}

/// The recordings whose path holds a text.
pub open spec fn path_holds(filter: Seq<char>) -> spec_fn(CorpusView) -> bool {
    |c: CorpusView| holds(c.abs_path, filter) || holds(c.rel_path, filter)
}

/// The error for a filter that no recording matches.
pub open spec fn unmatched(kind: Seq<char>, filter: Seq<char>) -> Seq<char> {
    "no recording in the '"@ + kind + "' library matched \""@ + filter + "\""@
}

/// The recordings of a corpus that a filter selects, all when there is none. An
/// error when it selects nothing.
pub fn select_corpus(recordings: &Vec<CorpusRecording>, filter: &Option<String>, kind: &str) -> (r:
    Result<Vec<CorpusRecording>, String>)
    ensures
        match filter.deep_view() {
            None => r matches Ok(v) && v.deep_view() == recordings.deep_view(),
            Some(f) => {
                let chosen = recordings.deep_view().filter(path_holds(f));
                match r {
                    Ok(v) => chosen.len() > 0 && v.deep_view() == chosen,
                    Err(e) => chosen.len() == 0 && e@ == unmatched(kind@, f),
                }
            },
        },
{
    let f = match filter {
        Some(f) => f,
        None => {
            return Ok(crate::table::copy_rows(recordings));
        },
    };
    let chosen = keep(
        recordings,
        |c: &CorpusRecording| -> (b: bool)
            ensures
                b == path_holds(f@)(c.deep_view())
            { contains_text(&c.abs_path, f) || contains_text(&c.rel_path, f) },
        Ghost(path_holds(f@)),
    );
    assert(chosen@.len() == chosen.deep_view().len());
    if chosen.len() == 0 {
        let mut out = "no recording in the '".to_owned();
        out.append(kind);
        out.append("' library matched \"");
        out.append(f);
        out.append("\"");
        return Err(out);
    }
    Ok(chosen)
}

/// The kind and the folder of the library to score: the one asked for, else the
/// active one. An error when it is not designated; `db` is where the store was
/// read from.
pub fn corpus_library(conn: &Store, library: &Option<String>, db: &str) -> (r: Result<
    (String, String),
    String,
>)
    ensures
        ({
            let kind = match library.deep_view() {
                Some(k) => k,
                None => conn@.active_kind(),
            };
            match (r, conn@.library_path_of(kind)) {
                (Ok(a), Some(folder)) => a.0@ == kind && a.1@ == folder,
                (Err(e), None) => e@ == "the '"@ + kind + "' library is not designated in "@ + db@,
                _ => false,
            }
        }),
{
    let kind = match library {
        Some(k) => k.clone(),
        None => active_kind(conn),
    };
    match library_path_of(conn, &kind) {
        Some(folder) => Ok((kind, folder)),
        None => {
            let mut out = "the '".to_owned();
            out.append(&kind);
            out.append("' library is not designated in ");
            out.append(db);
            Err(out)
        },
    }
}

/// What a recording of the corpus is to the harness.
#[derive(Debug, Clone, Copy, PartialEq, Eq, Structural)]
pub enum Standing {
    /// Not segmented: skipped.
    NotSegmented,
    /// No hand-corrected timeline: skipped.
    NotGold,
    /// Scored.
    Gold,
}

/// What a recording of the corpus is to the harness: only a segmented one with a
/// hand-corrected timeline is scored.
pub fn standing(c: &CorpusRecording) -> (r: Standing)
    ensures
        r == (if c.segment_state@ != "ready"@ {
            Standing::NotSegmented
        } else if !c.hand_corrected {
            Standing::NotGold
        } else {
            Standing::Gold
        }),
{
    if !same(&c.segment_state, "ready") {
        Standing::NotSegmented
    } else if !c.hand_corrected {
        Standing::NotGold
    } else {
        Standing::Gold
    }
}

/// The line that reports a recording as skipped, if it is.
pub fn skip_line(c: &CorpusRecording) -> (r: Option<String>)
    ensures
        r.deep_view() == (if c.segment_state@ != "ready"@ {
            Some("SKIP  "@ + c.rel_path@ + "  (not segmented: "@ + c.segment_state@ + ")"@)
        } else if !c.hand_corrected {
            Some("SKIP  "@ + c.rel_path@ + "  (no hand-corrected timeline — not gold)"@)
        } else {
            None
        }),
{
    let mut out = "SKIP  ".to_owned();
    out.append(&c.rel_path);
    match standing(c) {
        Standing::NotSegmented => {
            out.append("  (not segmented: ");
            out.append(&c.segment_state);
            out.append(")");
            Some(out)
        },
        Standing::NotGold => {
            out.append("  (no hand-corrected timeline — not gold)");
            Some(out)
        },
        Standing::Gold => None,
    }
}

/// The length to score a recording by: its known duration, or else the decoded
/// one.
pub fn scored_duration(known: Option<i64>, decoded_ms: i64) -> (r: i64)
    ensures
        r == (match known {
            Some(d) => if d > 0 {
                d
            } else {
                decoded_ms
            },
            None => decoded_ms,
        }),
{
    match known {
        Some(d) => {
            if d > 0 {
                d
            } else {
                decoded_ms
            }
        },
        None => decoded_ms,
    }
}

/// The totals over the scored recordings of a corpus.
#[derive(Debug)]
pub struct Tally {
    pub scored: usize,
    pub misses: usize,
    pub false_positives: usize,
    pub draft_count: usize,
    pub total_ms: i64,
    pub boundary_errors_ms: Vec<i64>,
}

/// What totals hold.
#[verifier::ext_equal]
pub struct TallyView {
    pub scored: int,
    pub misses: int,
    pub false_positives: int,
    pub draft_count: int,
    pub total_ms: int,
    pub boundary_errors_ms: Seq<i64>,
}

impl View for Tally {
    type V = TallyView;

    open spec fn view(&self) -> TallyView {
        TallyView {
            scored: self.scored as int,
            misses: self.misses as int,
            false_positives: self.false_positives as int,
            draft_count: self.draft_count as int,
            total_ms: self.total_ms as int,
            boundary_errors_ms: self.boundary_errors_ms@,
        }
    }
}

/// Totals with one more recording taken in.
pub open spec fn tallied(t: TallyView, s: Score, duration_ms: i64) -> TallyView {
    TallyView {
        scored: t.scored + 1,
        misses: t.misses + s.misses,
        false_positives: t.false_positives + s.false_positives,
        draft_count: t.draft_count + s.draft_count,
        total_ms: t.total_ms + duration_ms,
        boundary_errors_ms: t.boundary_errors_ms + s.boundary_errors_ms@,
    }
}

/// Totals with one more draft scored against its gold timeline and taken in.
pub open spec fn run_tallied(
    t: TallyView,
    draft: Seq<Interval>,
    gold: Seq<Interval>,
    duration_ms: i64,
) -> TallyView {
    TallyView {
        scored: t.scored + 1,
        misses: t.misses + miss_count(gold, draft),
        false_positives: t.false_positives + miss_count(draft, gold),
        draft_count: t.draft_count + draft.len(),
        total_ms: t.total_ms + duration_ms,
        boundary_errors_ms: t.boundary_errors_ms + boundary_offsets(gold, draft),
    }
}

/// Totals over nothing.
pub open spec fn no_tally() -> TallyView {
    TallyView {
        scored: 0,
        misses: 0,
        false_positives: 0,
        draft_count: 0,
        total_ms: 0,
        boundary_errors_ms: Seq::empty(),
    }
}

/// One recording drafted anew.
#[derive(Debug)]
pub struct Rerun {
    pub draft: Vec<Interval>,
    pub gold: Vec<Interval>,
    pub duration_ms: i64,
}

/// What a recording drafted anew holds.
#[verifier::ext_equal]
pub struct RerunView {
    pub draft: Seq<Interval>,
    pub gold: Seq<Interval>,
    pub duration_ms: i64,
}

impl DeepView for Rerun {
    type V = RerunView;

    open spec fn deep_view(&self) -> RerunView {
        RerunView { draft: self.draft@, gold: self.gold@, duration_ms: self.duration_ms }
    }
}

/// The totals over some recordings drafted anew.
pub open spec fn tally_of(runs: Seq<RerunView>) -> TallyView
    decreases runs.len(),
{
    if runs.len() == 0 {
        no_tally()
    } else {
        let r = runs.last();
        run_tallied(tally_of(runs.drop_last()), r.draft, r.gold, r.duration_ms)
    }
}

/// Whether a recording can be taken in: its boundaries and the totals stay in range.
pub open spec fn run_fits(t: TallyView, r: RerunView) -> bool {
    &&& all_near(r.draft)
    &&& all_near(r.gold)
    &&& tally_fits(run_tallied(t, r.draft, r.gold, r.duration_ms))
}

/// Whether every one of some recordings can be taken in after those before it.
pub open spec fn runs_fit(runs: Seq<RerunView>) -> bool {
    forall|i: int| 0 <= i < runs.len() ==> run_fits(tally_of(runs.take(i)), #[trigger] runs[i])
}

/// Whether totals are in range.
pub open spec fn tally_fits(t: TallyView) -> bool {
    &&& t.scored <= usize::MAX
    &&& t.misses <= usize::MAX
    &&& t.false_positives <= usize::MAX
    &&& t.draft_count <= usize::MAX
    &&& i64::MIN <= t.total_ms <= i64::MAX
    &&& t.boundary_errors_ms.len() <= usize::MAX
}

impl Tally {
    /// Totals over nothing.
    pub fn new() -> (t: Tally)
        ensures
            t@ == no_tally(),
    {
        Tally {
            scored: 0,
            misses: 0,
            false_positives: 0,
            draft_count: 0,
            total_ms: 0,
            boundary_errors_ms: Vec::new(),
        }
    }

    /// Take in the score of one recording: the boundary errors are pooled, so that
    /// one median is taken over all of them.
    pub fn add_score(&mut self, s: &Score, duration_ms: i64)
        requires
            tally_fits(tallied(old(self)@, *s, duration_ms)),
        ensures
            final(self)@ == tallied(old(self)@, *s, duration_ms),
    {
        self.scored = self.scored + 1;
        self.misses = self.misses + s.misses;
        self.false_positives = self.false_positives + s.false_positives;
        self.draft_count = self.draft_count + s.draft_count;
        self.total_ms = self.total_ms + duration_ms;
        let ghost start = self.boundary_errors_ms@;
        let mut i: usize = 0;
        assert(start + s.boundary_errors_ms@.take(0) =~= start);
        while i < s.boundary_errors_ms.len()
            invariant
                i <= s.boundary_errors_ms@.len(),
                self.boundary_errors_ms@ == start + s.boundary_errors_ms@.take(i as int),
                self@ == (TallyView {
                    boundary_errors_ms: self.boundary_errors_ms@,
                    ..tallied(old(self)@, *s, duration_ms)
                }),
            decreases s.boundary_errors_ms@.len() - i,
        {
            self.boundary_errors_ms.push(s.boundary_errors_ms[i]);
            assert(self.boundary_errors_ms@ =~= start + s.boundary_errors_ms@.take(i + 1));
            i += 1;
        }
        assert(s.boundary_errors_ms@.take(i as int) =~= s.boundary_errors_ms@);
        assert(self@ =~= tallied(old(self)@, *s, duration_ms));
    }

    /// Score a draft against its gold timeline and take it in. `None`, and nothing
    /// taken in, where a boundary or a total would leave its range.
    pub fn add_run(
        &mut self,
        draft: &Vec<Interval>,
        gold: &Vec<Interval>,
        duration_ms: i64,
    ) -> (r: Option<Score>)
        ensures
            r is Some <==> run_fits(
                old(self)@,
                (RerunView { draft: draft@, gold: gold@, duration_ms }),
            ),
            match r {
                Some(s) => {
                    &&& is_score_of(s, draft@, gold@, duration_ms)
                    &&& final(self)@ == run_tallied(old(self)@, draft@, gold@, duration_ms)
                },
                None => final(self)@ == old(self)@,
            },
    {
        if !are_near(draft) || !are_near(gold) {
            return None;
        }
        let s = score(draft, gold, duration_ms);
        let fits = self.scored < usize::MAX && self.misses.checked_add(s.misses).is_some()
            && self.false_positives.checked_add(s.false_positives).is_some()
            && self.draft_count.checked_add(s.draft_count).is_some()
            && self.total_ms.checked_add(duration_ms).is_some()
            && self.boundary_errors_ms.len().checked_add(s.boundary_errors_ms.len()).is_some();
        assert(tallied(self@, s, duration_ms) =~= run_tallied(
            self@,
            draft@,
            gold@,
            duration_ms,
        ));
        if !fits {
            return None;
        }
        self.add_score(&s, duration_ms);
        Some(s)
    }

    /// The false positives over the footage scored.
    pub fn false_positive_rate(&self) -> (r: Rate)
        ensures
            r == rate(self.false_positives, self.total_ms),
    {
        per_hour(self.false_positives, self.total_ms)
    }
}

/// Score the drafts that one configuration gives, all together: the totals over
/// them, or `None` where a boundary or a total leaves its range.
pub fn score_config(runs: &Vec<Rerun>) -> (r: Option<Tally>)
    ensures
        r is Some <==> runs_fit(runs.deep_view()),
        r matches Some(t) ==> t@ == tally_of(runs.deep_view()),
{
    let ghost all = runs.deep_view();
    let mut tally = Tally::new();
    let mut i: usize = 0;
    assert(all.take(0) =~= Seq::empty());
    while i < runs.len()
        invariant
            i <= runs@.len(),
            all == runs.deep_view(),
            tally@ == tally_of(all.take(i as int)),
            forall|j: int|
                0 <= j < i ==> run_fits(tally_of(all.take(j)), #[trigger] all[j]),
        decreases runs@.len() - i,
    {
        let one = &runs[i];
        proof {
            assert(all.take(i + 1).drop_last() =~= all.take(i as int));
            assert(all.take(i + 1).last() == all[i as int]);
            assert(all[i as int] == one.deep_view());
        }
        if tally.add_run(&one.draft, &one.gold, one.duration_ms).is_none() {
            assert(!run_fits(tally_of(all.take(i as int)), all[i as int]));
            return None;
        }
        i += 1;
    }
    assert(all.take(i as int) =~= all);
    Some(tally)
}

/// One configuration of the occupancy parameters, in thousandths but for the
/// window.
#[derive(Debug, Clone, Copy, PartialEq, Eq, Structural)]
pub struct SweepPoint {
    pub static_frac: u32,
    pub ratio: u32,
    pub area_cap_k: u32,
    pub window_ms: i64,
    pub density: u32,
}

/// The movement floors swept, in thousandths.
pub open spec fn sweep_static_frac() -> Seq<u32> {
    seq![20u32, 50]
}

/// The size ratios swept, in thousandths.
pub open spec fn sweep_ratio() -> Seq<u32> {
    seq![1000u32, 1500, 2000, 2500]
}

/// The area caps swept, in thousandths.
pub open spec fn sweep_area_cap_k() -> Seq<u32> {
    seq![4000u32, 8000, 16000]
}

/// The windows swept, in milliseconds.
pub open spec fn sweep_window_ms() -> Seq<i64> {
    seq![1500i64, 2000, 3000, 4000]
}

/// The densities swept, in thousandths.
pub open spec fn sweep_density() -> Seq<u32> {
    seq![300u32, 400, 500, 600]
}

/// The configuration at a position of the grid: the density runs fastest, then
/// the window, the area cap, the ratio and the movement floor.
pub open spec fn sweep_point(i: int) -> SweepPoint {
    SweepPoint {
        static_frac: sweep_static_frac()[i / 192],
        ratio: sweep_ratio()[(i / 48) % 4],
        area_cap_k: sweep_area_cap_k()[(i / 16) % 3],
        window_ms: sweep_window_ms()[(i / 4) % 4],
        density: sweep_density()[i % 4],
    }
}

/// Every configuration of the grid.
pub fn sweep_grid() -> (r: Vec<SweepPoint>)
    ensures
        r@ == Seq::new(384, |i: int| sweep_point(i)),
{
    let statics: [u32; 2] = [20, 50];
    let ratios: [u32; 4] = [1000, 1500, 2000, 2500];
    let caps: [u32; 3] = [4000, 8000, 16000];
    let windows: [i64; 4] = [1500, 2000, 3000, 4000];
    let densities: [u32; 4] = [300, 400, 500, 600];
    let mut out: Vec<SweepPoint> = Vec::new();
    let mut i: usize = 0;
    while i < 384
        invariant
            i <= 384,
            statics@ == sweep_static_frac(),
            ratios@ == sweep_ratio(),
            caps@ == sweep_area_cap_k(),
            windows@ == sweep_window_ms(),
            densities@ == sweep_density(),
            out@ == Seq::new(i as nat, |i: int| sweep_point(i)),
        decreases 384 - i,
    {
        out.push(
            SweepPoint {
                static_frac: statics[i / 192],
                ratio: ratios[(i / 48) % 4],
                area_cap_k: caps[(i / 16) % 3],
                window_ms: windows[(i / 4) % 4],
                density: densities[i % 4],
            },
        );
        assert(out@ =~= Seq::new((i + 1) as nat, |i: int| sweep_point(i)));
        i += 1;
    }
    out
}

/// What a configuration came to: its misses, its false-positive rate, and the line
/// that reports it.
#[derive(Debug)]
pub struct SweepRow {
    pub misses: usize,
    pub rate: Rate,
    pub line: String,
}

/// What a configuration came to.
#[verifier::ext_equal]
pub struct SweepRowView {
    pub misses: usize,
    pub rate: Rate,
    pub line: Seq<char>,
}

impl DeepView for SweepRow {
    type V = SweepRowView;

    open spec fn deep_view(&self) -> SweepRowView {
        SweepRowView { misses: self.misses, rate: self.rate, line: self.line@ }
    }
}

impl Row for SweepRow {
    fn dup(&self) -> (r: Self) {
        SweepRow { misses: self.misses, rate: self.rate, line: self.line.clone() }
    }
}

/// Whether one rate is lower than another, both over positive spans.
pub open spec fn lower_rate(a: Rate, b: Rate) -> bool {
    a.count * b.span_ms < b.count * a.span_ms
}

/// Fewest misses first, then the lowest false-positive rate.
pub open spec fn best_first() -> spec_fn(SweepRowView, SweepRowView) -> bool {
    |a: SweepRowView, b: SweepRowView|
        if a.misses != b.misses {
            a.misses < b.misses
        } else {
            lower_rate(a.rate, b.rate)
        }
}

/// Whether one row comes before another.
fn row_before(a: &SweepRow, b: &SweepRow) -> (r: bool)
    ensures
        r == best_first()(a.deep_view(), b.deep_view()),
{
    if a.misses != b.misses {
        return a.misses < b.misses;
    }
    let (x, y) = (a.rate, b.rate);
    proof {
        product_fits(x.count as int, y.span_ms as int);
        product_fits(y.count as int, x.span_ms as int);
    }
    (x.count as i128) * (y.span_ms as i128) < (y.count as i128) * (x.span_ms as i128)
}

/// The product of a count and a span is in range.
proof fn product_fits(count: int, span: int)
    requires
        0 <= count <= usize::MAX,
        i64::MIN <= span <= i64::MAX,
    ensures
        i128::MIN <= count * span <= i128::MAX,
{
    assert(-(0xffff_ffff_ffff_ffffint * 0x8000_0000_0000_0000int) <= count * span
        <= 0xffff_ffff_ffff_ffffint * 0x8000_0000_0000_0000int) by (nonlinear_arith)
        requires
            0 <= count <= 0xffff_ffff_ffff_ffffint,
            -0x8000_0000_0000_0000int <= span <= 0x8000_0000_0000_0000int,
    ;
}

/// The rows of a sweep in the order they are reported.
pub fn sort_sweep(rows: &Vec<SweepRow>) -> (r: Vec<SweepRow>)
    ensures
        r.deep_view() == sort_by(rows.deep_view(), best_first()),
{
    sorted(
        rows,
        |a: &SweepRow, b: &SweepRow| -> (r: bool)
            ensures
                r == best_first()(a.deep_view(), b.deep_view())
            { row_before(a, b) },
        Ghost(best_first()),
    )
}

/// What the occupancy pipeline saw at one sampled instant: how many people
/// survived its filters, and whether its firing rule fired.
#[derive(Debug, Clone, Copy, PartialEq, Eq, Structural)]
pub struct FiringSample {
    pub live: u32,
    pub fired: bool,
}

/// The stage that lost a missed rally.
#[derive(Debug, Clone, Copy, PartialEq, Eq, Structural)]
pub enum LostAt {
    /// Two players rarely survive the detector and its filters.
    Filters,
    /// The structure is present but the firing rule fires too rarely.
    Firing,
    /// It fires, but never densely enough.
    Density,
    /// Dense firing; the span is lost downstream.
    Coverage,
}

/// At how many of some samples the rule fired: a fraction.
#[derive(Debug, Clone, Copy, PartialEq, Eq, Structural)]
pub struct Density {
    pub fired: usize,
    /// At least 1.
    pub samples: usize,
}

/// The diagnosis of a missed rally.
#[derive(Debug, Clone, Copy, PartialEq, Eq, Structural)]
pub struct MissTrace {
    /// Samples in the rally's window, at least 1.
    pub samples: usize,
    /// Samples with anyone live.
    pub any: usize,
    /// Samples with two people live.
    pub two: usize,
    /// Samples at which the rule fired.
    pub fired: usize,
    /// The densest firing around any sample.
    pub peak: Density,
    pub lost_at: LostAt,
}

/// How many samples from `lo` to `hi` have at least so many people live.
pub open spec fn live_count(f: Seq<FiringSample>, lo: int, hi: int, least: u32) -> nat
    decreases hi - lo,
{
    if hi <= lo {
        0
    } else {
        live_count(f, lo, hi - 1, least) + (if f[hi - 1].live >= least {
            1nat
        } else {
            0nat
        })
    }
}

/// At how many samples from `lo` to `hi` the rule fired.
pub open spec fn fired_count(f: Seq<FiringSample>, lo: int, hi: int) -> nat
    decreases hi - lo,
{
    if hi <= lo {
        0
    } else {
        fired_count(f, lo, hi - 1) + (if f[hi - 1].fired {
            1nat
        } else {
            0nat
        })
    }
}

/// The sample at a moment, for so many samples a second: none before the first.
pub open spec fn sample_at(ms: int, fps: int) -> int {
    if ms <= 0 {
        0
    } else {
        ms * fps / 1000
    }
}

/// The sample at a moment, or the number of samples where it lies behind them all.
pub open spec fn sample_within(ms: int, fps: int, samples: int) -> int {
    if sample_at(ms, fps) < samples {
        sample_at(ms, fps)
    } else {
        samples
    }
}

/// Half of the samples of a window, at least 1.
pub open spec fn half_window(window_ms: int, fps: int) -> int {
    let half = (window_ms * fps + 500) / 1000 / 2;
    if half < 1 {
        1
    } else {
        half
    }
}

/// How densely the rule fires in the window around a sample.
pub open spec fn density_at(f: Seq<FiringSample>, c: int, half: int) -> Density {
    let a = if c < half {
        0
    } else {
        c - half
    };
    let b = if c + half + 1 < f.len() {
        c + half + 1
    } else {
        f.len() as int
    };
    Density { fired: fired_count(f, a, b) as usize, samples: (b - a) as usize }
}

/// Whether one density is the greater.
pub open spec fn denser(a: Density, b: Density) -> bool {
    a.fired * b.samples > b.fired * a.samples
}

/// The greatest density around the samples from `lo` to `hi`, the earliest of equal
/// ones; none at all where there are no samples.
pub open spec fn peak_density(f: Seq<FiringSample>, lo: int, hi: int, half: int) -> Density
    decreases hi - lo,
{
    if hi <= lo {
        Density { fired: 0, samples: 1 }
    } else {
        let p = peak_density(f, lo, hi - 1, half);
        let d = density_at(f, hi - 1, half);
        if denser(d, p) {
            d
        } else {
            p
        }
    }
}

/// Around no sample of a span does the rule fire more densely than at its peak.
pub proof fn peak_is_highest(f: Seq<FiringSample>, lo: int, hi: int, half: int, c: int)
    requires
        0 <= lo <= c < hi <= f.len() <= usize::MAX,
        0 <= half,
    ensures
        !denser(density_at(f, c, half), peak_density(f, lo, hi, half)),
    decreases hi - lo,
{
    let p = peak_density(f, lo, hi - 1, half);
    let d = density_at(f, hi - 1, half);
    if c < hi - 1 {
        peak_is_highest(f, lo, hi - 1, half, c);
        let e = density_at(f, c, half);
        if denser(d, p) && denser(e, d) {
            density_is_proper(f, c, half);
            density_is_proper(f, hi - 1, half);
            peak_is_proper(f, lo, hi - 1, half);
            assert(e.fired * p.samples > p.fired * e.samples) by (nonlinear_arith)
                requires
                    e.fired * d.samples > d.fired * e.samples,
                    d.fired * p.samples > p.fired * d.samples,
                    e.samples > 0,
                    p.samples > 0,
                    d.samples > 0,
            ;
        }
    }
}

/// A density around a sample is a fraction of at least one sample.
proof fn density_is_proper(f: Seq<FiringSample>, c: int, half: int)
    requires
        0 <= c < f.len() <= usize::MAX,
        0 <= half,
    ensures
        density_at(f, c, half).samples > 0,
{
}

/// So is a peak.
proof fn peak_is_proper(f: Seq<FiringSample>, lo: int, hi: int, half: int)
    requires
        0 <= lo,
        hi <= f.len() <= usize::MAX,
        0 <= half,
    ensures
        peak_density(f, lo, hi, half).samples > 0,
    decreases hi - lo,
{
    if lo < hi {
        peak_is_proper(f, lo, hi - 1, half);
        density_is_proper(f, hi - 1, half);
    }
}

/// The diagnosis of a missed rally from what the pipeline saw in its window.
pub open spec fn traced(
    g: Interval,
    f: Seq<FiringSample>,
    fps: int,
    window_ms: int,
    density: int,
) -> MissTrace {
    let from = sample_within(g.start_ms as int, fps, f.len() as int);
    let hi = sample_within(g.end_ms as int, fps, f.len() as int);
    let n = if hi - from < 1 {
        1
    } else {
        hi - from
    };
    let two = live_count(f, from, hi, 2);
    let fired = fired_count(f, from, hi);
    let peak = peak_density(f, from, hi, half_window(window_ms, fps));
    MissTrace {
        samples: n as usize,
        any: live_count(f, from, hi, 1) as usize,
        two: two as usize,
        fired: fired as usize,
        peak,
        lost_at: if two * 2 < n {
            LostAt::Filters
        } else if fired * 5 < n {
            LostAt::Firing
        } else if peak.fired * 1000 < density * peak.samples {
            LostAt::Density
        } else {
            LostAt::Coverage
        },
    }
}

/// How many samples from `lo` to `hi` have at least so many people live.
fn count_live(f: &Vec<FiringSample>, lo: usize, hi: usize, least: u32) -> (n: usize)
    requires
        lo <= hi <= f@.len(),
    ensures
        n == live_count(f@, lo as int, hi as int, least),
        n <= hi - lo,
{
    let mut n: usize = 0;
    let mut i: usize = lo;
    while i < hi
        invariant
            lo <= i <= hi <= f@.len(),
            n == live_count(f@, lo as int, i as int, least),
            n <= i - lo,
        decreases hi - i,
    {
        if f[i].live >= least {
            n += 1;
        }
        i += 1;
    }
    n
}

/// At how many samples from `lo` to `hi` the rule fired.
fn count_fired(f: &Vec<FiringSample>, lo: usize, hi: usize) -> (n: usize)
    requires
        hi <= f@.len(),
    ensures
        n == fired_count(f@, lo as int, hi as int),
        n <= hi,
{
    let mut n: usize = 0;
    let mut i: usize = lo;
    while i < hi
        invariant
            hi <= f@.len(),
            lo <= i,
            i <= hi || i == lo,
            n == fired_count(f@, lo as int, i as int),
            n <= i - lo,
        decreases hi - i,
    {
        if f[i].fired {
            n += 1;
        }
        i += 1;
    }
    n
}

/// The sample at a moment, or the number of samples where it lies behind them all.
fn sample_index(ms: i64, fps: u32, samples: usize) -> (r: usize)
    ensures
        r == sample_within(ms as int, fps as int, samples as int),
{
    if ms <= 0 {
        return 0;
    }
    proof {
        assert(0 <= ms * fps <= 0x8000_0000_0000_0000int * 0x1_0000_0000int)
            by (nonlinear_arith)
            requires
                0 <= ms <= 0x8000_0000_0000_0000int,
                0 <= fps <= 0x1_0000_0000int,
        ;
    }
    let at: i128 = (ms as i128) * (fps as i128) / 1000;
    if at < samples as i128 {
        at as usize
    } else {
        samples
    }
}

/// A product of two counts fits in 128 bits.
proof fn products_fit(a: int, b: int)
    requires
        0 <= a <= u64::MAX,
        0 <= b <= u64::MAX,
    ensures
        0 <= a * b <= u128::MAX,
{
    assert(0 <= a * b <= 0xffff_ffff_ffff_ffff * 0xffff_ffff_ffff_ffff) by (nonlinear_arith)
        requires
            0 <= a <= 0xffff_ffff_ffff_ffff,
            0 <= b <= 0xffff_ffff_ffff_ffff,
    ;
}

/// Diagnose a missed gold rally: count what the occupancy pipeline saw inside its
/// window, and name the stage that lost it. The density is in thousandths.
pub fn trace_miss(
    g: &Interval,
    f: &Vec<FiringSample>,
    fps: u32,
    window_ms: i64,
    density: u32,
) -> (r: MissTrace)
    requires
        sample_within(g.start_ms as int, fps as int, f@.len() as int) <= sample_within(
            g.end_ms as int,
            fps as int,
            f@.len() as int,
        ),
    ensures
        r == traced(*g, f@, fps as int, window_ms as int, density as int),
{
    let from = sample_index(g.start_ms, fps, f.len());
    let hi = sample_index(g.end_ms, fps, f.len());
    let n: usize = if hi - from < 1 {
        1
    } else {
        hi - from
    };
    let any = count_live(f, from, hi, 1);
    let two = count_live(f, from, hi, 2);
    let fired = count_fired(f, from, hi);
    let half: u128 = half_of_window(window_ms, fps);
    let mut peak = Density { fired: 0, samples: 1 };
    let mut c: usize = from;
    while c < hi
        invariant
            from <= c <= hi <= f@.len(),
            1 <= half <= 0x8000_0000_0000_0000_0000_0000,
            peak == peak_density(f@, from as int, c as int, half as int),
        decreases hi - c,
    {
        let a: usize = if (c as u128) < half {
            0
        } else {
            c - half as usize
        };
        let b: usize = if (c as u128) + half + 1 < f.len() as u128 {
            c + half as usize + 1
        } else {
            f.len()
        };
        let d = Density { fired: count_fired(f, a, b), samples: b - a };
        assert(d == density_at(f@, c as int, half as int));
        proof {
            products_fit(d.fired as int, peak.samples as int);
            products_fit(peak.fired as int, d.samples as int);
        }
        if (d.fired as u128) * (peak.samples as u128) > (peak.fired as u128) * (d.samples as u128) {
            peak = d;
        }
        c += 1;
    }
    proof {
        products_fit(density as int, peak.samples as int);
    }
    let lost_at = if (two as u128) * 2 < n as u128 {
        LostAt::Filters
    } else if (fired as u128) * 5 < n as u128 {
        LostAt::Firing
    } else if (peak.fired as u128) * 1000 < (density as u128) * (peak.samples as u128) {
        LostAt::Density
    } else {
        LostAt::Coverage
    };
    MissTrace { samples: n, any, two, fired, peak, lost_at }
}

/// Half of the samples of a window, at least 1.
fn half_of_window(window_ms: i64, fps: u32) -> (r: u128)
    ensures
        r == half_window(window_ms as int, fps as int),
        1 <= r <= 0x8000_0000_0000_0000_0000_0000,
{
    proof {
        assert(window_ms > 0 ==> 0 <= window_ms * fps <= 0x8000_0000_0000_0000int
            * 0x1_0000_0000int) by (nonlinear_arith)
            requires
                window_ms <= 0x8000_0000_0000_0000int,
                0 <= fps <= 0x1_0000_0000int,
        ;
        assert(window_ms <= 0 ==> window_ms * fps <= 0) by (nonlinear_arith)
            requires
                0 <= fps,
        ;
    }
    if window_ms <= 0 {
        return 1;
    }
    let half: u128 = ((window_ms as u128) * (fps as u128) + 500) / 1000 / 2;
    if half < 1 {
        1
    } else {
        half
    }
}

/// What a diagnosis reads.
pub fn verdict_text(l: LostAt) -> (r: String)
    ensures
        r@ == (match l {
            LostAt::Filters => "detector/filters: two players rarely survive"@,
            LostAt::Firing => "firing rule: structure present, fires too rarely"@,
            LostAt::Density => "density: fires, but never densely enough"@,
            LostAt::Coverage =>
                "coverage: dense firing, span lost downstream (min-rally/bridge)"@,
        }),
{
    match l {
        LostAt::Filters => "detector/filters: two players rarely survive".to_owned(),
        LostAt::Firing => "firing rule: structure present, fires too rarely".to_owned(),
        LostAt::Density => "density: fires, but never densely enough".to_owned(),
        LostAt::Coverage =>
            "coverage: dense firing, span lost downstream (min-rally/bridge)".to_owned(),
    }
}

/// The rallies of `gold` that no draft rally overlaps.
pub open spec fn missed(draft: Seq<Interval>) -> spec_fn(Interval) -> bool {
    |g: Interval| !any(draft, overlapping(g))
}

/// The rallies of `gold` that the draft misses, in order: those to diagnose.
pub fn missed_rallies(draft: &Vec<Interval>, gold: &Vec<Interval>) -> (r: Vec<Interval>)
    requires
        all_near(draft@),
        all_near(gold@),
    ensures
        r@ == gold@.filter(missed(draft@)),
{
    let ghost p = missed(draft@);
    let mut out: Vec<Interval> = Vec::new();
    let mut i: usize = 0;
    proof {
        reveal(Seq::filter);
        assert(out@ =~= gold@.take(0).filter(p));
    }
    while i < gold.len()
        invariant
            i <= gold@.len(),
            all_near(draft@),
            all_near(gold@),
            p == missed(draft@),
            out@ == gold@.take(i as int).filter(p),
        decreases gold@.len() - i,
    {
        proof {
            assert(near(gold@[i as int]));
            crate::table::filter_step(gold@, p, i as int);
        }
        if best_match(&gold[i], draft).is_none() {
            out.push(gold[i]);
        }
        i += 1;
    }
    assert(gold@.take(i as int) =~= gold@);
    out
}

} // verus!
