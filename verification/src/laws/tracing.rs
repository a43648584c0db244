//! The harness: what the corpus tells, what totals add up to, which configurations are
//! swept and how they are ranked, and what the diagnosis of a missed rally is made of.
use vstd::prelude::*;

use crate::eval::{boundary_offsets, miss_count, overlapping, rate, Interval};
use crate::harness::{
    best_first, corpus_entry, corrected, denser, density_at, fired_count, half_window, interval_of,
    live_count, missed, peak_density, peak_is_highest, sample_at, sample_within, sweep_point,
    tally_of, traced, Density, FiringSample, LostAt, RerunView, SweepPoint, SweepRowView,
};
use crate::laws::scoring::{is_met, overlap_counts_shared_time, share_time};
use crate::path::joined;
use crate::store::{RecordingView, StoreView};
use crate::table::any;
use crate::timeline::{ordered_rallies, timeline_of, timeline_rally};

verus! {

/// The corpus has the timelines of the recordings for gold, and takes a recording for
/// corrected by hand where a rally of it is fully certain.
pub proof fn the_corpus_tells_timelines(d: StoreView, folder: Seq<char>, r: RecordingView)
    ensures
        ({
            let c = corpus_entry(d, folder)(r);
            let t = timeline_of(d, r);
            &&& c.abs_path == joined(folder, r.path)
            &&& c.rel_path == r.path
            &&& c.duration_ms == t.duration_ms
            &&& c.segment_state == t.segment_state
            &&& c.gold.len() == t.rallies.len()
            &&& forall|k: int|
                0 <= k < t.rallies.len() ==> (#[trigger] c.gold[k]).start_ms
                    == t.rallies[k].start_ms && c.gold[k].end_ms == t.rallies[k].end_ms
            &&& c.hand_corrected <==> exists|k: int|
                0 <= k < t.rallies.len() && (#[trigger] t.rallies[k]).confidence >= 1_000_000_000
        }),
{
    let c = corpus_entry(d, folder)(r);
    let o = ordered_rallies(d, r.id);
    let t = timeline_of(d, r).rallies;
    assert(t == o.map_values(timeline_rally()));
    assert(c.gold == o.map_values(interval_of()));
    if any(o, corrected()) {
        let k = choose|k: int| 0 <= k < o.len() && corrected()(#[trigger] o[k]);
        assert(t[k].confidence >= 1_000_000_000);
    }
    if exists|k: int| 0 <= k < t.len() && (#[trigger] t[k]).confidence >= 1_000_000_000 {
        let k = choose|k: int| 0 <= k < t.len() && (#[trigger] t[k]).confidence >= 1_000_000_000;
        assert(corrected()(o[k]));
    }
}

/// The rallies to diagnose are those of the gold timeline that share no time with any
/// rally of the draft.
pub proof fn missed_rallies_share_no_time(draft: Seq<Interval>, g: Interval)
    ensures
        missed(draft)(g) <==> !is_met(draft, g),
{
    if any(draft, overlapping(g)) {
        let k = choose|k: int| 0 <= k < draft.len() && overlapping(g)(#[trigger] draft[k]);
        overlap_counts_shared_time(draft[k], g);
        assert(share_time(draft[k], g));
    }
    if is_met(draft, g) {
        let k = choose|k: int| 0 <= k < draft.len() && share_time(#[trigger] draft[k], g);
        overlap_counts_shared_time(draft[k], g);
        assert(overlapping(g)(draft[k]));
    }
}

/// Totals add up: one more recording adds its own misses, false positives, draft rallies,
/// duration and boundary errors.
pub proof fn totals_take_in_every_recording(runs: Seq<RerunView>, r: RerunView)
    ensures
        ({
            let a = tally_of(runs);
            let b = tally_of(runs.push(r));
            &&& b.scored == a.scored + 1
            &&& b.misses == a.misses + miss_count(r.gold, r.draft)
            &&& b.false_positives == a.false_positives + miss_count(r.draft, r.gold)
            &&& b.draft_count == a.draft_count + r.draft.len()
            &&& b.total_ms == a.total_ms + r.duration_ms
            &&& b.boundary_errors_ms == a.boundary_errors_ms + boundary_offsets(r.gold, r.draft)
        }),
        ({
            let t = tally_of(Seq::empty());
            &&& t.scored == 0 && t.misses == 0 && t.false_positives == 0 && t.draft_count == 0
            &&& t.total_ms == 0 && t.boundary_errors_ms.len() == 0
        }),
{
    assert(runs.push(r).drop_last() =~= runs);
}

/// The sweep visits every combination of two movement floors, four size ratios, three area
/// caps, four windows and four densities.
pub proof fn sweeps_visit_every_combination(a: int, b: int, c: int, e: int, f: int)
    requires
        0 <= a < 2,
        0 <= b < 4,
        0 <= c < 3,
        0 <= e < 4,
        0 <= f < 4,
    ensures
        ({
            let i = 192 * a + 48 * b + 16 * c + 4 * e + f;
            &&& 0 <= i < 384
            &&& sweep_point(i) == (SweepPoint {
                static_frac: if a == 0 {
                    20
                } else {
                    50
                },
                ratio: if b == 0 {
                    1000
                } else if b == 1 {
                    1500
                } else if b == 2 {
                    2000
                } else {
                    2500
                },
                area_cap_k: if c == 0 {
                    4000
                } else if c == 1 {
                    8000
                } else {
                    16000
                },
                window_ms: if e == 0 {
                    1500
                } else if e == 1 {
                    2000
                } else if e == 2 {
                    3000
                } else {
                    4000
                },
                density: if f == 0 {
                    300
                } else if f == 1 {
                    400
                } else if f == 2 {
                    500
                } else {
                    600
                },
            })
        }),
{
    let i = 192 * a + 48 * b + 16 * c + 4 * e + f;
    assert(i / 192 == a);
    assert(i / 48 == 4 * a + b);
    assert(i / 16 == 12 * a + 3 * b + c);
    assert(i / 4 == 48 * a + 12 * b + 4 * c + e);
    assert((i / 48) % 4 == b);
    assert((i / 16) % 3 == c);
    assert((i / 4) % 4 == e);
    assert(i % 4 == f);
}

/// A configuration is ranked before another exactly where it misses fewer rallies, or as
/// many with fewer false positives per hour.
pub proof fn fewer_misses_come_first(a: SweepRowView, b: SweepRowView)
    ensures
        a.misses < b.misses ==> best_first()(a, b),
        a.misses > b.misses ==> !best_first()(a, b),
        a.misses == b.misses ==> best_first()(a, b) == (a.rate.count * b.rate.span_ms
            < b.rate.count * a.rate.span_ms),
{
}

/// How many samples have at least so many people live.
pub open spec fn live_among(s: Seq<FiringSample>, least: u32) -> nat {
    s.filter(|x: FiringSample| x.live >= least).len()
}

/// At how many samples the rule fired.
pub open spec fn fired_among(s: Seq<FiringSample>) -> nat {
    s.filter(|x: FiringSample| x.fired).len()
}

/// The samples of a span with at least so many people live are counted, and so are those at
/// which the rule fired.
pub proof fn samples_are_counted(f: Seq<FiringSample>, lo: int, hi: int, least: u32)
    requires
        0 <= lo <= hi <= f.len(),
    ensures
        live_count(f, lo, hi, least) == live_among(f.subrange(lo, hi), least),
        fired_count(f, lo, hi) == fired_among(f.subrange(lo, hi)),
        live_count(f, lo, hi, least) <= hi - lo,
        fired_count(f, lo, hi) <= hi - lo,
    decreases hi - lo,
{
    reveal(Seq::filter);
    if lo < hi {
        samples_are_counted(f, lo, hi - 1, least);
        let s = f.subrange(lo, hi);
        assert(s.drop_last() =~= f.subrange(lo, hi - 1));
        assert(s.last() == f[hi - 1]);
    }
}

/// The sample at a moment is the last one taken up to it.
pub proof fn samples_are_taken_up_to_a_moment(ms: int, fps: int, samples: int)
    requires
        0 <= ms,
        0 <= fps,
        0 <= samples,
    ensures
        ({
            let s = sample_at(ms, fps);
            &&& 1000 * s <= ms * fps < 1000 * (s + 1)
            &&& 0 <= s
            &&& s < samples ==> sample_within(ms, fps, samples) == s
            &&& s >= samples ==> sample_within(ms, fps, samples) == samples
        }),
{
    let p = ms * fps;
    assert(p >= 0) by (nonlinear_arith)
        requires
            p == ms * fps,
            ms >= 0,
            fps >= 0,
    ;
    if ms == 0 {
        assert(p == 0) by (nonlinear_arith)
            requires
                p == ms * fps,
                ms == 0,
        ;
    }
}

/// Half of a window is half of its samples, these rounded to the nearest number, and at
/// least one.
pub proof fn windows_are_halved(window_ms: int, fps: int, samples: int)
    requires
        0 <= window_ms,
        0 <= fps,
        2 * window_ms * fps <= 1000 * (2 * samples + 1) - 1,
        2 * window_ms * fps >= 1000 * (2 * samples - 1),
        samples >= 0,
    ensures
        samples >= 2 ==> half_window(window_ms, fps) == samples / 2,
        samples < 2 ==> half_window(window_ms, fps) == 1,
{
    let p = window_ms * fps;
    assert(2 * window_ms * fps == 2 * p) by (nonlinear_arith)
        requires
            p == window_ms * fps,
    ;
    assert((p + 500) / 1000 == samples);
}

/// Whether a density is that of the samples in the window around one.
pub open spec fn density_around(f: Seq<FiringSample>, c: int, half: int, d: Density) -> bool {
    exists|a: int, b: int|
        {
            &&& 0 <= a <= c < b <= f.len()
            &&& a == 0 && c <= half || a == c - half
            &&& b == f.len() && f.len() <= c + half + 1 || b == c + half + 1
            &&& d.samples == b - a
            &&& d.fired == fired_among(#[trigger] f.subrange(a, b))
        }
}

/// The density around a sample is the share of the samples in its window at which the rule
/// fired.
pub proof fn densities_are_shares_of_a_window(f: Seq<FiringSample>, c: int, half: int)
    requires
        0 <= c < f.len() <= usize::MAX,
        1 <= half,
    ensures
        density_around(f, c, half, density_at(f, c, half)),
{
    let a = if c < half {
        0
    } else {
        c - half
    };
    let b = if c + half + 1 < f.len() {
        c + half + 1
    } else {
        f.len() as int
    };
    samples_are_counted(f, a, b, 0);
    let t = f.subrange(a, b);
    assert(density_at(f, c, half).fired == fired_among(t));
}

/// The peak of a span is the density around one of its samples, and around none is it
/// greater; or nothing fired anywhere.
pub proof fn peaks_are_reached(f: Seq<FiringSample>, lo: int, hi: int, half: int)
    requires
        0 <= lo <= hi <= f.len() <= usize::MAX,
        1 <= half,
    ensures
        ({
            let p = peak_density(f, lo, hi, half);
            &&& p.samples > 0
            &&& p.fired == 0 || exists|c: int|
                lo <= c < hi && p == #[trigger] density_at(f, c, half)
            &&& forall|c: int|
                lo <= c < hi ==> (#[trigger] density_at(f, c, half)).fired * p.samples <= p.fired
                    * density_at(f, c, half).samples
        }),
    decreases hi - lo,
{
    if lo < hi {
        peaks_are_reached(f, lo, hi - 1, half);
        let q = peak_density(f, lo, hi - 1, half);
        let d = density_at(f, hi - 1, half);
        assert(d.samples > 0);
        if !denser(d, q) && q.fired != 0 {
            let c = choose|c: int| lo <= c < hi - 1 && q == #[trigger] density_at(f, c, half);
            assert(q == density_at(f, c, half));
        }
        let p = peak_density(f, lo, hi, half);
        assert forall|c: int| lo <= c < hi implies (#[trigger] density_at(f, c, half)).fired
            * p.samples <= p.fired * density_at(f, c, half).samples by {
            peak_is_highest(f, lo, hi, half, c);
        }
    }
}

/// A missed rally was lost at the filters where two people are live at less than half of
/// its samples; else at the rule where that fired at less than a fifth of them; else for
/// want of density where the peak stays below what is asked for; else behind all that.
pub proof fn diagnoses_go_by_shares(
    g: Interval,
    f: Seq<FiringSample>,
    fps: int,
    window_ms: int,
    density: int,
)
    requires
        0 <= sample_within(g.start_ms as int, fps, f.len() as int) <= sample_within(
            g.end_ms as int,
            fps,
            f.len() as int,
        ),
        f.len() <= usize::MAX,
    ensures
        ({
            let t = traced(g, f, fps, window_ms, density);
            let lo = sample_within(g.start_ms as int, fps, f.len() as int);
            let hi = sample_within(g.end_ms as int, fps, f.len() as int);
            let span = f.subrange(lo, hi);
            &&& t.samples == (if lo < hi {
                hi - lo
            } else {
                1
            })
            &&& t.any == live_among(span, 1)
            &&& t.two == live_among(span, 2)
            &&& t.fired == fired_among(span)
            &&& t.lost_at == LostAt::Filters <==> 2 * t.two < t.samples
            &&& t.lost_at == LostAt::Firing <==> 2 * t.two >= t.samples && 5 * t.fired < t.samples
            &&& t.lost_at == LostAt::Density <==> 2 * t.two >= t.samples && 5 * t.fired
                >= t.samples && 1000 * t.peak.fired < density * t.peak.samples
            &&& t.peak == peak_density(f, lo, hi, half_window(window_ms, fps))
        }),
{
    let lo = sample_within(g.start_ms as int, fps, f.len() as int);
    let hi = sample_within(g.end_ms as int, fps, f.len() as int);
    samples_are_counted(f, lo, hi, 1);
    samples_are_counted(f, lo, hi, 2);
}

} // verus!
