//! Scoring a draft timeline against a hand-corrected one: overlap and boundary
//! arithmetic over two sets of intervals.
use vstd::prelude::*;

use crate::table::{any, sort_by, sorted};

verus! {

/// A rally interval in milliseconds from the recording start.
#[derive(Debug, Clone, Copy, PartialEq, Eq, Structural)]
pub struct Interval {
    pub start_ms: i64,
    pub end_ms: i64,
}

impl DeepView for Interval {
    type V = Interval;

    open spec fn deep_view(&self) -> Interval {
        *self
    }
}

/// The greatest distance of a boundary from the recording start that differences
/// of boundaries fit in range for.
pub const FARTHEST_MS: i64 = 4_611_686_018_427_387_903;

/// Whether the boundaries of an interval are near enough that differences of
/// boundaries fit in range.
pub open spec fn near(i: Interval) -> bool {
    -FARTHEST_MS <= i.start_ms <= FARTHEST_MS && -FARTHEST_MS <= i.end_ms <= FARTHEST_MS
}

/// Whether all boundaries are near enough.
pub open spec fn all_near(s: Seq<Interval>) -> bool {
    forall|i: int| 0 <= i < s.len() ==> near(#[trigger] s[i])
}

/// Whether all boundaries are near enough.
pub fn are_near(v: &Vec<Interval>) -> (r: bool)
    ensures
        r == all_near(v@),
{
    let mut i: usize = 0;
    while i < v.len()
        invariant
            i <= v@.len(),
            forall|j: int| 0 <= j < i ==> near(#[trigger] v@[j]),
        decreases v@.len() - i,
    {
        let one = v[i];
        if one.start_ms < -FARTHEST_MS || one.start_ms > FARTHEST_MS || one.end_ms < -FARTHEST_MS
            || one.end_ms > FARTHEST_MS {
            assert(!near(v@[i as int]));
            return false;
        }
        i += 1;
    }
    true
}

/// Milliseconds of overlap between two intervals, 0 when they are disjoint or
/// merely touch.
pub open spec fn overlap(a: Interval, b: Interval) -> int {
    let end = if a.end_ms < b.end_ms {
        a.end_ms
    } else {
        b.end_ms
    };
    let start = if a.start_ms > b.start_ms {
        a.start_ms
    } else {
        b.start_ms
    };
    if end - start > 0 {
        end - start
    } else {
        0
    }
}

impl Interval {
    /// Milliseconds of overlap between two intervals, 0 when they are disjoint or
    /// merely touch.
    pub fn overlap_ms(&self, other: &Interval) -> (r: i64)
        requires
            overlap(*self, *other) <= i64::MAX,
        ensures
            r == overlap(*self, *other),
    {
        let end: i64 = if self.end_ms < other.end_ms {
            self.end_ms
        } else {
            other.end_ms
        };
        let start: i64 = if self.start_ms > other.start_ms {
            self.start_ms
        } else {
            other.start_ms
        };
        if end > start {
            end - start
        } else {
            0
        }
    }

    /// Whether two intervals share any positive span of time.
    pub fn overlaps(&self, other: &Interval) -> (r: bool)
        requires
            overlap(*self, *other) <= i64::MAX,
        ensures
            r == (overlap(*self, *other) > 0),
    {
        self.overlap_ms(other) > 0
    }
}

/// The intervals that overlap one.
pub open spec fn overlapping(g: Interval) -> spec_fn(Interval) -> bool {
    |d: Interval| overlap(d, g) > 0
}

/// Whether `a` covers `g` better than `b`: by more of it, or as much and an
/// earlier start, or that too and an earlier end.
pub open spec fn covers_better(g: Interval, a: Interval, b: Interval) -> bool {
    if overlap(a, g) != overlap(b, g) {
        overlap(a, g) > overlap(b, g)
    } else if a.start_ms != b.start_ms {
        a.start_ms < b.start_ms
    } else {
        a.end_ms < b.end_ms
    }
}

/// Whether `d` is the draft rally that best covers `g`.
pub open spec fn is_best(g: Interval, draft: Seq<Interval>, d: Interval) -> bool {
    &&& draft.contains(d)
    &&& overlap(d, g) > 0
    &&& forall|i: int|
        0 <= i < draft.len() && overlap(#[trigger] draft[i], g) > 0 ==> !covers_better(
            g,
            draft[i],
            d,
        )
}

/// The draft rally that best covers `g`, if any overlaps it.
pub open spec fn best_of(g: Interval, draft: Seq<Interval>) -> Option<Interval> {
    if any(draft, overlapping(g)) {
        Some(choose|d: Interval| is_best(g, draft, d))
    } else {
        None
    }
}

/// The best match does not depend on the order of the draft: two drafts of the
/// same rallies have one best match.
pub proof fn best_match_ignores_order(g: Interval, a: Seq<Interval>, b: Seq<Interval>)
    requires
        forall|d: Interval| a.contains(d) <==> b.contains(d),
    ensures
        best_of(g, a) == best_of(g, b),
{
    assert forall|d: Interval| is_best(g, a, d) implies is_best(g, b, d) by {
        best_among_same(g, a, b, d);
    }
    assert forall|d: Interval| is_best(g, b, d) implies is_best(g, a, d) by {
        best_among_same(g, b, a, d);
    }
    assert(any(a, overlapping(g)) == any(b, overlapping(g))) by {
        if any(a, overlapping(g)) {
            any_among_same(g, a, b);
        }
        if any(b, overlapping(g)) {
            any_among_same(g, b, a);
        }
    }
    if any(a, overlapping(g)) {
        best_exists(g, a);
        let x = choose|d: Interval| is_best(g, a, d);
        best_exists(g, b);
        let y = choose|d: Interval| is_best(g, b, d);
        best_is_unique(g, a, x, y);
    }
}

/// The best of one sequence is the best of another with the same elements.
proof fn best_among_same(g: Interval, a: Seq<Interval>, b: Seq<Interval>, d: Interval)
    requires
        forall|d: Interval| a.contains(d) <==> b.contains(d),
        is_best(g, a, d),
    ensures
        is_best(g, b, d),
{
    assert forall|i: int| 0 <= i < b.len() && overlap(#[trigger] b[i], g) > 0 implies !covers_better(
        g,
        b[i],
        d,
    ) by {
        assert(b.contains(b[i]));
        let k = choose|k: int| 0 <= k < a.len() && a[k] == b[i];
        assert(overlap(a[k], g) > 0);
    }
}

/// An overlap in one sequence is one in another with the same elements.
proof fn any_among_same(g: Interval, a: Seq<Interval>, b: Seq<Interval>)
    requires
        forall|d: Interval| a.contains(d) <==> b.contains(d),
        any(a, overlapping(g)),
    ensures
        any(b, overlapping(g)),
{
    let i = choose|i: int| 0 <= i < a.len() && overlapping(g)(#[trigger] a[i]);
    assert(a.contains(a[i]));
    let k = choose|k: int| 0 <= k < b.len() && b[k] == a[i];
    assert(overlapping(g)(b[k]));
}

/// There is at most one best match.
proof fn best_is_unique(g: Interval, s: Seq<Interval>, a: Interval, b: Interval)
    requires
        is_best(g, s, a),
        is_best(g, s, b),
    ensures
        a == b,
{
    let i = choose|i: int| 0 <= i < s.len() && s[i] == a;
    let j = choose|j: int| 0 <= j < s.len() && s[j] == b;
    assert(!covers_better(g, s[i], b));
    assert(!covers_better(g, s[j], a));
}

/// Among overlapping rallies there is a best one.
pub proof fn best_exists(g: Interval, s: Seq<Interval>)
    requires
        any(s, overlapping(g)),
    ensures
        exists|d: Interval| is_best(g, s, d),
    decreases s.len(),
{
    let t = s.drop_last();
    let l = s.last();
    let i = choose|i: int| 0 <= i < s.len() && overlapping(g)(#[trigger] s[i]);
    if any(t, overlapping(g)) {
        best_exists(g, t);
        let d = choose|d: Interval| is_best(g, t, d);
        let k = choose|k: int| 0 <= k < t.len() && t[k] == d;
        assert(s[k] == d);
        if overlap(l, g) > 0 && covers_better(g, l, d) {
            assert(s[s.len() - 1] == l);
            assert(is_best(g, s, l)) by {
                assert forall|j: int|
                    0 <= j < s.len() && overlap(#[trigger] s[j], g) > 0 implies !covers_better(
                    g,
                    s[j],
                    l,
                ) by {
                    if j < t.len() {
                        assert(t[j] == s[j]);
                    }
                }
            }
        } else {
            assert(is_best(g, s, d)) by {
                assert forall|j: int|
                    0 <= j < s.len() && overlap(#[trigger] s[j], g) > 0 implies !covers_better(
                    g,
                    s[j],
                    d,
                ) by {
                    if j < t.len() {
                        assert(t[j] == s[j]);
                    }
                }
            }
        }
    } else {
        if i < t.len() {
            assert(overlapping(g)(t[i]));
        }
        assert(s[s.len() - 1] == l);
        assert(is_best(g, s, l)) by {
            assert forall|j: int|
                0 <= j < s.len() && overlap(#[trigger] s[j], g) > 0 implies !covers_better(
                g,
                s[j],
                l,
            ) by {
                if j < t.len() {
                    assert(t[j] == s[j]);
                    assert(overlapping(g)(t[j]));
                }
            }
        }
    }
}

/// The draft rally that best covers `gold`, or `None` when none overlaps it. Ties
/// in overlap resolve to the earliest start, then the earliest end.
pub fn best_match(gold: &Interval, draft: &Vec<Interval>) -> (r: Option<Interval>)
    requires
        near(*gold),
        all_near(draft@),
    ensures
        r == best_of(*gold, draft@),
        r matches Some(d) ==> is_best(*gold, draft@, d),
{
    let ghost g = *gold;
    let mut best: Option<Interval> = None;
    let mut i: usize = 0;
    while i < draft.len()
        invariant
            i <= draft@.len(),
            near(*gold),
            all_near(draft@),
            g == *gold,
            match best {
                Some(d) => is_best(g, draft@.take(i as int), d) && near(d),
                None => !any(draft@.take(i as int), overlapping(g)),
            },
        decreases draft@.len() - i,
    {
        let d: Interval = draft[i];
        let ghost t = draft@.take(i as int);
        let ghost u = draft@.take(i + 1);
        assert(near(draft@[i as int]));
        assert(u =~= t.push(d));
        if d.overlaps(gold) {
            let wins = match best {
                Some(b) => {
                    let x: i64 = d.overlap_ms(gold);
                    let y: i64 = b.overlap_ms(gold);
                    if x != y {
                        x > y
                    } else if d.start_ms != b.start_ms {
                        d.start_ms < b.start_ms
                    } else {
                        d.end_ms < b.end_ms
                    }
                },
                None => true,
            };
            proof {
                if wins {
                    assert(u[i as int] == d);
                    assert forall|j: int|
                        0 <= j < u.len() && overlap(#[trigger] u[j], g) > 0 implies !covers_better(
                        g,
                        u[j],
                        d,
                    ) by {
                        if j < t.len() {
                            assert(t[j] == u[j]);
                            if best is None {
                                assert(overlapping(g)(t[j]));
                            }
                        }
                    }
                    assert(is_best(g, u, d));
                } else {
                    keeps_best(g, t, d, best->0);
                }
            }
            if wins {
                best = Some(d);
            }
        } else {
            proof {
                match best {
                    Some(b) => {
                        keeps_best(g, t, d, b);
                    },
                    None => {
                        if any(u, overlapping(g)) {
                            let j = choose|j: int|
                                0 <= j < u.len() && overlapping(g)(#[trigger] u[j]);
                            if j < t.len() {
                                assert(overlapping(g)(t[j]));
                            }
                        }
                    },
                }
            }
        }
        i += 1;
    }
    proof {
        assert(draft@.take(i as int) =~= draft@);
        if let Some(d) = best {
            let k = choose|k: int| 0 <= k < draft@.len() && draft@[k] == d;
            assert(overlapping(g)(draft@[k]));
            let x = choose|x: Interval| is_best(g, draft@, x);
            best_is_unique(g, draft@, x, d);
        }
    }
    best
}

/// The best match stays the best behind a rally that does not cover better.
proof fn keeps_best(g: Interval, t: Seq<Interval>, d: Interval, b: Interval)
    requires
        is_best(g, t, b),
        overlap(d, g) > 0 ==> !covers_better(g, d, b),
    ensures
        is_best(g, t.push(d), b),
{
    let u = t.push(d);
    let k = choose|k: int| 0 <= k < t.len() && t[k] == b;
    assert(u[k] == b);
    assert forall|j: int| 0 <= j < u.len() && overlap(#[trigger] u[j], g) > 0 implies !covers_better(
        g,
        u[j],
        b,
    ) by {
        if j < t.len() {
            assert(t[j] == u[j]);
        }
    }
}

/// How many rallies of `gold` no draft rally overlaps.
pub open spec fn miss_count(gold: Seq<Interval>, draft: Seq<Interval>) -> nat
    decreases gold.len(),
{
    if gold.len() == 0 {
        0
    } else {
        miss_count(gold.drop_last(), draft) + (if any(draft, overlapping(gold.last())) {
            0nat
        } else {
            1nat
        })
    }
}

/// The distance of two boundaries.
pub open spec fn distance(a: i64, b: i64) -> i64 {
    if a < b {
        (b - a) as i64
    } else {
        (a - b) as i64
    }
}

/// The start and end offsets of each matched rally of `gold` from its best match.
pub open spec fn boundary_offsets(gold: Seq<Interval>, draft: Seq<Interval>) -> Seq<i64>
    decreases gold.len(),
{
    if gold.len() == 0 {
        Seq::empty()
    } else {
        let g = gold.last();
        let rest = boundary_offsets(gold.drop_last(), draft);
        match best_of(g, draft) {
            Some(d) => rest.push(distance(g.start_ms, d.start_ms)).push(
                distance(g.end_ms, d.end_ms),
            ),
            None => rest,
        }
    }
}

/// A rate: so many in so many milliseconds.
#[derive(Debug, Clone, Copy, PartialEq, Eq, Structural)]
pub struct Rate {
    pub count: usize,
    pub span_ms: i64,
}

/// Milliseconds in an hour.
pub const MS_PER_HOUR: i64 = 3_600_000;

/// A count over a span as a rate: none at all where the span is not positive.
pub open spec fn rate(count: usize, span_ms: i64) -> Rate {
    if span_ms > 0 {
        Rate { count, span_ms }
    } else {
        Rate { count: 0, span_ms: MS_PER_HOUR }
    }
}

/// A count normalized over `span_ms`: a rate of zero when the span is not
/// positive, so an unknown duration never yields a division by zero. Its value
/// per hour is its count times an hour over its span.
pub fn per_hour(count: usize, span_ms: i64) -> (r: Rate)
    ensures
        r == rate(count, span_ms),
        r.span_ms > 0,
{
    if span_ms > 0 {
        Rate { count, span_ms }
    } else {
        Rate { count: 0, span_ms: MS_PER_HOUR }
    }
}

/// The latest end of some intervals, or `least` where that is later.
pub open spec fn latest_end(s: Seq<Interval>) -> Option<i64>
    decreases s.len(),
{
    if s.len() == 0 {
        None
    } else {
        match latest_end(s.drop_last()) {
            Some(e) => Some(
                if e < s.last().end_ms {
                    s.last().end_ms
                } else {
                    e
                },
            ),
            None => Some(s.last().end_ms),
        }
    }
}

/// The length of a recording for rates: its known duration, or else the latest
/// end of both timelines.
pub open spec fn effective_span(
    duration_ms: i64,
    draft: Seq<Interval>,
    gold: Seq<Interval>,
) -> i64 {
    if duration_ms > 0 {
        duration_ms
    } else {
        match latest_end(draft + gold) {
            Some(e) => e,
            None => 0,
        }
    }
}

/// The length of a recording for rates: its known `duration_ms`, or, when that is
/// unknown, the latest end across both timelines.
pub fn effective_ms(duration_ms: i64, draft: &Vec<Interval>, gold: &Vec<Interval>) -> (r: i64)
    ensures
        r == effective_span(duration_ms, draft@, gold@),
{
    if duration_ms > 0 {
        return duration_ms;
    }
    let ghost all = draft@ + gold@;
    let mut latest: Option<i64> = None;
    let mut i: usize = 0;
    assert(all.take(0) =~= Seq::empty());
    while i < draft.len()
        invariant
            i <= draft@.len(),
            all == draft@ + gold@,
            latest == latest_end(all.take(i as int)),
        decreases draft@.len() - i,
    {
        assert(all.take(i + 1).drop_last() =~= all.take(i as int));
        assert(all.take(i + 1).last() == draft@[i as int]);
        let e: i64 = draft[i].end_ms;
        latest =
        match latest {
            Some(x) => Some(
                if x < e {
                    e
                } else {
                    x
                },
            ),
            None => Some(e),
        };
        i += 1;
    }
    let mut j: usize = 0;
    while j < gold.len()
        invariant
            j <= gold@.len(),
            all == draft@ + gold@,
            latest == latest_end(all.take(draft@.len() + j)),
        decreases gold@.len() - j,
    {
        assert(all.take(draft@.len() + j + 1).drop_last() =~= all.take(draft@.len() + j));
        assert(all.take(draft@.len() + j + 1).last() == gold@[j as int]);
        let e: i64 = gold[j].end_ms;
        latest =
        match latest {
            Some(x) => Some(
                if x < e {
                    e
                } else {
                    x
                },
            ),
            None => Some(e),
        };
        j += 1;
    }
    assert(all.take(draft@.len() + j) =~= all);
    match latest {
        Some(e) => e,
        None => 0,
    }
}

/// Numbers in ascending order.
pub open spec fn ascending_order() -> spec_fn(i64, i64) -> bool {
    |a: i64, b: i64| a < b
}

/// Twice the median of some numbers: twice the central one, or the sum of the two
/// central ones.
pub open spec fn twice_median(values: Seq<i64>) -> Option<int> {
    let s = sort_by(values, ascending_order());
    let mid = s.len() as int / 2;
    if values.len() == 0 {
        None
    } else if s.len() % 2 == 1 {
        Some(2 * s[mid])
    } else {
        Some(s[mid - 1] + s[mid])
    }
}

/// Twice the median of some millisecond errors, or `None` when there are none.
/// Even counts take the two central values together.
pub fn median(values: &Vec<i64>) -> (r: Option<i128>)
    ensures
        match (r, twice_median(values@)) {
            (Some(a), Some(b)) => a == b,
            (None, None) => true,
            _ => false,
        },
{
    if values.len() == 0 {
        return None;
    }
    let s = sorted(
        values,
        |a: &i64, b: &i64| -> (r: bool)
            ensures
                r == (*a < *b)
            { *a < *b },
        Ghost(ascending_order()),
    );
    proof {
        assert(values.deep_view() =~= values@);
        assert(s.deep_view() =~= s@);
        crate::table::sort_by_len(values@, ascending_order());
    }
    let mid: usize = s.len() / 2;
    if s.len() % 2 == 1 {
        Some(2 * (s[mid] as i128))
    } else {
        Some(s[mid - 1] as i128 + s[mid] as i128)
    }
}

/// The scored verdict for one recording: the acceptance numbers and the counts
/// they are derived from.
#[derive(Debug, Clone, PartialEq)]
pub struct Score {
    /// Gold rallies scored against.
    pub gold_count: usize,
    /// Draft rallies the segmenter produced.
    pub draft_count: usize,
    /// Gold rallies with at least one overlapping draft rally.
    pub matched: usize,
    /// Gold rallies with no overlapping draft rally.
    pub misses: usize,
    /// Draft rallies overlapping no gold rally.
    pub false_positives: usize,
    /// The false positives over the recording's duration.
    pub false_positives_per_hour: Rate,
    /// For each matched gold rally, the start and end offset from its best match.
    pub boundary_errors_ms: Vec<i64>,
    /// Twice the median of the boundary errors, in ms; `None` when nothing
    /// matched.
    pub twice_median_boundary_error_ms: Option<i128>,
}

/// How many of some rallies nothing of a draft overlaps.
fn count_misses(gold: &Vec<Interval>, draft: &Vec<Interval>) -> (n: usize)
    requires
        all_near(gold@),
        all_near(draft@),
    ensures
        n == miss_count(gold@, draft@),
        n <= gold@.len(),
{
    let mut n: usize = 0;
    let mut i: usize = 0;
    assert(gold@.take(0) =~= Seq::empty());
    while i < gold.len()
        invariant
            i <= gold@.len(),
            all_near(gold@),
            all_near(draft@),
            n == miss_count(gold@.take(i as int), draft@),
            n <= i,
        decreases gold@.len() - i,
    {
        assert(gold@.take(i + 1).drop_last() =~= gold@.take(i as int));
        assert(gold@.take(i + 1).last() == gold@[i as int]);
        assert(near(gold@[i as int]));
        if best_match(&gold[i], draft).is_none() {
            n += 1;
        }
        i += 1;
    }
    assert(gold@.take(i as int) =~= gold@);
    n
}

/// Whether a score is that of a draft against a gold timeline.
pub open spec fn is_score_of(
    r: Score,
    draft: Seq<Interval>,
    gold: Seq<Interval>,
    duration_ms: i64,
) -> bool {
    &&& r.gold_count == gold.len()
    &&& r.draft_count == draft.len()
    &&& r.misses == miss_count(gold, draft)
    &&& r.matched + r.misses == r.gold_count
    &&& r.false_positives == miss_count(draft, gold)
    &&& r.false_positives_per_hour == rate(
        r.false_positives,
        effective_span(duration_ms, draft, gold),
    )
    &&& r.boundary_errors_ms@ == boundary_offsets(gold, draft)
    &&& r.boundary_errors_ms@.len() == 2 * r.matched
    &&& match (r.twice_median_boundary_error_ms, twice_median(r.boundary_errors_ms@)) {
        (Some(a), Some(b)) => a == b,
        (None, None) => true,
        _ => false,
    }
}

/// Score a draft timeline against a gold one. `duration_ms` normalizes the
/// false-positive count; when it is not positive the span is taken from the
/// intervals themselves. A gold rally is missed when no draft rally overlaps it; a
/// draft rally is a false positive when it overlaps no gold rally; each matched
/// gold rally contributes its offsets from its best match.
pub fn score(draft: &Vec<Interval>, gold: &Vec<Interval>, duration_ms: i64) -> (r: Score)
    requires
        all_near(draft@),
        all_near(gold@),
    ensures
        is_score_of(r, draft@, gold@, duration_ms),
{
    let misses = count_misses(gold, draft);
    let mut errors: Vec<i64> = Vec::new();
    let mut i: usize = 0;
    assert(gold@.take(0) =~= Seq::empty());
    while i < gold.len()
        invariant
            i <= gold@.len(),
            all_near(gold@),
            all_near(draft@),
            errors@ == boundary_offsets(gold@.take(i as int), draft@),
            errors@.len() == 2 * (i - miss_count(gold@.take(i as int), draft@)),
        decreases gold@.len() - i,
    {
        let g: Interval = gold[i];
        proof {
            assert(gold@.take(i + 1).drop_last() =~= gold@.take(i as int));
            assert(gold@.take(i + 1).last() == g);
            assert(near(gold@[i as int]));
        }
        if let Some(d) = best_match(&g, draft) {
            proof {
                let k = choose|k: int| 0 <= k < draft@.len() && draft@[k] == d;
                assert(near(draft@[k]));
            }
            let start: i64 = if g.start_ms < d.start_ms {
                d.start_ms - g.start_ms
            } else {
                g.start_ms - d.start_ms
            };
            let end: i64 = if g.end_ms < d.end_ms {
                d.end_ms - g.end_ms
            } else {
                g.end_ms - d.end_ms
            };
            errors.push(start);
            errors.push(end);
        }
        i += 1;
    }
    assert(gold@.take(i as int) =~= gold@);
    let false_positives = count_misses(draft, gold);
    let span = effective_ms(duration_ms, draft, gold);
    let twice = median(&errors);
    Score {
        gold_count: gold.len(),
        draft_count: draft.len(),
        matched: gold.len() - misses,
        misses,
        false_positives,
        false_positives_per_hour: per_hour(false_positives, span),
        boundary_errors_ms: errors,
        twice_median_boundary_error_ms: twice,
    }
}

/// A perfect draft scores zero on every axis: nothing is missed, nothing is
/// spurious, and every boundary lands exactly. Rallies have a positive length, and
/// none starts before another without ending before it.
pub proof fn perfect_draft_scores_zero(gold: Seq<Interval>)
    requires
        forall|i: int|
            0 <= i < gold.len() ==> (#[trigger] gold[i]).start_ms < gold[i].end_ms,
        forall|i: int, j: int|
            0 <= i < gold.len() && 0 <= j < gold.len() && (#[trigger] gold[i]).start_ms < (
            #[trigger] gold[j]).start_ms ==> gold[i].end_ms < gold[j].end_ms,
    ensures
        miss_count(gold, gold) == 0,
        forall|i: int|
            0 <= i < boundary_offsets(gold, gold).len() ==> #[trigger] boundary_offsets(
                gold,
                gold,
            )[i] == 0,
{
    perfect_prefix(gold, gold.len() as int);
    assert(gold.take(gold.len() as int) =~= gold);
}

/// A rally of the draft is its own best match.
proof fn own_best(gold: Seq<Interval>, k: int)
    requires
        0 <= k < gold.len(),
        forall|i: int|
            0 <= i < gold.len() ==> (#[trigger] gold[i]).start_ms < gold[i].end_ms,
        forall|i: int, j: int|
            0 <= i < gold.len() && 0 <= j < gold.len() && (#[trigger] gold[i]).start_ms < (
            #[trigger] gold[j]).start_ms ==> gold[i].end_ms < gold[j].end_ms,
    ensures
        best_of(gold[k], gold) == Some(gold[k]),
{
    let g = gold[k];
    assert(overlapping(g)(gold[k]));
    assert(is_best(g, gold, g)) by {
        assert forall|i: int|
            0 <= i < gold.len() && overlap(#[trigger] gold[i], g) > 0 implies !covers_better(
            g,
            gold[i],
            g,
        ) by {
            if gold[i].start_ms < gold[k].start_ms {
                assert(gold[i].end_ms < gold[k].end_ms);
            }
        }
    }
    let x = choose|x: Interval| is_best(g, gold, x);
    best_is_unique(g, gold, x, g);
}

/// The first rallies of a perfect draft score zero.
proof fn perfect_prefix(gold: Seq<Interval>, n: int)
    requires
        0 <= n <= gold.len(),
        forall|i: int|
            0 <= i < gold.len() ==> (#[trigger] gold[i]).start_ms < gold[i].end_ms,
        forall|i: int, j: int|
            0 <= i < gold.len() && 0 <= j < gold.len() && (#[trigger] gold[i]).start_ms < (
            #[trigger] gold[j]).start_ms ==> gold[i].end_ms < gold[j].end_ms,
    ensures
        miss_count(gold.take(n), gold) == 0,
        forall|i: int|
            0 <= i < boundary_offsets(gold.take(n), gold).len() ==> #[trigger] boundary_offsets(
                gold.take(n),
                gold,
            )[i] == 0,
    decreases n,
{
    if n > 0 {
        perfect_prefix(gold, n - 1);
        own_best(gold, n - 1);
        assert(gold.take(n).drop_last() =~= gold.take(n - 1));
        assert(gold.take(n).last() == gold[n - 1]);
        let before = boundary_offsets(gold.take(n - 1), gold);
        let after = boundary_offsets(gold.take(n), gold);
        assert(overlapping(gold[n - 1])(gold[n - 1]));
        assert(after == before.push(0).push(0));
        assert forall|i: int| 0 <= i < after.len() implies #[trigger] after[i] == 0 by {
            if i < before.len() {
                assert(after[i] == before[i]);
            }
        }
    }
}

/// Intervals that merely touch do not overlap.
pub proof fn touching_is_no_overlap(a: Interval, b: Interval)
    requires
        a.end_ms <= b.start_ms,
    ensures
        overlap(a, b) == 0,
        overlap(b, a) == 0,
{
}

/// Overlap is symmetric, so a draft rally that covers a gold rally is never a
/// false positive.
pub proof fn overlap_is_symmetric(a: Interval, b: Interval)
    ensures
        overlap(a, b) == overlap(b, a),
{
}

} // verus!
