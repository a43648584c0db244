//! Scores: the order of a draft does not count, and misses and false positives are
//! the same thing seen from either side.
use vstd::prelude::*;

use crate::eval::{
    all_near, ascending_order, best_exists, best_match_ignores_order, best_of, boundary_offsets,
    effective_span, is_best, is_score_of, latest_end, miss_count, near, overlap, overlapping, rate,
    twice_median, Interval, Score,
};
use crate::table::{any, is_order, sort_by, sort_by_len, sort_by_permutes, sort_by_sorted};

verus! {

/// Whether one rally is missed by a draft, as a count.
spec fn missed_once(x: Interval, draft: Seq<Interval>) -> nat {
    if any(draft, overlapping(x)) {
        0
    } else {
        1
    }
}

/// Taking one rally out of those counted.
proof fn miss_count_without(s: Seq<Interval>, draft: Seq<Interval>, k: int)
    requires
        0 <= k < s.len(),
    ensures
        miss_count(s, draft) == miss_count(s.remove(k), draft) + missed_once(s[k], draft),
    decreases s.len(),
{
    if k < s.len() - 1 {
        miss_count_without(s.drop_last(), draft, k);
        assert(s.remove(k).drop_last() =~= s.drop_last().remove(k));
        assert(s.remove(k).last() == s.last());
    } else {
        assert(s.remove(k) =~= s.drop_last());
    }
}

/// The count of misses does not depend on the order of the rallies counted.
proof fn miss_count_of_same(a: Seq<Interval>, b: Seq<Interval>, draft: Seq<Interval>)
    requires
        a.to_multiset() == b.to_multiset(),
    ensures
        miss_count(a, draft) == miss_count(b, draft),
    decreases a.len(),
{
    broadcast use vstd::seq_lib::group_to_multiset_ensures;

    assert(a.len() == a.to_multiset().len());
    assert(b.len() == b.to_multiset().len());
    if a.len() > 0 {
        let x = a.last();
        assert(a.contains(a[a.len() - 1]));
        assert(a.to_multiset().count(x) > 0);
        assert(b.to_multiset().count(x) > 0);
        assert(b.contains(x));
        let k = choose|k: int| 0 <= k < b.len() && b[k] == x;
        miss_count_without(a, draft, a.len() - 1);
        miss_count_without(b, draft, k);
        assert(a.remove(a.len() - 1).to_multiset() == a.to_multiset().remove(x));
        assert(b.remove(k).to_multiset() == b.to_multiset().remove(x));
        miss_count_of_same(a.remove(a.len() - 1), b.remove(k), draft);
    }
}

/// What a rally is matched with does not depend on the order of the draft.
proof fn offsets_of_same(gold: Seq<Interval>, a: Seq<Interval>, b: Seq<Interval>)
    requires
        forall|d: Interval| a.contains(d) <==> b.contains(d),
    ensures
        boundary_offsets(gold, a) == boundary_offsets(gold, b),
        miss_count(gold, a) == miss_count(gold, b),
    decreases gold.len(),
{
    if gold.len() > 0 {
        offsets_of_same(gold.drop_last(), a, b);
        best_match_ignores_order(gold.last(), a, b);
        assert(any(a, overlapping(gold.last())) == (best_of(gold.last(), a) is Some));
        assert(any(b, overlapping(gold.last())) == (best_of(gold.last(), b) is Some));
    }
}

/// The latest end is that of an element, and none ends later.
proof fn latest_is_greatest(s: Seq<Interval>)
    ensures
        latest_end(s) is None <==> s.len() == 0,
        latest_end(s) matches Some(e) ==> {
            &&& exists|i: int| 0 <= i < s.len() && (#[trigger] s[i]).end_ms == e
            &&& forall|i: int| 0 <= i < s.len() ==> (#[trigger] s[i]).end_ms <= e
        },
    decreases s.len(),
{
    if s.len() > 0 {
        let d = s.drop_last();
        latest_is_greatest(d);
        assert(s[s.len() - 1].end_ms <= latest_end(s)->0);
        assert forall|i: int| 0 <= i < s.len() implies (#[trigger] s[i]).end_ms
            <= latest_end(s)->0 by {
            if i < d.len() {
                assert(d[i] == s[i]);
            }
        }
        if latest_end(s)->0 == s.last().end_ms {
            assert(s[s.len() - 1].end_ms == latest_end(s)->0);
        } else {
            let i = choose|i: int| 0 <= i < d.len() && (#[trigger] d[i]).end_ms == latest_end(d)->0;
            assert(s[i].end_ms == latest_end(s)->0);
        }
    }
}

/// The latest end does not depend on the order.
proof fn latest_of_same(s: Seq<Interval>, t: Seq<Interval>)
    requires
        forall|d: Interval| s.contains(d) <==> t.contains(d),
    ensures
        latest_end(s) == latest_end(t),
{
    latest_is_greatest(s);
    latest_is_greatest(t);
    if s.len() > 0 {
        assert(s.contains(s[0]));
        let i = choose|i: int| 0 <= i < s.len() && (#[trigger] s[i]).end_ms == latest_end(s)->0;
        assert(s.contains(s[i]));
        assert(t.contains(s[i]));
    }
    if t.len() > 0 {
        assert(t.contains(t[0]));
        let i = choose|i: int| 0 <= i < t.len() && (#[trigger] t[i]).end_ms == latest_end(t)->0;
        assert(t.contains(t[i]));
        assert(s.contains(t[i]));
    }
}

/// A score does not depend on the order in which the draft lists its rallies.
pub proof fn scores_ignore_the_order_of_the_draft(
    r: Score,
    q: Score,
    draft: Seq<Interval>,
    other: Seq<Interval>,
    gold: Seq<Interval>,
    duration_ms: i64,
)
    requires
        draft.to_multiset() == other.to_multiset(),
        is_score_of(r, draft, gold, duration_ms),
        is_score_of(q, other, gold, duration_ms),
    ensures
        r.gold_count == q.gold_count,
        r.draft_count == q.draft_count,
        r.matched == q.matched,
        r.misses == q.misses,
        r.false_positives == q.false_positives,
        r.false_positives_per_hour == q.false_positives_per_hour,
        r.boundary_errors_ms@ == q.boundary_errors_ms@,
        r.twice_median_boundary_error_ms == q.twice_median_boundary_error_ms,
{
    broadcast use vstd::seq_lib::group_to_multiset_ensures;

    assert(draft.len() == draft.to_multiset().len());
    assert(other.len() == other.to_multiset().len());
    assert forall|d: Interval| draft.contains(d) <==> other.contains(d) by {
        assert(draft.contains(d) <==> draft.to_multiset().count(d) > 0);
        assert(other.contains(d) <==> other.to_multiset().count(d) > 0);
    }
    miss_count_of_same(draft, other, gold);
    offsets_of_same(gold, draft, other);
    let s = draft + gold;
    let t = other + gold;
    assert forall|d: Interval| s.contains(d) <==> t.contains(d) by {
        in_either(draft, gold, d);
        in_either(other, gold, d);
    }
    latest_of_same(s, t);
    assert(effective_span(duration_ms, draft, gold) == effective_span(duration_ms, other, gold));
    assert(twice_median(r.boundary_errors_ms@) == twice_median(q.boundary_errors_ms@));
}

/// What two sequences together hold.
proof fn in_either(a: Seq<Interval>, b: Seq<Interval>, d: Interval)
    ensures
        (a + b).contains(d) <==> a.contains(d) || b.contains(d),
{
    let s = a + b;
    if s.contains(d) {
        let i = choose|i: int| 0 <= i < s.len() && s[i] == d;
        if i < a.len() {
            assert(a[i] == d);
        } else {
            assert(b[i - a.len()] == d);
        }
    }
    if a.contains(d) {
        let i = choose|i: int| 0 <= i < a.len() && a[i] == d;
        assert(s[i] == d);
    }
    if b.contains(d) {
        let i = choose|i: int| 0 <= i < b.len() && b[i] == d;
        assert(s[a.len() + i] == d);
    }
}

/// Whether a millisecond lies in an interval.
pub open spec fn within(i: Interval, t: int) -> bool {
    i.start_ms <= t < i.end_ms
}

/// The milliseconds that two intervals share.
pub open spec fn shared_time(a: Interval, b: Interval) -> Set<int> {
    Set::new(|t: int| within(a, t) && within(b, t))
}

/// Overlap is the number of milliseconds that two intervals share.
pub proof fn overlap_counts_shared_time(a: Interval, b: Interval)
    ensures
        shared_time(a, b).finite(),
        overlap(a, b) == shared_time(a, b).len(),
        overlap(a, b) > 0 <==> share_time(a, b),
{
    let lo = if a.start_ms > b.start_ms {
        a.start_ms as int
    } else {
        b.start_ms as int
    };
    let hi = if a.end_ms < b.end_ms {
        a.end_ms as int
    } else {
        b.end_ms as int
    };
    if lo < hi {
        vstd::set_lib::lemma_int_range(lo, hi);
        assert(shared_time(a, b) =~= vstd::set_lib::set_int_range(lo, hi));
        assert(within(a, lo) && within(b, lo));
    } else {
        assert(shared_time(a, b) =~= Set::empty());
    }
}

/// Whether two intervals share any time.
pub open spec fn share_time(a: Interval, b: Interval) -> bool {
    exists|t: int| #[trigger] within(a, t) && #[trigger] within(b, t)
}

/// Whether `e` is the distance of two moments.
pub open spec fn apart(e: i64, a: i64, b: i64) -> bool {
    e >= 0 && (e == a - b || e == b - a)
}

/// Whether no rally of a draft shares more time with `g` than `d`, and none that shares
/// as much starts earlier, or ends earlier at the same start.
pub open spec fn covers_most(draft: Seq<Interval>, g: Interval, d: Interval) -> bool {
    forall|i: int|
        0 <= i < draft.len() ==> {
            let x = #[trigger] draft[i];
            &&& shared_time(x, g).len() <= shared_time(d, g).len()
            &&& shared_time(x, g).len() == shared_time(d, g).len() && share_time(x, g)
                ==> d.start_ms < x.start_ms || d.start_ms == x.start_ms && d.end_ms <= x.end_ms
        }
}

/// One more gold rally that shares no time with any draft rally is missed and adds no
/// boundary error. One that does is matched with the draft rally that shares the most
/// time with it, and adds how far the two starts and the two ends lie apart.
pub proof fn one_more_rally_is_missed_or_matched(
    gold: Seq<Interval>,
    g: Interval,
    draft: Seq<Interval>,
)
    requires
        all_near(draft),
        near(g),
    ensures
        miss_count(Seq::empty(), draft) == 0,
        boundary_offsets(Seq::empty(), draft).len() == 0,
        ({
            let before = boundary_offsets(gold, draft);
            let after = boundary_offsets(gold.push(g), draft);
            if is_met(draft, g) {
                &&& miss_count(gold.push(g), draft) == miss_count(gold, draft)
                &&& after.len() == before.len() + 2
                &&& after.take(before.len() as int) == before
                &&& exists|d: Interval|
                    {
                        &&& draft.contains(d)
                        &&& share_time(d, g)
                        &&& #[trigger] covers_most(draft, g, d)
                        &&& apart(after[before.len() as int], g.start_ms, d.start_ms)
                        &&& apart(after[before.len() as int + 1], g.end_ms, d.end_ms)
                    }
            } else {
                &&& miss_count(gold.push(g), draft) == miss_count(gold, draft) + 1
                &&& after == before
            }
        }),
{
    assert(gold.push(g).drop_last() =~= gold);
    let before = boundary_offsets(gold, draft);
    let after = boundary_offsets(gold.push(g), draft);
    assert forall|i: int| 0 <= i < draft.len() implies overlapping(g)(#[trigger] draft[i])
        == share_time(draft[i], g) by {
        overlap_counts_shared_time(draft[i], g);
    }
    if exists|k: int| 0 <= k < draft.len() && share_time(#[trigger] draft[k], g) {
        let k = choose|k: int| 0 <= k < draft.len() && share_time(#[trigger] draft[k], g);
        assert(overlapping(g)(draft[k]));
        best_exists(g, draft);
        let d = best_of(g, draft)->0;
        assert(is_best(g, draft, d));
        overlap_counts_shared_time(d, g);
        assert forall|i: int| 0 <= i < draft.len() implies {
            let x = #[trigger] draft[i];
            &&& shared_time(x, g).len() <= shared_time(d, g).len()
            &&& shared_time(x, g).len() == shared_time(d, g).len() && share_time(x, g)
                ==> d.start_ms < x.start_ms || d.start_ms == x.start_ms && d.end_ms <= x.end_ms
        } by {
            overlap_counts_shared_time(draft[i], g);
        }
        assert(covers_most(draft, g, d));
        let j = choose|j: int| 0 <= j < draft.len() && draft[j] == d;
        assert(near(draft[j]));
        assert(after.take(before.len() as int) =~= before);
    } else {
        assert(!any(draft, overlapping(g)));
    }
}

/// One draft rally against one gold rally that it shares time with has two boundary
/// errors: how far the starts and how far the ends lie apart. Which of the two is the
/// draft does not count.
pub proof fn one_rally_against_one(g: Interval, d: Interval)
    requires
        near(g),
        near(d),
        share_time(d, g),
    ensures
        ({
            let e = boundary_offsets(seq![g], seq![d]);
            &&& e.len() == 2
            &&& apart(e[0], g.start_ms, d.start_ms)
            &&& apart(e[1], g.end_ms, d.end_ms)
            &&& boundary_offsets(seq![d], seq![g]) == e
        }),
{
    let none = Seq::<Interval>::empty();
    let t = choose|t: int| #[trigger] within(d, t) && #[trigger] within(g, t);
    assert(within(g, t) && within(d, t));
    assert(share_time(g, d));
    assert(seq![g] =~= none.push(g));
    assert(seq![d] =~= none.push(d));
    assert(share_time(seq![d][0], g));
    assert(share_time(seq![g][0], d));
    one_more_rally_is_missed_or_matched(none, g, seq![d]);
    one_more_rally_is_missed_or_matched(none, d, seq![g]);
    assert(boundary_offsets(seq![d], seq![g]) =~= boundary_offsets(seq![g], seq![d]));
}

/// Whether a gold rally is not missed.
pub open spec fn is_met(draft: Seq<Interval>, g: Interval) -> bool {
    exists|k: int| 0 <= k < draft.len() && share_time(#[trigger] draft[k], g)
}

/// Whether every rally that is not missed is in the draft with its very bounds, and
/// covered best by that one.
pub open spec fn bounds_agree(gold: Seq<Interval>, draft: Seq<Interval>) -> bool {
    forall|i: int|
        0 <= i < gold.len() && is_met(draft, #[trigger] gold[i]) ==> draft.contains(gold[i])
            && covers_most(draft, gold[i], gold[i])
}

/// Whether all boundary errors of a draft are zero.
pub open spec fn scores_exact(gold: Seq<Interval>, draft: Seq<Interval>) -> bool {
    forall|i: int|
        0 <= i < boundary_offsets(gold, draft).len() ==> #[trigger] boundary_offsets(
            gold,
            draft,
        )[i] == 0
}

/// All boundary errors are zero exactly where every gold rally that is not missed has
/// the bounds of the draft rally that covers it best.
pub proof fn exact_scores_are_exact(gold: Seq<Interval>, draft: Seq<Interval>)
    requires
        all_near(gold),
        all_near(draft),
    ensures
        scores_exact(gold, draft) <==> bounds_agree(gold, draft),
    decreases gold.len(),
{
    if gold.len() > 0 {
        let less = gold.drop_last();
        let g = gold.last();
        assert(gold =~= less.push(g));
        assert(gold[gold.len() - 1] == g);
        assert(near(gold[gold.len() - 1]));
        one_more_rally_is_missed_or_matched(less, g, draft);
        let before = boundary_offsets(less, draft);
        let after = boundary_offsets(gold, draft);
        assert(all_near(less)) by {
            assert forall|i: int| 0 <= i < less.len() implies near(#[trigger] less[i]) by {
                assert(near(gold[i]));
            }
        }
        exact_scores_are_exact(less, draft);
        let n = before.len() as int;
        if is_met(draft, g) {
            let d = choose|d: Interval|
                {
                    &&& draft.contains(d)
                    &&& share_time(d, g)
                    &&& #[trigger] covers_most(draft, g, d)
                    &&& apart(after[n], g.start_ms, d.start_ms)
                    &&& apart(after[n + 1], g.end_ms, d.end_ms)
                };
            assert forall|i: int| 0 <= i < n implies #[trigger] after[i] == before[i] by {
                assert(after.take(n)[i] == after[i]);
            }
            if draft.contains(g) && covers_most(draft, g, g) {
                let a = choose|a: int| 0 <= a < draft.len() && draft[a] == d;
                let b = choose|b: int| 0 <= b < draft.len() && draft[b] == g;
                let t = choose|t: int| #[trigger] within(d, t) && #[trigger] within(g, t);
                assert(within(g, t));
                assert(share_time(draft[b], g));
                assert(share_time(draft[a], g));
                assert(d == g);
            }
            assert(after[n] == 0 && after[n + 1] == 0 <==> d == g);
            if scores_exact(gold, draft) {
                assert(after[n] == 0 && after[n + 1] == 0);
                assert(scores_exact(less, draft)) by {
                    assert forall|i: int| 0 <= i < before.len() implies #[trigger] before[i]
                        == 0 by {
                        assert(after[i] == 0);
                    }
                }
                assert forall|i: int| 0 <= i < gold.len() && is_met(
                    draft,
                    #[trigger] gold[i],
                ) implies draft.contains(gold[i]) && covers_most(draft, gold[i], gold[i]) by {
                    if i < less.len() {
                        assert(less[i] == gold[i]);
                    }
                }
            }
        }
        if !is_met(draft, g) && scores_exact(gold, draft) {
            assert forall|i: int| 0 <= i < gold.len() && is_met(
                draft,
                #[trigger] gold[i],
            ) implies draft.contains(gold[i]) && covers_most(draft, gold[i], gold[i]) by {
                if i < less.len() {
                    assert(less[i] == gold[i]);
                }
            }
        }
        if bounds_agree(gold, draft) {
            assert(bounds_agree(less, draft)) by {
                assert forall|i: int| 0 <= i < less.len() && is_met(
                    draft,
                    #[trigger] less[i],
                ) implies draft.contains(less[i]) && covers_most(draft, less[i], less[i]) by {
                    assert(less[i] == gold[i]);
                }
            }
            assert forall|i: int| 0 <= i < after.len() implies #[trigger] after[i] == 0 by {
                if i < n {
                    assert(before[i] == 0);
                }
            }
        }
    }
}

/// Twice the median is the sum of the two middle values of the same values in ascending
/// order, which are one value where their number is odd.
pub proof fn medians_are_in_the_middle(values: Seq<i64>)
    ensures
        values.len() == 0 <==> twice_median(values) is None,
        values.len() > 0 ==> exists|s: Seq<i64>|
            {
                &&& #[trigger] s.to_multiset() == values.to_multiset()
                &&& s.len() == values.len()
                &&& forall|i: int, j: int| 0 <= i < j < s.len() ==> s[i] <= s[j]
                &&& twice_median(values) == Some(
                    s[(s.len() - 1) / 2] + s[s.len() as int / 2],
                )
            },
{
    let s = sort_by(values, ascending_order());
    sort_by_len(values, ascending_order());
    sort_by_permutes(values, ascending_order());
    assert(is_order(ascending_order()));
    sort_by_sorted(values, ascending_order());
    assert forall|i: int, j: int| 0 <= i < j < s.len() implies s[i] <= s[j] by {
        assert(!ascending_order()(s[j], s[i]));
    }
}

/// A rate stands for its count over its span; without a positive span there is none.
pub proof fn rates_are_counts_over_spans(count: usize, span_ms: i64)
    ensures
        rate(count, span_ms).span_ms > 0,
        span_ms > 0 ==> rate(count, span_ms).count * span_ms == count * rate(
            count,
            span_ms,
        ).span_ms,
        span_ms <= 0 ==> rate(count, span_ms).count == 0,
{
}

/// A recording is as long as it is known to be, else up to the latest end of any rally
/// of either timeline.
pub proof fn unknown_lengths_reach_the_latest_end(
    duration_ms: i64,
    draft: Seq<Interval>,
    gold: Seq<Interval>,
)
    ensures
        ({
            let span = effective_span(duration_ms, draft, gold);
            &&& duration_ms > 0 ==> span == duration_ms
            &&& duration_ms <= 0 && draft.len() + gold.len() == 0 ==> span == 0
            &&& duration_ms <= 0 && draft.len() + gold.len() > 0 ==> {
                &&& forall|i: int| 0 <= i < draft.len() ==> (#[trigger] draft[i]).end_ms <= span
                &&& forall|i: int| 0 <= i < gold.len() ==> (#[trigger] gold[i]).end_ms <= span
                &&& (exists|i: int| 0 <= i < draft.len() && (#[trigger] draft[i]).end_ms == span)
                    || (exists|i: int| 0 <= i < gold.len() && (#[trigger] gold[i]).end_ms == span)
            }
        }),
{
    let all = draft + gold;
    let span = effective_span(duration_ms, draft, gold);
    latest_is_greatest(all);
    if duration_ms <= 0 && all.len() > 0 {
        assert forall|i: int| 0 <= i < draft.len() implies (#[trigger] draft[i]).end_ms
            <= span by {
            assert(all[i] == draft[i]);
        }
        assert forall|i: int| 0 <= i < gold.len() implies (#[trigger] gold[i]).end_ms <= span by {
            assert(all[draft.len() + i] == gold[i]);
        }
        let i = choose|i: int| 0 <= i < all.len() && (#[trigger] all[i]).end_ms == span;
        if i < draft.len() {
            assert(draft[i].end_ms == span);
        } else {
            assert(gold[i - draft.len()].end_ms == span);
        }
    }
}

/// Scoring with the roles swapped swaps misses and false positives.
pub proof fn swapped_roles_swap_misses(
    r: Score,
    q: Score,
    draft: Seq<Interval>,
    gold: Seq<Interval>,
    duration_ms: i64,
    other_ms: i64,
)
    requires
        is_score_of(r, draft, gold, duration_ms),
        is_score_of(q, gold, draft, other_ms),
    ensures
        r.misses == q.false_positives,
        r.false_positives == q.misses,
        r.gold_count == q.draft_count,
        r.draft_count == q.gold_count,
{
}

} // verus!
