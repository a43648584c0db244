//! Scoring drafts against hand-corrected timelines.
use voloph::eval::{best_match, effective_ms, median, per_hour, score, Interval, Rate};

/// Intervals from `(start, end)` pairs.
fn ivals(pairs: &[(i64, i64)]) -> Vec<Interval> {
    pairs
        .iter()
        .map(|&(start_ms, end_ms)| Interval { start_ms, end_ms })
        .collect()
}

/// One hour, so that a single false positive reads as one an hour.
const ONE_HOUR_MS: i64 = 3_600_000;

fn hourly(rate: Rate) -> f64 {
    if rate.span_ms <= 0 {
        return 0.0;
    }
    rate.count as f64 * ONE_HOUR_MS as f64 / rate.span_ms as f64
}

fn seconds(twice_ms: Option<i128>) -> Option<f64> {
    twice_ms.map(|t| t as f64 / 2.0 / 1000.0)
}

#[test]
fn a_perfect_draft_scores_zero_on_every_axis() {
    let gold = ivals(&[(1000, 3000), (5000, 8000)]);
    let s = score(&gold, &gold, ONE_HOUR_MS);
    assert_eq!(s.misses, 0);
    assert_eq!(s.false_positives, 0);
    assert_eq!(s.matched, 2);
    assert_eq!(hourly(s.false_positives_per_hour), 0.0);
    assert_eq!(seconds(s.twice_median_boundary_error_ms), Some(0.0));
}

#[test]
fn a_gold_rally_with_no_overlapping_draft_is_a_miss() {
    let gold = ivals(&[(0, 1000), (5000, 6000)]);
    let draft = ivals(&[(0, 1000)]);
    let s = score(&draft, &gold, ONE_HOUR_MS);
    assert_eq!(s.misses, 1);
    assert_eq!(s.matched, 1);
    assert_eq!(s.false_positives, 0);
}

#[test]
fn a_draft_rally_overlapping_no_gold_is_a_false_positive() {
    let gold = ivals(&[(0, 1000)]);
    let draft = ivals(&[(0, 1000), (5000, 6000)]);
    let s = score(&draft, &gold, ONE_HOUR_MS);
    assert_eq!(s.false_positives, 1);
    assert_eq!(s.misses, 0);
    assert_eq!(hourly(s.false_positives_per_hour), 1.0);
}

#[test]
fn false_positives_per_hour_scales_with_duration() {
    let gold = ivals(&[(0, 1000)]);
    let draft = ivals(&[(0, 1000), (5000, 6000), (7000, 8000)]);
    let s = score(&draft, &gold, ONE_HOUR_MS / 2);
    assert_eq!(s.false_positives, 2);
    assert_eq!(hourly(s.false_positives_per_hour), 4.0);
}

#[test]
fn boundary_error_is_the_median_of_start_and_end_offsets() {
    let gold = ivals(&[(1000, 3000)]);
    let draft = ivals(&[(1200, 3100)]);
    let s = score(&draft, &gold, ONE_HOUR_MS);
    assert_eq!(s.boundary_errors_ms, vec![200, 100]);
    assert_eq!(seconds(s.twice_median_boundary_error_ms), Some(0.15));
}

#[test]
fn median_of_an_even_sample_count_averages_the_middle_two() {
    let gold = ivals(&[(1000, 2000), (5000, 6000)]);
    let draft = ivals(&[(1000, 1900), (5200, 6400)]);
    let s = score(&draft, &gold, ONE_HOUR_MS);
    assert_eq!(s.boundary_errors_ms, vec![0, 100, 200, 400]);
    assert_eq!(seconds(s.twice_median_boundary_error_ms), Some(0.15));
}

#[test]
fn a_matched_gold_pairs_with_its_best_overlapping_draft() {
    let gold = ivals(&[(0, 1000)]);
    let draft = ivals(&[(0, 300), (200, 1000)]);
    let s = score(&draft, &gold, ONE_HOUR_MS);
    assert_eq!(s.misses, 0);
    assert_eq!(
        s.false_positives, 0,
        "both drafts overlap the gold, neither is spurious"
    );
    assert_eq!(s.boundary_errors_ms, vec![200, 0]);
}

#[test]
fn touching_edges_do_not_count_as_overlap() {
    let gold = ivals(&[(1000, 2000)]);
    let draft = ivals(&[(0, 1000)]);
    let s = score(&draft, &gold, ONE_HOUR_MS);
    assert_eq!(s.misses, 1);
    assert_eq!(s.false_positives, 1);
    assert_eq!(s.twice_median_boundary_error_ms, None);
}

#[test]
fn one_draft_may_cover_several_gold_rallies_without_becoming_an_fp() {
    let gold = ivals(&[(1000, 2000), (3000, 4000)]);
    let draft = ivals(&[(900, 4200)]);
    let s = score(&draft, &gold, ONE_HOUR_MS);
    assert_eq!(s.misses, 0);
    assert_eq!(s.matched, 2);
    assert_eq!(s.false_positives, 0);
}

#[test]
fn empty_draft_misses_everything_and_has_no_boundary_error() {
    let gold = ivals(&[(0, 1000), (2000, 3000)]);
    let s = score(&vec![], &gold, ONE_HOUR_MS);
    assert_eq!(s.misses, 2);
    assert_eq!(s.matched, 0);
    assert_eq!(s.false_positives, 0);
    assert_eq!(s.twice_median_boundary_error_ms, None);
}

#[test]
fn empty_gold_makes_every_draft_a_false_positive() {
    let draft = ivals(&[(0, 1000), (2000, 3000)]);
    let s = score(&draft, &vec![], ONE_HOUR_MS);
    assert_eq!(s.misses, 0);
    assert_eq!(s.false_positives, 2);
    assert_eq!(s.twice_median_boundary_error_ms, None);
}

#[test]
fn unknown_duration_falls_back_to_the_latest_edge() {
    let gold = ivals(&[(0, 1000)]);
    let draft = ivals(&[(0, 1000), (5000, 6000)]);
    let s = score(&draft, &gold, 0);
    assert_eq!(s.false_positives, 1);
    let rate = hourly(s.false_positives_per_hour);
    assert!((rate - 600.0).abs() < 1e-9, "{s:?}");
}

#[test]
fn the_best_match_does_not_depend_on_the_order_of_drafts() {
    let gold = Interval {
        start_ms: 0,
        end_ms: 1000,
    };
    let a = best_match(&gold, &ivals(&[(0, 500), (500, 1000), (900, 950)]));
    let b = best_match(&gold, &ivals(&[(900, 950), (500, 1000), (0, 500)]));
    assert_eq!(a, b);
    assert_eq!(a, ivals(&[(0, 500)]).pop());
    assert_eq!(best_match(&gold, &vec![]), None);
}

#[test]
fn medians_rates_and_spans() {
    assert_eq!(median(&vec![]), None);
    assert_eq!(median(&vec![7]), Some(14));
    assert_eq!(median(&vec![9, 1, 4]), Some(8));
    assert_eq!(median(&vec![4, 1]), Some(5));
    assert_eq!(
        per_hour(3, 1000),
        Rate {
            count: 3,
            span_ms: 1000
        }
    );
    assert_eq!(effective_ms(10, &vec![], &ivals(&[(0, 99)])), 10);
    assert_eq!(effective_ms(0, &ivals(&[(0, 7)]), &ivals(&[(0, 99)])), 99);
}

#[test]
fn the_order_of_a_draft_does_not_count_and_roles_swap() {
    let gold = ivals(&[(0, 1000), (2000, 3000), (9000, 9500)]);
    let draft = ivals(&[(100, 900), (150, 900), (2500, 3500), (5000, 6000)]);
    let mut turned = draft.clone();
    turned.reverse();
    let a = score(&draft, &gold, ONE_HOUR_MS);
    let b = score(&turned, &gold, ONE_HOUR_MS);
    assert_eq!(a, b);
    let swapped = score(&gold, &draft, ONE_HOUR_MS);
    assert_eq!((a.misses, a.false_positives), (1, 1));
    assert_eq!((swapped.misses, swapped.false_positives), (1, 1));
    assert_eq!((swapped.gold_count, swapped.draft_count), (4, 3));
}
