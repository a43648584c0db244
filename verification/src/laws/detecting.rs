//! Detection at a score floor: boxes below a floor never touch what is kept of those
//! that clear it.
use vstd::prelude::*;

use crate::detect::{by_score, kept_of, score_order, scored, square, suppressed_by, Scored};
use crate::table::{
    any, filter_elements, filter_keeps_all, is_order, is_sorted, sort_by_elements, sort_by_filtered,
    sort_by_mapped, sort_by_sorted,
};

verus! {

/// The boxes with at least a score.
pub open spec fn at_least(floor: u32) -> spec_fn(Scored) -> bool {
    |s: Scored| s.score >= floor
}

/// Every kept box was among those taken.
proof fn kept_are_taken(order: Seq<Scored>, overlaps: Seq<Seq<bool>>)
    ensures
        forall|i: int|
            0 <= i < kept_of(order, overlaps).len() ==> order.contains(
                #[trigger] kept_of(order, overlaps)[i],
            ),
    decreases order.len(),
{
    if order.len() > 0 {
        let d = order.drop_last();
        kept_are_taken(d, overlaps);
        let kept = kept_of(order, overlaps);
        assert forall|i: int| 0 <= i < kept.len() implies order.contains(#[trigger] kept[i]) by {
            let before = kept_of(d, overlaps);
            if i < before.len() {
                assert(d.contains(before[i]));
                let k = choose|k: int| 0 <= k < d.len() && d[k] == before[i];
                assert(order[k] == kept[i]);
            } else {
                assert(order[order.len() - 1] == kept[i]);
            }
        }
    }
}

/// Of boxes in descending order of score, those kept that clear a floor are exactly
/// those kept when only boxes that clear it are taken.
proof fn cleared_are_kept_alike(
    order: Seq<Scored>,
    overlaps: Seq<Seq<bool>>,
    floor: u32,
)
    requires
        is_sorted(order, by_score()),
    ensures
        kept_of(order, overlaps).filter(at_least(floor)) == kept_of(
            order.filter(at_least(floor)),
            overlaps,
        ),
    decreases order.len(),
{
    reveal(Seq::filter);
    let p = at_least(floor);
    if order.len() > 0 {
        let d = order.drop_last();
        let l = order.last();
        assert forall|i: int, j: int| 0 <= i < j < d.len() implies !by_score()(
            #[trigger] d[j],
            #[trigger] d[i],
        ) by {
            assert(order[j] == d[j] && order[i] == d[i]);
        }
        cleared_are_kept_alike(d, overlaps, floor);
        let kept = kept_of(d, overlaps);
        if p(l) {
            assert forall|i: int| 0 <= i < kept.len() implies p(#[trigger] kept[i]) by {
                kept_are_taken(d, overlaps);
                let k = choose|k: int| 0 <= k < d.len() && d[k] == kept[i];
                assert(order[k] == d[k]);
                assert(!by_score()(order[order.len() - 1], order[k]));
            }
            filter_keeps_all(kept, p);
            assert(order.filter(p) == d.filter(p).push(l));
            assert(d.filter(p).push(l).drop_last() =~= d.filter(p));
            if !any(kept, suppressed_by(overlaps, l)) {
                assert(kept.push(l).drop_last() =~= kept);
            }
        } else {
            assert(order.filter(p) == d.filter(p));
            if !any(kept, suppressed_by(overlaps, l)) {
                assert(kept.push(l).drop_last() =~= kept);
                assert(kept.push(l).last() == l);
            }
        }
    }
}

/// The boxes come out of the ordering in descending order of score.
pub proof fn score_order_descends(scores: Seq<u32>)
    ensures
        is_sorted(score_order(scores), by_score()),
{
    assert(is_order(by_score()));
    sort_by_sorted(scored(scores), by_score());
}

/// The boxes that clear a floor, in the order they had.
pub open spec fn cleared(scores: Seq<u32>, floor: u32) -> Seq<Scored> {
    scored(scores).filter(at_least(floor))
}

/// The scores of the boxes that clear a floor.
pub open spec fn cleared_scores(scores: Seq<u32>, floor: u32) -> Seq<u32> {
    Seq::new(cleared(scores, floor).len(), |i: int| cleared(scores, floor)[i].score)
}

/// The overlaps of every two of the boxes that clear a floor.
pub open spec fn cleared_overlaps(
    scores: Seq<u32>,
    overlaps: Seq<Seq<bool>>,
    floor: u32,
) -> Seq<Seq<bool>> {
    let c = cleared(scores, floor);
    Seq::new(
        c.len(),
        |i: int|
            Seq::new(
                c.len(),
                |j: int| overlaps[c[i].position as int][c[j].position as int],
            ),
    )
}

/// A box by its position among all boxes, from its position among those that clear a
/// floor.
pub open spec fn placed_back(scores: Seq<u32>, floor: u32) -> spec_fn(Scored) -> Scored {
    |s: Scored|
        Scored { position: cleared(scores, floor)[s.position as int].position, score: s.score }
}

/// What is kept of boxes is kept of them under other positions, where their overlaps
/// are told alike.
proof fn kept_of_placed(
    order: Seq<Scored>,
    overlaps: Seq<Seq<bool>>,
    f: spec_fn(Scored) -> Scored,
    wide: Seq<Seq<bool>>,
)
    requires
        forall|a: Scored, b: Scored|
            order.contains(a) && order.contains(b) ==> #[trigger] suppressed_by(overlaps, b)(a)
                == suppressed_by(wide, f(b))(f(a)),
    ensures
        kept_of(order, overlaps).map_values(f) == kept_of(order.map_values(f), wide),
    decreases order.len(),
{
    if order.len() > 0 {
        let d = order.drop_last();
        let l = order.last();
        assert(order[order.len() - 1] == l);
        assert forall|a: Scored| d.contains(a) implies order.contains(a) by {
            let k = choose|k: int| 0 <= k < d.len() && d[k] == a;
            assert(order[k] == a);
        }
        kept_of_placed(d, overlaps, f, wide);
        assert(order.map_values(f).drop_last() =~= d.map_values(f));
        assert(order.map_values(f).last() == f(l));
        let kept = kept_of(d, overlaps);
        let image = kept.map_values(f);
        let p = suppressed_by(overlaps, l);
        let q = suppressed_by(wide, f(l));
        kept_are_taken(d, overlaps);
        assert forall|i: int| 0 <= i < kept.len() implies p(#[trigger] kept[i]) == q(image[i]) by {
            assert(d.contains(kept[i]));
            assert(suppressed_by(overlaps, l)(kept[i]) == suppressed_by(wide, f(l))(f(kept[i])));
        }
        if any(kept, p) {
            let i = choose|i: int| 0 <= i < kept.len() && p(#[trigger] kept[i]);
            assert(q(image[i]));
        }
        if any(image, q) {
            let i = choose|i: int| 0 <= i < image.len() && q(#[trigger] image[i]);
            assert(p(kept[i]));
        }
        assert(kept.push(l).map_values(f) =~= image.push(f(l)));
    } else {
        assert(kept_of(order, overlaps).map_values(f) =~= kept_of(order.map_values(f), wide));
    }
}

/// What is kept of boxes in an order is in that order.
proof fn kept_are_ordered(order: Seq<Scored>, overlaps: Seq<Seq<bool>>)
    requires
        is_sorted(order, by_score()),
    ensures
        is_sorted(kept_of(order, overlaps), by_score()),
    decreases order.len(),
{
    if order.len() > 0 {
        let d = order.drop_last();
        assert forall|i: int, j: int| 0 <= i < j < d.len() implies !by_score()(
            #[trigger] d[j],
            #[trigger] d[i],
        ) by {
            assert(order[j] == d[j] && order[i] == d[i]);
        }
        kept_are_ordered(d, overlaps);
        kept_are_taken(d, overlaps);
        let kept = kept_of(d, overlaps);
        assert forall|i: int| 0 <= i < kept.len() implies !by_score()(
            order.last(),
            #[trigger] kept[i],
        ) by {
            assert(d.contains(kept[i]));
            let k = choose|k: int| 0 <= k < d.len() && d[k] == kept[i];
            assert(order[k] == kept[i]);
            assert(!by_score()(order[order.len() - 1], order[k]));
        }
    }
}

/// Of boxes in descending order of score, those that clear a floor come first.
proof fn cleared_come_first(s: Seq<Scored>, floor: u32)
    requires
        is_sorted(s, by_score()),
    ensures
        s.filter(at_least(floor)).len() <= s.len(),
        s.take(s.filter(at_least(floor)).len() as int) == s.filter(at_least(floor)),
    decreases s.len(),
{
    reveal(Seq::filter);
    let p = at_least(floor);
    if s.len() > 0 {
        let d = s.drop_last();
        assert forall|i: int, j: int| 0 <= i < j < d.len() implies !by_score()(
            #[trigger] d[j],
            #[trigger] d[i],
        ) by {
            assert(s[j] == d[j] && s[i] == d[i]);
        }
        cleared_come_first(d, floor);
        if p(s.last()) {
            assert forall|i: int| 0 <= i < s.len() implies p(#[trigger] s[i]) by {
                assert(s.last() == s[s.len() - 1]);
                if i < s.len() - 1 {
                    assert(!by_score()(s[s.len() - 1], s[i]));
                }
            }
            filter_keeps_all(s, p);
            assert(s.take(s.len() as int) =~= s);
        } else {
            let n = d.filter(p).len() as int;
            assert(s.take(n) =~= d.take(n));
        }
    } else {
        assert(s.take(0) =~= s.filter(p));
    }
}

/// Lowering the score floor only ever appends boxes. Suppression among the boxes that
/// clear a floor alone, renumbered, keeps the same boxes in the same order as
/// suppression among all of them keeps that clear it; and those come first there.
pub proof fn lower_floor_only_appends(scores: Seq<u32>, overlaps: Seq<Seq<bool>>, floor: u32)
    requires
        scores.len() <= usize::MAX,
        square(overlaps, scores.len()),
    ensures
        ({
            let all = kept_of(score_order(scores), overlaps);
            let few = kept_of(
                score_order(cleared_scores(scores, floor)),
                cleared_overlaps(scores, overlaps, floor),
            ).map_values(placed_back(scores, floor));
            &&& few == all.filter(at_least(floor))
            &&& few.len() <= all.len()
            &&& all.take(few.len() as int) == few
        }),
{
    let p = at_least(floor);
    let c = cleared(scores, floor);
    let cs = cleared_scores(scores, floor);
    let co = cleared_overlaps(scores, overlaps, floor);
    let f = placed_back(scores, floor);
    let order = score_order(scores);
    filter_elements(scored(scores), p);
    assert forall|i: int| 0 <= i < c.len() implies (#[trigger] c[i]).position < scores.len() by {
        assert(scored(scores).contains(c[i]));
    }
    assert(scored(cs).map_values(f) =~= c) by {
        assert forall|i: int| 0 <= i < c.len() implies #[trigger] f(scored(cs)[i]) == c[i] by {}
    }
    sort_by_mapped(scored(cs), f, by_score(), by_score());
    score_order_descends(scores);
    assert(is_order(by_score()));
    sort_by_filtered(scored(scores), by_score(), p);
    assert(score_order(cs).map_values(f) == order.filter(p));
    sort_by_elements(scored(cs), by_score());
    assert forall|a: Scored, b: Scored|
        score_order(cs).contains(a) && score_order(cs).contains(
            b,
        ) implies #[trigger] suppressed_by(co, b)(a) == suppressed_by(overlaps, f(b))(f(a)) by {
        assert(scored(cs).contains(a) && scored(cs).contains(b));
        assert(a.position < c.len() && b.position < c.len());
    }
    kept_of_placed(score_order(cs), co, f, overlaps);
    cleared_are_kept_alike(order, overlaps, floor);
    kept_are_ordered(order, overlaps);
    cleared_come_first(kept_of(order, overlaps), floor);
}

/// What is kept are boxes of which none overlaps an earlier one too much, and whatever is
/// dropped overlaps a kept one of no lower score too much. They come in descending order
/// of score.
pub proof fn suppression_keeps_the_best_apart(scores: Seq<u32>, overlaps: Seq<Seq<bool>>)
    requires
        scores.len() <= usize::MAX,
        square(overlaps, scores.len()),
    ensures
        ({
            let kept = kept_of(score_order(scores), overlaps);
            &&& forall|i: int|
                0 <= i < kept.len() ==> (#[trigger] kept[i]).position < scores.len()
                    && kept[i].score == scores[kept[i].position as int]
            &&& forall|i: int, j: int|
                0 <= i < j < kept.len() ==> (#[trigger] kept[i]).score >= (
                #[trigger] kept[j]).score
                    && !overlaps[kept[i].position as int][kept[j].position as int]
            &&& forall|b: int|
                0 <= b < scores.len() ==> kept_or_suppressed(kept, #[trigger] scores[b], overlaps, b)
        }),
{
    let order = score_order(scores);
    let kept = kept_of(order, overlaps);
    let all = scored(scores);
    score_order_descends(scores);
    sort_by_elements(all, by_score());
    kept_are_taken(order, overlaps);
    kept_are_ordered(order, overlaps);
    kept_are_apart(order, overlaps);
    dropped_are_suppressed(order, overlaps);
    assert forall|i: int| 0 <= i < kept.len() implies (#[trigger] kept[i]).position < scores.len()
        && kept[i].score == scores[kept[i].position as int] by {
        assert(order.contains(kept[i]));
        assert(all.contains(kept[i]));
        let k = choose|k: int| 0 <= k < all.len() && all[k] == kept[i];
        assert(all[k].position == k);
    }
    assert forall|i: int, j: int| 0 <= i < j < kept.len() implies (#[trigger] kept[i]).score >= (
    #[trigger] kept[j]).score && !overlaps[kept[i].position as int][kept[j].position as int] by {
        assert(!by_score()(kept[j], kept[i]));
        assert(!suppressed_by(overlaps, kept[j])(kept[i]));
    }
    assert forall|b: int| 0 <= b < scores.len() implies kept_or_suppressed(
        kept,
        #[trigger] scores[b],
        overlaps,
        b,
    ) by {
        let x = all[b];
        assert(all.contains(x));
        assert(order.contains(x));
        let m = choose|m: int| 0 <= m < order.len() && order[m] == x;
        assert(kept.contains(order[m]) || exists|k: int|
            0 <= k < kept.len() && (#[trigger] kept[k]).score >= order[m].score && suppressed_by(
                overlaps,
                order[m],
            )(kept[k]));
        if kept.contains(x) {
            let k = choose|k: int| 0 <= k < kept.len() && kept[k] == x;
            assert(kept[k].position == b);
        } else {
            let k = choose|k: int|
                0 <= k < kept.len() && (#[trigger] kept[k]).score >= order[m].score
                    && suppressed_by(overlaps, order[m])(kept[k]);
            assert(overlaps[kept[k].position as int][b]);
        }
    }
}

/// Whether a box is kept, or overlaps a kept one of no lower score too much.
pub open spec fn kept_or_suppressed(
    kept: Seq<Scored>,
    score: u32,
    overlaps: Seq<Seq<bool>>,
    b: int,
) -> bool {
    exists|k: int|
        0 <= k < kept.len() && ((#[trigger] kept[k]).position == b || kept[k].score >= score
            && overlaps[kept[k].position as int][b])
}

/// Kept boxes do not overlap an earlier one too much.
proof fn kept_are_apart(order: Seq<Scored>, overlaps: Seq<Seq<bool>>)
    ensures
        forall|i: int, j: int|
            0 <= i < j < kept_of(order, overlaps).len() ==> !suppressed_by(
                overlaps,
                #[trigger] kept_of(order, overlaps)[j],
            )(#[trigger] kept_of(order, overlaps)[i]),
    decreases order.len(),
{
    if order.len() > 0 {
        let d = order.drop_last();
        kept_are_apart(d, overlaps);
        let before = kept_of(d, overlaps);
        let after = kept_of(order, overlaps);
        let p = suppressed_by(overlaps, order.last());
        assert forall|i: int, j: int| 0 <= i < j < after.len() implies !suppressed_by(
            overlaps,
            #[trigger] after[j],
        )(#[trigger] after[i]) by {
            assert(after[i] == before[i]);
            if j < before.len() {
                assert(after[j] == before[j]);
            } else {
                assert(!p(before[i]));
            }
        }
    }
}

/// What is dropped overlaps a kept box of no lower score too much.
proof fn dropped_are_suppressed(order: Seq<Scored>, overlaps: Seq<Seq<bool>>)
    requires
        is_sorted(order, by_score()),
    ensures
        forall|m: int|
            0 <= m < order.len() ==> kept_of(order, overlaps).contains(#[trigger] order[m])
                || exists|k: int|
                0 <= k < kept_of(order, overlaps).len() && (#[trigger] kept_of(
                    order,
                    overlaps,
                )[k]).score >= order[m].score && suppressed_by(overlaps, order[m])(
                    kept_of(order, overlaps)[k],
                ),
    decreases order.len(),
{
    if order.len() > 0 {
        let d = order.drop_last();
        let l = order.last();
        assert forall|i: int, j: int| 0 <= i < j < d.len() implies !by_score()(
            #[trigger] d[j],
            #[trigger] d[i],
        ) by {
            assert(order[j] == d[j] && order[i] == d[i]);
        }
        dropped_are_suppressed(d, overlaps);
        kept_are_taken(d, overlaps);
        let before = kept_of(d, overlaps);
        let after = kept_of(order, overlaps);
        assert forall|m: int| 0 <= m < order.len() implies after.contains(#[trigger] order[m])
            || exists|k: int|
            0 <= k < after.len() && (#[trigger] after[k]).score >= order[m].score && suppressed_by(
                overlaps,
                order[m],
            )(after[k]) by {
            if m < d.len() {
                assert(d[m] == order[m]);
                if before.contains(d[m]) {
                    let k = choose|k: int| 0 <= k < before.len() && before[k] == d[m];
                    assert(after[k] == before[k]);
                } else {
                    let k = choose|k: int|
                        0 <= k < before.len() && (#[trigger] before[k]).score >= d[m].score
                            && suppressed_by(overlaps, d[m])(before[k]);
                    assert(after[k] == before[k]);
                }
            } else if any(before, suppressed_by(overlaps, l)) {
                let k = choose|k: int|
                    0 <= k < before.len() && suppressed_by(overlaps, l)(#[trigger] before[k]);
                assert(d.contains(before[k]));
                let q = choose|q: int| 0 <= q < d.len() && d[q] == before[k];
                assert(order[q] == before[k]);
                assert(!by_score()(order[order.len() - 1], order[q]));
                assert(after[k] == before[k]);
            } else {
                assert(after[before.len() as int] == l);
            }
        }
    }
}

} // verus!
