//! Reviews: what is written onto a recording is what is read back, and nothing
//! else changes with it.
use vstd::prelude::*;

use crate::annotations::{by_time, ordered_annotations};
use crate::bundle::{carried_annotation, carried_rally};
use crate::drafts::{
    annotation_row, annotations_inserted, annotations_replaced, drafts_by_start, rallies_inserted,
    rallies_replaced, rally_row, remarks_by_time, Draft, RemarkView,
};
use crate::store::{
    annotations_not_of, annotations_of, next_annotation, next_rally, rallies_not_of, rallies_of,
    AnnotationView, RallyView, StoreView,
};
use crate::table::{
    any, any_filtered, filter_apart, filter_pushed, filter_within, is_sorted, sort_by,
    sort_by_mapped, sort_by_sorted,
};
use crate::timeline::{by_start, hand_touched, ordered_rallies, touched_rally};

verus! {

/// Inserted rallies are those of their recording.
proof fn inserted_rallies(s: Seq<RallyView>, id: i64, drafts: Seq<Draft>, other: i64)
    ensures
        rallies_inserted(s, id, drafts).filter(rallies_of(other)).map_values(carried_rally()) == (
        if other == id {
            s.filter(rallies_of(other)).map_values(carried_rally()) + drafts
        } else {
            s.filter(rallies_of(other)).map_values(carried_rally())
        }),
        other != id ==> rallies_inserted(s, id, drafts).filter(rallies_of(other)) == s.filter(
            rallies_of(other),
        ),
    decreases drafts.len(),
{
    let t = s.filter(rallies_of(other)).map_values(carried_rally());
    if drafts.len() == 0 {
        assert(t + drafts =~= t);
    } else {
        let less = drafts.drop_last();
        inserted_rallies(s, id, less, other);
        let u = rallies_inserted(s, id, less);
        let x = rally_row(next_rally(u) as i64, id, drafts.last());
        filter_pushed(u, x, rallies_of(other));
        if other == id {
            let v = u.filter(rallies_of(other));
            assert(v.push(x).map_values(carried_rally()) =~= v.map_values(carried_rally()).push(
                drafts.last(),
            ));
            assert(t + drafts =~= (t + less).push(drafts.last()));
        }
    }
}

/// Inserted annotations are those of their recording.
proof fn inserted_annotations(
    s: Seq<AnnotationView>,
    id: i64,
    remarks: Seq<RemarkView>,
    other: i64,
)
    ensures
        annotations_inserted(s, id, remarks).filter(annotations_of(other)).map_values(
            carried_annotation(),
        ) == (if other == id {
            s.filter(annotations_of(other)).map_values(carried_annotation()) + remarks
        } else {
            s.filter(annotations_of(other)).map_values(carried_annotation())
        }),
        other != id ==> annotations_inserted(s, id, remarks).filter(annotations_of(other))
            == s.filter(annotations_of(other)),
    decreases remarks.len(),
{
    let t = s.filter(annotations_of(other)).map_values(carried_annotation());
    if remarks.len() == 0 {
        assert(t + remarks =~= t);
    } else {
        let less = remarks.drop_last();
        inserted_annotations(s, id, less, other);
        let u = annotations_inserted(s, id, less);
        let x = annotation_row(next_annotation(u) as i64, id, remarks.last());
        filter_pushed(u, x, annotations_of(other));
        if other == id {
            let v = u.filter(annotations_of(other));
            assert(v.push(x).map_values(carried_annotation()) =~= v.map_values(
                carried_annotation(),
            ).push(remarks.last()));
            assert(t + remarks =~= (t + less).push(remarks.last()));
        }
    }
}

/// A recording whose rallies are replaced has exactly the new ones; those of
/// every other recording stay as they were.
pub proof fn replaced_rallies_are_read_back(
    s: Seq<RallyView>,
    id: i64,
    drafts: Seq<Draft>,
    other: i64,
)
    ensures
        rallies_replaced(s, id, drafts).filter(rallies_of(id)).map_values(carried_rally())
            == drafts,
        other != id ==> rallies_replaced(s, id, drafts).filter(rallies_of(other)) == s.filter(
            rallies_of(other),
        ),
{
    let base = s.filter(rallies_not_of(id));
    inserted_rallies(base, id, drafts, id);
    inserted_rallies(base, id, drafts, other);
    filter_apart(s, rallies_not_of(id), rallies_of(id));
    assert(base.filter(rallies_of(id)).map_values(carried_rally()) + drafts =~= drafts);
    if other != id {
        filter_within(s, rallies_not_of(id), rallies_of(other));
    }
}

/// A recording whose annotations are replaced has exactly the new ones; those of
/// every other recording stay as they were.
pub proof fn replaced_annotations_are_read_back(
    s: Seq<AnnotationView>,
    id: i64,
    remarks: Seq<RemarkView>,
    other: i64,
)
    ensures
        annotations_replaced(s, id, remarks).filter(annotations_of(id)).map_values(
            carried_annotation(),
        ) == remarks,
        other != id ==> annotations_replaced(s, id, remarks).filter(annotations_of(other))
            == s.filter(annotations_of(other)),
{
    let base = s.filter(annotations_not_of(id));
    inserted_annotations(base, id, remarks, id);
    inserted_annotations(base, id, remarks, other);
    filter_apart(s, annotations_not_of(id), annotations_of(id));
    assert(base.filter(annotations_of(id)).map_values(carried_annotation()) + remarks =~= remarks);
    if other != id {
        filter_within(s, annotations_not_of(id), annotations_of(other));
    }
}

/// A timeline is told in the order of starts, whatever order it was written in.
pub proof fn timeline_of_drafts(d: StoreView, id: i64)
    ensures
        ordered_rallies(d, id).map_values(carried_rally()) == sort_by(
            d.rallies.filter(rallies_of(id)).map_values(carried_rally()),
            drafts_by_start(),
        ),
{
    let s = d.rallies.filter(rallies_of(id));
    assert forall|y: RallyView, z: RallyView| #[trigger]
        by_start()(y, z) == drafts_by_start()(carried_rally()(y), carried_rally()(z)) by {}
    sort_by_mapped(s, carried_rally(), by_start(), drafts_by_start());
}

/// Annotations are told in the order of moments, whatever order they were written
/// in.
pub proof fn annotations_of_remarks(d: StoreView, id: i64)
    ensures
        ordered_annotations(d, id).map_values(carried_annotation()) == sort_by(
            d.annotations.filter(annotations_of(id)).map_values(carried_annotation()),
            remarks_by_time(),
        ),
{
    let s = d.annotations.filter(annotations_of(id));
    assert forall|y: AnnotationView, z: AnnotationView| #[trigger]
        by_time()(y, z) == remarks_by_time()(carried_annotation()(y), carried_annotation()(z)) by {}
    sort_by_mapped(s, carried_annotation(), by_time(), remarks_by_time());
}

/// A timeline is in order, and so are a recording's annotations.
pub proof fn timelines_are_in_order(d: StoreView, id: i64)
    ensures
        is_sorted(ordered_rallies(d, id), by_start()),
        is_sorted(ordered_annotations(d, id), by_time()),
{
    sort_by_sorted(d.rallies.filter(rallies_of(id)), by_start());
    sort_by_sorted(d.annotations.filter(annotations_of(id)), by_time());
}

/// Whether two stores hold one review of a recording.
pub open spec fn same_review(a: StoreView, b: StoreView, id: i64) -> bool {
    &&& a.rallies.filter(rallies_of(id)) == b.rallies.filter(rallies_of(id))
    &&& a.annotations.filter(annotations_of(id)) == b.annotations.filter(annotations_of(id))
}

/// Whether a hand touched a recording shows in its own rallies and annotations
/// alone.
pub proof fn touch_shows_in_review(a: StoreView, b: StoreView, id: i64)
    requires
        same_review(a, b, id),
    ensures
        hand_touched(a, id) == hand_touched(b, id),
        ordered_rallies(a, id) == ordered_rallies(b, id),
        ordered_annotations(a, id) == ordered_annotations(b, id),
{
    touch_in_rows(a, id);
    touch_in_rows(b, id);
}

/// Whether a hand touched a recording, over its own rows.
proof fn touch_in_rows(d: StoreView, id: i64)
    ensures
        hand_touched(d, id) <==> any(d.rallies.filter(rallies_of(id)), touched_rally(id)) || any(
            d.annotations.filter(annotations_of(id)),
            annotations_of(id),
        ),
{
    any_filtered(d.rallies, rallies_of(id), touched_rally(id));
    any_filtered(d.annotations, annotations_of(id), annotations_of(id));
    if any(d.rallies, touched_rally(id)) {
        let i = choose|i: int| 0 <= i < d.rallies.len() && touched_rally(id)(#[trigger] d.rallies[i]);
        assert(rallies_of(id)(d.rallies[i]) && touched_rally(id)(d.rallies[i]));
    }
    if any(d.annotations, annotations_of(id)) {
        let i = choose|i: int|
            0 <= i < d.annotations.len() && annotations_of(id)(#[trigger] d.annotations[i]);
        assert(annotations_of(id)(d.annotations[i]) && annotations_of(id)(d.annotations[i]));
    }
}

} // verus!
