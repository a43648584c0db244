//! Whole timelines written onto a recording: its rallies and annotations
//! replaced at once.
use vstd::prelude::*;

use crate::store::{
    annotations_below, annotations_not_of, next_annotation, next_rally, rallies_below,
    rallies_not_of, AnnotationRow, AnnotationView, RallyRow, RallyView, Store, StoreView,
};
use crate::table::{filter_elements, keep};
use crate::text::copy_option;

verus! {

/// A rally to be written: its interval, its confidence in billionths, its flag.
#[derive(Debug, Clone, Copy)]
pub struct Draft {
    pub start_ms: i64,
    pub end_ms: i64,
    pub confidence: i64,
    pub flagged: bool,
}

/// An annotation to be written.
pub struct Remark {
    pub time_ms: i64,
    pub verdict: String,
    pub aspect: Option<String>,
    pub note: Option<String>,
}

/// What an annotation to be written holds.
#[verifier::ext_equal]
pub struct RemarkView {
    pub time_ms: i64,
    pub verdict: Seq<char>,
    pub aspect: Option<Seq<char>>,
    pub note: Option<Seq<char>>,
}

/// Drafts in the order of their starts.
pub open spec fn drafts_by_start() -> spec_fn(Draft, Draft) -> bool {
    |a: Draft, b: Draft| a.start_ms < b.start_ms
}

/// Remarks in the order of their moments.
pub open spec fn remarks_by_time() -> spec_fn(RemarkView, RemarkView) -> bool {
    |a: RemarkView, b: RemarkView| a.time_ms < b.time_ms
}

impl DeepView for Remark {
    type V = RemarkView;

    open spec fn deep_view(&self) -> RemarkView {
        RemarkView {
            time_ms: self.time_ms,
            verdict: self.verdict@,
            aspect: self.aspect.deep_view(),
            note: self.note.deep_view(),
        }
    }
}

/// The rally row that a draft becomes.
pub open spec fn rally_row(id: i64, recording: i64, r: Draft) -> RallyView {
    RallyView {
        id,
        recording_id: recording,
        start_ms: r.start_ms,
        end_ms: r.end_ms,
        confidence: r.confidence,
        flagged: r.flagged,
    }
}

/// The annotation row that a remark becomes.
pub open spec fn annotation_row(id: i64, recording: i64, r: RemarkView) -> AnnotationView {
    AnnotationView {
        id,
        recording_id: recording,
        time_ms: r.time_ms,
        verdict: r.verdict,
        aspect: r.aspect,
        note: r.note,
    }
}

/// Rallies of a recording inserted one after the other.
pub open spec fn rallies_inserted(
    s: Seq<RallyView>,
    recording: i64,
    drafts: Seq<Draft>,
) -> Seq<RallyView>
    decreases drafts.len(),
{
    if drafts.len() == 0 {
        s
    } else {
        let t = rallies_inserted(s, recording, drafts.drop_last());
        t.push(rally_row(next_rally(t) as i64, recording, drafts.last()))
    }
}

/// Annotations of a recording inserted one after the other.
pub open spec fn annotations_inserted(
    s: Seq<AnnotationView>,
    recording: i64,
    remarks: Seq<RemarkView>,
) -> Seq<AnnotationView>
    decreases remarks.len(),
{
    if remarks.len() == 0 {
        s
    } else {
        let t = annotations_inserted(s, recording, remarks.drop_last());
        t.push(annotation_row(next_annotation(t) as i64, recording, remarks.last()))
    }
}

/// The rallies with those of a recording replaced.
pub open spec fn rallies_replaced(
    s: Seq<RallyView>,
    recording: i64,
    drafts: Seq<Draft>,
) -> Seq<RallyView> {
    rallies_inserted(s.filter(rallies_not_of(recording)), recording, drafts)
}

/// The annotations with those of a recording replaced.
pub open spec fn annotations_replaced(
    s: Seq<AnnotationView>,
    recording: i64,
    remarks: Seq<RemarkView>,
) -> Seq<AnnotationView> {
    annotations_inserted(s.filter(annotations_not_of(recording)), recording, remarks)
}

/// Whether the ids of as many rallies as there are drafts fit behind those of the
/// other recordings.
pub open spec fn rallies_fit(s: Seq<RallyView>, recording: i64, n: nat) -> bool {
    next_rally(s.filter(rallies_not_of(recording))) + n <= i64::MAX + 1
}

/// Whether the ids of as many annotations as there are remarks fit behind those
/// of the other recordings.
pub open spec fn annotations_fit(s: Seq<AnnotationView>, recording: i64, n: nat) -> bool {
    next_annotation(s.filter(annotations_not_of(recording))) + n <= i64::MAX + 1
}

/// How many rows there are and which id comes next after an insertion.
pub proof fn rallies_inserted_count(s: Seq<RallyView>, recording: i64, drafts: Seq<Draft>)
    requires
        next_rally(s) + drafts.len() <= i64::MAX + 1,
        next_rally(s) >= i64::MIN,
    ensures
        rallies_inserted(s, recording, drafts).len() == s.len() + drafts.len(),
        next_rally(rallies_inserted(s, recording, drafts)) == next_rally(s) + drafts.len(),
        forall|i: int|
            0 <= i < s.len() ==> #[trigger] rallies_inserted(s, recording, drafts)[i] == s[i],
        forall|i: int|
            0 <= i < drafts.len() ==> #[trigger] rallies_inserted(s, recording, drafts)[s.len() + i]
                == rally_row((next_rally(s) + i) as i64, recording, drafts[i]),
    decreases drafts.len(),
{
    if drafts.len() > 0 {
        rallies_inserted_count(s, recording, drafts.drop_last());
    }
}

/// How many rows there are and which id comes next after an insertion.
pub proof fn annotations_inserted_count(
    s: Seq<AnnotationView>,
    recording: i64,
    remarks: Seq<RemarkView>,
)
    requires
        next_annotation(s) + remarks.len() <= i64::MAX + 1,
        next_annotation(s) >= i64::MIN,
    ensures
        annotations_inserted(s, recording, remarks).len() == s.len() + remarks.len(),
        next_annotation(annotations_inserted(s, recording, remarks)) == next_annotation(s)
            + remarks.len(),
        forall|i: int|
            0 <= i < s.len() ==> #[trigger] annotations_inserted(s, recording, remarks)[i] == s[i],
        forall|i: int|
            0 <= i < remarks.len() ==> #[trigger] annotations_inserted(s, recording, remarks)[s.len()
                + i] == annotation_row(
                (next_annotation(s) + i) as i64,
                recording,
                remarks[i],
            ),
    decreases remarks.len(),
{
    if remarks.len() > 0 {
        annotations_inserted_count(s, recording, remarks.drop_last());
    }
}

/// Replacing the rallies of a recording keeps ids below a bound raised by their
/// number.
pub proof fn replaced_below(s: Seq<RallyView>, recording: i64, drafts: Seq<Draft>, bound: int)
    requires
        rallies_below(s, bound),
        bound + drafts.len() <= i64::MAX + 1,
    ensures
        rallies_fit(s, recording, drafts.len()),
        rallies_below(rallies_replaced(s, recording, drafts), bound + drafts.len()),
{
    let base = s.filter(rallies_not_of(recording));
    filter_elements(s, rallies_not_of(recording));
    assert forall|i: int| 0 <= i < base.len() implies (#[trigger] base[i]).id < bound by {
        let k = choose|k: int| 0 <= k < s.len() && s[k] == base[i];
        assert(s[k].id < bound);
    }
    if base.len() > 0 {
        assert(base[base.len() - 1].id < bound);
    }
    rallies_inserted_count(base, recording, drafts);
    let t = rallies_replaced(s, recording, drafts);
    assert forall|i: int| 0 <= i < t.len() implies (#[trigger] t[i]).id < bound + drafts.len() by {
        if i < base.len() {
            assert(t[i] == base[i]);
        } else {
            assert(t[base.len() + (i - base.len())].id == (next_rally(base) + (i - base.len()))
                as i64);
        }
    }
}

/// Replacing the annotations of a recording keeps ids below a bound raised by their
/// number.
pub proof fn annotations_replaced_below(
    s: Seq<AnnotationView>,
    recording: i64,
    remarks: Seq<RemarkView>,
    bound: int,
)
    requires
        annotations_below(s, bound),
        bound + remarks.len() <= i64::MAX + 1,
    ensures
        annotations_fit(s, recording, remarks.len()),
        annotations_below(annotations_replaced(s, recording, remarks), bound + remarks.len()),
{
    let base = s.filter(annotations_not_of(recording));
    filter_elements(s, annotations_not_of(recording));
    assert forall|i: int| 0 <= i < base.len() implies (#[trigger] base[i]).id < bound by {
        let k = choose|k: int| 0 <= k < s.len() && s[k] == base[i];
        assert(s[k].id < bound);
    }
    if base.len() > 0 {
        assert(base[base.len() - 1].id < bound);
    }
    annotations_inserted_count(base, recording, remarks);
    let t = annotations_replaced(s, recording, remarks);
    assert forall|i: int| 0 <= i < t.len() implies (#[trigger] t[i]).id < bound + remarks.len() by {
        if i < base.len() {
            assert(t[i] == base[i]);
        } else {
            assert(t[base.len() + (i - base.len())].id == (next_annotation(base) + (i - base.len()))
                as i64);
        }
    }
}

/// Replace the rallies of a recording.
pub(crate) fn replace_rallies(conn: &mut Store, recording: i64, drafts: &Vec<Draft>)
    requires
        rallies_fit(old(conn)@.rallies, recording, drafts@.len()),
    ensures
        final(conn)@ == (StoreView {
            rallies: rallies_replaced(old(conn)@.rallies, recording, drafts@),
            ..old(conn)@
        }),
{
    let ghost base = old(conn)@.rallies.filter(rallies_not_of(recording));
    conn.rallies =
    keep(
        &conn.rallies,
        |r: &RallyRow| -> (b: bool)
            ensures
                b == (r.recording_id != recording)
            { r.recording_id != recording },
        Ghost(rallies_not_of(recording)),
    );
    let mut i: usize = 0;
    assert(drafts@.take(0) =~= Seq::empty());
    while i < drafts.len()
        invariant
            i <= drafts@.len(),
            next_rally(base) + drafts@.len() <= i64::MAX + 1,
            conn@.rallies == rallies_inserted(base, recording, drafts@.take(i as int)),
            conn@ == (StoreView { rallies: conn@.rallies, ..old(conn)@ }),
        decreases drafts@.len() - i,
    {
        proof {
            rallies_inserted_count(base, recording, drafts@.take(i as int));
        }
        let id = crate::timeline::fresh_rally(conn);
        let r: Draft = drafts[i];
        let ghost prev = conn@.rallies;
        conn.rallies.push(
            RallyRow {
                id,
                recording_id: recording,
                start_ms: r.start_ms,
                end_ms: r.end_ms,
                confidence: r.confidence,
                flagged: r.flagged,
            },
        );
        proof {
            assert(drafts@.take(i + 1).drop_last() =~= drafts@.take(i as int));
            assert(conn@.rallies =~= prev.push(rally_row(id, recording, r)));
            assert(conn@ =~= (StoreView { rallies: conn@.rallies, ..old(conn)@ }));
        }
        i += 1;
    }
    assert(drafts@.take(i as int) =~= drafts@);
}

/// Replace the annotations of a recording.
pub(crate) fn replace_annotations(conn: &mut Store, recording: i64, remarks: &Vec<Remark>)
    requires
        annotations_fit(old(conn)@.annotations, recording, remarks@.len()),
    ensures
        final(conn)@ == (StoreView {
            annotations: annotations_replaced(
                old(conn)@.annotations,
                recording,
                remarks.deep_view(),
            ),
            ..old(conn)@
        }),
{
    let ghost base = old(conn)@.annotations.filter(annotations_not_of(recording));
    let ghost all = remarks.deep_view();
    conn.annotations =
    keep(
        &conn.annotations,
        |a: &AnnotationRow| -> (b: bool)
            ensures
                b == (a.recording_id != recording)
            { a.recording_id != recording },
        Ghost(annotations_not_of(recording)),
    );
    let mut i: usize = 0;
    assert(all.take(0) =~= Seq::empty());
    while i < remarks.len()
        invariant
            i <= remarks@.len(),
            all == remarks.deep_view(),
            next_annotation(base) + remarks@.len() <= i64::MAX + 1,
            conn@.annotations == annotations_inserted(base, recording, all.take(i as int)),
            conn@ == (StoreView { annotations: conn@.annotations, ..old(conn)@ }),
        decreases remarks@.len() - i,
    {
        proof {
            annotations_inserted_count(base, recording, all.take(i as int));
        }
        let id = crate::annotations::fresh_annotation(conn);
        let r = &remarks[i];
        let ghost prev = conn@.annotations;
        conn.annotations.push(
            AnnotationRow {
                id,
                recording_id: recording,
                time_ms: r.time_ms,
                verdict: r.verdict.clone(),
                aspect: copy_option(&r.aspect),
                note: copy_option(&r.note),
            },
        );
        proof {
            assert(all.take(i + 1).drop_last() =~= all.take(i as int));
            assert(conn@.annotations =~= prev.push(
                annotation_row(id, recording, r.deep_view()),
            ));
            assert(conn@ =~= (StoreView { annotations: conn@.annotations, ..old(conn)@ }));
        }
        i += 1;
    }
    assert(all.take(i as int) =~= all);
}

} // verus!
