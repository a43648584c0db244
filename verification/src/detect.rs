//! Occupancy detection around the model: the input layout, the anchors of its
//! output, suppression of overlapping boxes, and what the dump reports.
use vstd::prelude::*;
use vstd::string::*;

use crate::bundle::by_path;
use crate::library::{active_kind, library_path_of};
use crate::numerals::{parse_unsigned, unsigned_value};
use crate::path::{absolute, joined};
use crate::store::{recordings_of, RecordingRow, RecordingView, Store, StoreView};
use crate::table::{any, first, keep, position, sort_by, sort_by_elements, sorted, Row};
use crate::text::{
    before, chars_of, contains_text, find_char, holds, next_char, same, slice_of, string_of,
    text_before, trim_chars, trimmed,
};

verus! {

/// Frames per second the detection track is sampled at.
pub const DETECT_FPS: u32 = 3;

/// The square side the model consumes.
pub const MODEL_SIZE: u32 = 416;

/// An interleaved three-channel image as three planes: all of the first channel,
/// then all of the second, then all of the third.
pub open spec fn planes_of(bgr: Seq<u8>, plane: nat) -> Seq<u8> {
    Seq::new(
        3 * plane,
        |i: int|
            if i < plane {
                bgr[3 * i]
            } else if i < 2 * plane {
                bgr[3 * (i - plane) + 1]
            } else {
                bgr[3 * (i - 2 * plane) + 2]
            },
    )
}

/// Lay an interleaved image out as planes, the layout the model takes. `plane` is
/// the number of pixels.
pub fn to_planes(bgr: &Vec<u8>, plane: usize) -> (r: Vec<u8>)
    requires
        bgr@.len() == 3 * plane,
    ensures
        r@ == planes_of(bgr@, plane as nat),
{
    let mut out: Vec<u8> = Vec::new();
    let ghost all = planes_of(bgr@, plane as nat);
    let n: usize = bgr.len();
    let mut c: usize = 0;
    while c < 3
        invariant
            c <= 3,
            n == bgr@.len(),
            n == 3 * plane,
            all == planes_of(bgr@, plane as nat),
            out@ == all.take(c * plane),
        decreases 3 - c,
    {
        let mut p: usize = 0;
        while p < plane
            invariant
                p <= plane,
                c < 3,
                n == bgr@.len(),
                n == 3 * plane,
                all == planes_of(bgr@, plane as nat),
                out@ == all.take(c * plane + p),
            decreases plane - p,
        {
            proof {
                assert(c == 0 ==> c * plane == 0) by (nonlinear_arith);
                assert(c == 1 ==> c * plane == plane) by (nonlinear_arith);
                assert(c == 2 ==> c * plane == 2 * plane) by (nonlinear_arith);
            }
            out.push(bgr[3 * p + c]);
            assert(out@ =~= all.take(c * plane + p + 1));
            p += 1;
        }
        assert(c * plane + plane == (c + 1) * plane) by (nonlinear_arith);
        c += 1;
    }
    assert(all.take(3 * plane) =~= all);
    out
}

/// A cell of the detection grids: the stride of its grid and its place in it.
#[derive(Debug, Clone, Copy, PartialEq, Eq, Structural)]
pub struct Anchor {
    pub stride: u32,
    pub gx: usize,
    pub gy: usize,
}

/// The cell of an anchor: the grids follow each other with strides 8, 16 and 32,
/// each row by row.
pub open spec fn anchor_of(a: int) -> Option<Anchor> {
    if a < 0 {
        None
    } else if a < 52 * 52 {
        Some(Anchor { stride: 8, gx: (a % 52) as usize, gy: (a / 52) as usize })
    } else if a < 52 * 52 + 26 * 26 {
        let b = a - 52 * 52;
        Some(Anchor { stride: 16, gx: (b % 26) as usize, gy: (b / 26) as usize })
    } else if a < 52 * 52 + 26 * 26 + 13 * 13 {
        let b = a - 52 * 52 - 26 * 26;
        Some(Anchor { stride: 32, gx: (b % 13) as usize, gy: (b / 13) as usize })
    } else {
        None
    }
}

/// The cell of an anchor, or `None` behind the last.
pub fn anchor_cell(a: usize) -> (r: Option<Anchor>)
    ensures
        r == anchor_of(a as int),
        r matches Some(c) ==> c.gx * c.stride < MODEL_SIZE && c.gy * c.stride < MODEL_SIZE,
{
    if a < 2704 {
        Some(Anchor { stride: 8, gx: a % 52, gy: a / 52 })
    } else if a < 3380 {
        let b: usize = a - 2704;
        Some(Anchor { stride: 16, gx: b % 26, gy: b / 26 })
    } else if a < 3549 {
        let b: usize = a - 3380;
        Some(Anchor { stride: 32, gx: b % 13, gy: b / 13 })
    } else {
        None
    }
}

/// A box by its position and its score. Scores are ordered as integers.
#[derive(Debug, Clone, Copy, PartialEq, Eq, Structural)]
pub struct Scored {
    pub position: usize,
    pub score: u32,
}

impl DeepView for Scored {
    type V = Scored;

    open spec fn deep_view(&self) -> Scored {
        *self
    }
}

impl Row for Scored {
    fn dup(&self) -> (r: Self) {
        *self
    }
}

/// Boxes with the higher score first.
pub open spec fn by_score() -> spec_fn(Scored, Scored) -> bool {
    |a: Scored, b: Scored| a.score > b.score
}

/// The boxes by position.
pub open spec fn scored(scores: Seq<u32>) -> Seq<Scored> {
    Seq::new(scores.len(), |i: int| Scored { position: i as usize, score: scores[i] })
}

/// The boxes with the higher scores first, equal ones in the order they had.
pub open spec fn score_order(scores: Seq<u32>) -> Seq<Scored> {
    sort_by(scored(scores), by_score())
}

/// The kept boxes that a box overlaps too much.
pub open spec fn suppressed_by(overlaps: Seq<Seq<bool>>, b: Scored) -> spec_fn(Scored) -> bool {
    |k: Scored| overlaps[k.position as int][b.position as int]
}

/// Boxes taken in an order, each unless it overlaps one already kept too much.
pub open spec fn kept_of(order: Seq<Scored>, overlaps: Seq<Seq<bool>>) -> Seq<Scored>
    decreases order.len(),
{
    if order.len() == 0 {
        Seq::empty()
    } else {
        let kept = kept_of(order.drop_last(), overlaps);
        if any(kept, suppressed_by(overlaps, order.last())) {
            kept
        } else {
            kept.push(order.last())
        }
    }
}

/// Whether overlaps are told of every two of so many boxes.
pub open spec fn square(overlaps: Seq<Seq<bool>>, n: nat) -> bool {
    overlaps.len() == n && forall|i: int|
        0 <= i < overlaps.len() ==> (#[trigger] overlaps[i]).len() == n
}

/// Whether every box has a position below a bound.
pub open spec fn placed_below(s: Seq<Scored>, n: nat) -> bool {
    forall|i: int| 0 <= i < s.len() ==> (#[trigger] s[i]).position < n
}

/// The boxes in the order of their scores.
fn order_boxes(scores: &Vec<u32>) -> (r: Vec<Scored>)
    ensures
        r@ == score_order(scores@),
        placed_below(r@, scores@.len()),
{
    let mut all: Vec<Scored> = Vec::new();
    let mut i: usize = 0;
    while i < scores.len()
        invariant
            i <= scores@.len(),
            all@ == scored(scores@).take(i as int),
        decreases scores@.len() - i,
    {
        all.push(Scored { position: i, score: scores[i] });
        assert(all@ =~= scored(scores@).take(i + 1));
        i += 1;
    }
    assert(all@ =~= scored(scores@));
    let r = sorted(
        &all,
        |a: &Scored, b: &Scored| -> (r: bool)
            ensures
                r == (a.score > b.score)
            { a.score > b.score },
        Ghost(by_score()),
    );
    proof {
        assert(all.deep_view() =~= all@);
        assert(r.deep_view() =~= r@);
        sort_by_elements(all@, by_score());
        assert forall|j: int| 0 <= j < r@.len() implies (#[trigger] r@[j]).position
            < scores@.len() by {
            assert(r@.contains(r@[j]));
            assert(all@.contains(r@[j]));
        }
    }
    r
}

/// Whether a box overlaps none of the kept ones too much.
fn is_free(kept: &Vec<Scored>, b: Scored, overlaps: &Vec<Vec<bool>>, Ghost(n): Ghost<nat>) -> (r:
    bool)
    requires
        square(overlaps.deep_view(), n),
        placed_below(kept@, n),
        b.position < n,
    ensures
        r == !any(kept@, suppressed_by(overlaps.deep_view(), b)),
{
    let ghost ov = overlaps.deep_view();
    let ghost p = suppressed_by(ov, b);
    let mut k: usize = 0;
    while k < kept.len()
        invariant
            k <= kept@.len(),
            ov == overlaps.deep_view(),
            square(ov, n),
            placed_below(kept@, n),
            b.position < n,
            p == suppressed_by(ov, b),
            forall|j: int| 0 <= j < k ==> !p(#[trigger] kept@[j]),
        decreases kept@.len() - k,
    {
        let a: usize = kept[k].position;
        assert(kept@[k as int].position < n);
        assert(ov[a as int].len() == n);
        assert(ov[a as int] =~= overlaps@[a as int]@);
        if overlaps[a][b.position] {
            assert(p(kept@[k as int]));
            return false;
        }
        assert(!p(kept@[k as int]));
        k += 1;
    }
    true
}

/// Greedy non-maximum suppression: the boxes that are kept, in descending order
/// of score. `overlaps[k][b]` tells whether boxes `k` and `b` overlap too much to
/// be two detections.
pub fn nms(scores: &Vec<u32>, overlaps: &Vec<Vec<bool>>) -> (r: Vec<Scored>)
    requires
        square(overlaps.deep_view(), scores@.len()),
    ensures
        r@ == kept_of(score_order(scores@), overlaps.deep_view()),
{
    let ghost ov = overlaps.deep_view();
    let ghost n = scores@.len();
    let order = order_boxes(scores);
    let ghost ord = score_order(scores@);
    let mut kept: Vec<Scored> = Vec::new();
    let mut i: usize = 0;
    assert(ord.take(0) =~= Seq::empty());
    while i < order.len()
        invariant
            i <= order@.len(),
            order@ == ord,
            ov == overlaps.deep_view(),
            square(ov, n),
            placed_below(ord, n),
            placed_below(kept@, n),
            kept@ == kept_of(ord.take(i as int), ov),
        decreases order@.len() - i,
    {
        let b: Scored = order[i];
        proof {
            assert(ord[i as int] == b);
            assert(ord.take(i + 1).drop_last() =~= ord.take(i as int));
            assert(ord.take(i + 1).last() == b);
        }
        if is_free(&kept, b, overlaps, Ghost(n)) {
            kept.push(b);
        }
        i += 1;
    }
    assert(ord.take(i as int) =~= ord);
    kept
}

/// The dimensions that a probe reports as `<width>x<height>`.
pub open spec fn dimensions_of(text: Seq<char>) -> Option<(int, int)> {
    let t = trimmed(text);
    let at = next_char(t, 'x', 0);
    if at >= t.len() {
        None
    } else {
        match (
            unsigned_value(trimmed(t.take(at)), u32::MAX as int),
            unsigned_value(trimmed(t.skip(at + 1)), u32::MAX as int),
        ) {
            (Some(w), Some(h)) => Some((w, h)),
            _ => None,
        }
    }
}

/// The number that a piece of text stands for, white space around it aside.
fn piece_value(v: &Vec<char>, from: usize, to: usize) -> (r: Option<u32>)
    requires
        from <= to <= v@.len(),
    ensures
        match (
            r,
            unsigned_value(trimmed(v@.subrange(from as int, to as int)), u32::MAX as int),
        ) {
            (Some(a), Some(b)) => a == b,
            (None, None) => true,
            _ => false,
        },
{
    let t = trim_chars(&slice_of(v, from, to));
    let s = string_of(&t, 0, t.len());
    assert(s@ =~= t@);
    match parse_unsigned(&s, u32::MAX as u64) {
        Some(n) => Some(n as u32),
        None => None,
    }
}

/// Parse the frame dimensions out of a probe report.
pub fn parse_dimensions(text: &str) -> (r: Option<(u32, u32)>)
    ensures
        match (r, dimensions_of(text@)) {
            (Some(a), Some(b)) => a.0 == b.0 && a.1 == b.1,
            (None, None) => true,
            _ => false,
        },
{
    let t = trim_chars(&chars_of(text));
    let n: usize = t.len();
    let at = find_char(&t, 'x', 0);
    if at >= n {
        return None;
    }
    assert(t@.subrange(0, at as int) =~= t@.take(at as int));
    assert(t@.subrange(at + 1, n as int) =~= t@.skip(at + 1));
    let w = piece_value(&t, 0, at);
    let h = piece_value(&t, at + 1, n);
    match (w, h) {
        (Some(w), Some(h)) => Some((w, h)),
        _ => None,
    }
}

/// What a detection track comes to.
#[derive(Debug, Clone, Copy, PartialEq, Eq, Structural)]
pub struct TrackTotals {
    /// Person boxes over all samples.
    pub total: usize,
    /// The most boxes of one sample.
    pub peak: usize,
    /// Samples with at least one box.
    pub occupied: usize,
}

/// The sum of some counts.
pub open spec fn count_sum(counts: Seq<usize>) -> nat
    decreases counts.len(),
{
    if counts.len() == 0 {
        0
    } else {
        count_sum(counts.drop_last()) + counts.last() as nat
    }
}

/// The greatest of some counts, 0 when there are none.
pub open spec fn count_peak(counts: Seq<usize>) -> usize
    decreases counts.len(),
{
    if counts.len() == 0 {
        0
    } else {
        let rest = count_peak(counts.drop_last());
        if rest < counts.last() {
            counts.last()
        } else {
            rest
        }
    }
}

/// The counts that are not 0.
pub open spec fn is_occupied() -> spec_fn(usize) -> bool {
    |c: usize| c > 0
}

/// The sum of leading counts is that of all at most.
proof fn count_sum_ascends(counts: Seq<usize>, i: int)
    requires
        0 <= i <= counts.len(),
    ensures
        count_sum(counts.take(i)) <= count_sum(counts),
    decreases counts.len() - i,
{
    if i < counts.len() {
        count_sum_ascends(counts, i + 1);
        assert(counts.take(i + 1).drop_last() =~= counts.take(i));
    } else {
        assert(counts.take(i) =~= counts);
    }
}

/// Summarize a detection track by the number of boxes of each sample.
pub fn track_totals(counts: &Vec<usize>) -> (r: TrackTotals)
    requires
        count_sum(counts@) <= usize::MAX,
    ensures
        r.total == count_sum(counts@),
        r.peak == count_peak(counts@),
        r.occupied == counts@.filter(is_occupied()).len(),
{
    let mut total: usize = 0;
    let mut peak: usize = 0;
    let mut occupied: usize = 0;
    let mut i: usize = 0;
    proof {
        reveal(Seq::filter);
        assert(counts@.take(0) =~= Seq::empty());
    }
    while i < counts.len()
        invariant
            i <= counts@.len(),
            count_sum(counts@) <= usize::MAX,
            total == count_sum(counts@.take(i as int)),
            peak == count_peak(counts@.take(i as int)),
            occupied == counts@.take(i as int).filter(is_occupied()).len(),
            occupied <= i,
        decreases counts@.len() - i,
    {
        proof {
            count_sum_ascends(counts@, i + 1);
            assert(counts@.take(i + 1).drop_last() =~= counts@.take(i as int));
            crate::table::filter_step(counts@, is_occupied(), i as int);
        }
        let c: usize = counts[i];
        total += c;
        if peak < c {
            peak = c;
        }
        if c > 0 {
            occupied += 1;
        }
        i += 1;
    }
    assert(counts@.take(i as int) =~= counts@);
    TrackTotals { total, peak, occupied }
}

/// The recordings whose key holds a text.
pub open spec fn key_holds(filter: Seq<char>) -> spec_fn(RecordingView) -> bool {
    |r: RecordingView| holds(r.path, filter)
}

/// The recording that a dump is made of: the first of the library in path order
/// whose key holds the filter, or the first of all. Or the error that there is
/// none.
pub open spec fn dumped(
    d: StoreView,
    kind: Seq<char>,
    db: Seq<char>,
    filter: Option<Seq<char>>,
) -> Result<
    (Seq<char>, Option<i64>),
    Seq<char>,
> {
    match d.library_path_of(kind) {
        None => Err("the '"@ + kind + "' library is not designated in "@ + db),
        Some(library) => {
            let rows = sort_by(d.recordings.filter(recordings_of(kind)), by_path());
            if rows.len() == 0 {
                Err("the '"@ + kind + "' library has no recordings"@)
            } else {
                match filter {
                    None => Ok((joined(library, rows[0].path), rows[0].duration_ms)),
                    Some(f) => match first(rows, key_holds(f)) {
                        Some(r) => Ok((joined(library, r.path), r.duration_ms)),
                        None => Err("no recording in '"@ + kind + "' matched \""@ + f + "\""@),
                    },
                }
            }
        },
    }
}

/// The absolute path and the stored duration of the recording that a dump is made
/// of. `db` is where the store was read from.
pub fn resolve_from_db(
    conn: &Store,
    library: &Option<String>,
    filter: &Option<String>,
    db: &str,
) -> (r: Result<(String, Option<i64>), String>)
    ensures
        match (
            r,
            dumped(
                conn@,
                match library.deep_view() {
                    Some(k) => k,
                    None => conn@.active_kind(),
                },
                db@,
                filter.deep_view(),
            ),
        ) {
            (Ok(a), Ok(b)) => a.0@ == b.0 && a.1 == b.1,
            (Err(e), Err(m)) => e@ == m,
            _ => false,
        },
{
    let kind = match library {
        Some(k) => k.clone(),
        None => active_kind(conn),
    };
    let root = match library_path_of(conn, &kind) {
        Some(l) => l,
        None => {
            let mut out = "the '".to_owned();
            out.append(&kind);
            out.append("' library is not designated in ");
            out.append(db);
            return Err(out);
        },
    };
    let own = keep(
        &conn.recordings,
        |r: &RecordingRow| -> (b: bool)
            ensures
                b == (r.library@ == kind@)
            { same(&r.library, &kind) },
        Ghost(recordings_of(kind@)),
    );
    let rows = sorted(
        &own,
        |a: &RecordingRow, b: &RecordingRow| -> (r: bool)
            ensures
                r == text_before(a.path@, b.path@)
            { before(&a.path, &b.path) },
        Ghost(by_path()),
    );
    assert(rows@.len() == rows.deep_view().len());
    if rows.len() == 0 {
        let mut out = "the '".to_owned();
        out.append(&kind);
        out.append("' library has no recordings");
        return Err(out);
    }
    let at: usize = match filter {
        None => {
            assert(rows.deep_view()[0] == rows@[0].deep_view());
            0
        },
        Some(f) => match position(
            &rows,
            |r: &RecordingRow| -> (b: bool)
                ensures
                    b == holds(r.path@, f@)
                { contains_text(&r.path, f) },
            Ghost(key_holds(f@)),
        ) {
            Some(i) => i,
            None => {
                let mut out = "no recording in '".to_owned();
                out.append(&kind);
                out.append("' matched \"");
                out.append(f);
                out.append("\"");
                return Err(out);
            },
        },
    };
    Ok((absolute(&root, &rows[at].path), rows[at].duration_ms))
}

} // verus!
