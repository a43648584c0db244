//! What the store keeps at all times, and what is handed to it: rows that belong together,
//! ledgers, and the parts of a request.
use vstd::prelude::*;

use crate::annotations::filter_of;
use crate::eval::{is_score_of, Score};
use crate::export::{chosen_plan, id_view, software_plan};
use crate::harness::{run_tallied, tallied, TallyView};
use crate::ledger::map_of;
use crate::offers::{summary_order, SummaryView};
use crate::options::{dump_parsed, parsed, DumpView, OptionsView};
use crate::store::{home_of, recording_with, StoreView};
use crate::table::{any, is_order, sort_by, sort_by_sorted};
use crate::text::{before_one_way, not_before_is_carried, text_before, text_before_irreflexive};

verus! {

/// A store that is in order has every recording in a session of its own library, every
/// rally and every annotation on a recording, one recording under a key of a library, one
/// session for a day of a library, one library of a kind and one value under a setting; and
/// no id twice.
pub proof fn stores_in_order_hang_together(d: StoreView, i: int, j: int)
    requires
        d.wf(),
        i != j,
    ensures
        0 <= i < d.recordings.len() ==> exists|s: int|
            0 <= s < d.sessions.len() && (#[trigger] d.sessions[s]).id
                == d.recordings[i].session_id && d.sessions[s].library == d.recordings[i].library,
        0 <= i < d.rallies.len() ==> exists|r: int|
            0 <= r < d.recordings.len() && (#[trigger] d.recordings[r]).id
                == d.rallies[i].recording_id,
        0 <= i < d.annotations.len() ==> exists|r: int|
            0 <= r < d.recordings.len() && (#[trigger] d.recordings[r]).id
                == d.annotations[i].recording_id,
        0 <= i < d.recordings.len() && 0 <= j < d.recordings.len() ==> d.recordings[i].id
            != d.recordings[j].id && !(d.recordings[i].library == d.recordings[j].library
            && d.recordings[i].path == d.recordings[j].path),
        0 <= i < d.sessions.len() && 0 <= j < d.sessions.len() ==> d.sessions[i].id
            != d.sessions[j].id && !(d.sessions[i].library == d.sessions[j].library
            && d.sessions[i].capture_day == d.sessions[j].capture_day),
        0 <= i < d.rallies.len() && 0 <= j < d.rallies.len() ==> d.rallies[i].id
            != d.rallies[j].id,
        0 <= i < d.annotations.len() && 0 <= j < d.annotations.len() ==> d.annotations[i].id
            != d.annotations[j].id,
        0 <= i < d.libraries.len() && 0 <= j < d.libraries.len() ==> d.libraries[i].kind
            != d.libraries[j].kind,
        0 <= i < d.meta.len() && 0 <= j < d.meta.len() ==> d.meta[i].key != d.meta[j].key,
{
    let (a, b) = if i < j {
        (i, j)
    } else {
        (j, i)
    };
    if 0 <= i < d.recordings.len() {
        assert(any(d.sessions, home_of(d.recordings[i])));
        let s = choose|s: int|
            0 <= s < d.sessions.len() && home_of(d.recordings[i])(#[trigger] d.sessions[s]);
        assert(d.sessions[s].id == d.recordings[i].session_id);
    }
    if 0 <= i < d.rallies.len() {
        let p = recording_with(d.rallies[i].recording_id);
        assert(any(d.recordings, p));
        let r = choose|r: int| 0 <= r < d.recordings.len() && p(#[trigger] d.recordings[r]);
        assert(d.recordings[r].id == d.rallies[i].recording_id);
    }
    if 0 <= i < d.annotations.len() {
        let p = recording_with(d.annotations[i].recording_id);
        assert(any(d.recordings, p));
        let r = choose|r: int| 0 <= r < d.recordings.len() && p(#[trigger] d.recordings[r]);
        assert(d.recordings[r].id == d.annotations[i].recording_id);
    }
    if 0 <= a && b < d.recordings.len() {
        assert(d.recordings[a].id < d.recordings[b].id);
        assert(!(d.recordings[a].library == d.recordings[b].library && d.recordings[a].path
            == d.recordings[b].path));
    }
    if 0 <= a && b < d.sessions.len() {
        assert(d.sessions[a].id < d.sessions[b].id);
        assert(!(d.sessions[a].library == d.sessions[b].library && d.sessions[a].capture_day
            == d.sessions[b].capture_day));
    }
    if 0 <= a && b < d.rallies.len() {
        assert(d.rallies[a].id < d.rallies[b].id);
    }
    if 0 <= a && b < d.annotations.len() {
        assert(d.annotations[a].id < d.annotations[b].id);
    }
    if 0 <= a && b < d.libraries.len() {
        assert(d.libraries[a].kind != d.libraries[b].kind);
    }
    if 0 <= a && b < d.meta.len() {
        assert(d.meta[a].key != d.meta[b].key);
    }
}

/// Of the entries of a ledger under one name the last one counts.
pub proof fn the_last_entry_counts(
    entries: Seq<(Seq<char>, Seq<char>)>,
    key: Seq<char>,
    value: Seq<char>,
)
    ensures
        map_of(entries.push((key, value))) == map_of(entries).insert(key, value),
        map_of(Seq::empty()) == Map::<Seq<char>, Seq<char>>::empty(),
{
    assert(entries.push((key, value)).drop_last() =~= entries);
}

/// A filter is what it is asked for, part by part, and a selection the ids that it names.
pub proof fn requests_are_taken_part_by_part(
    verdict: &str,
    aspect: &str,
    length: Option<bool>,
    flagged: Option<bool>,
    ids: &Vec<i64>,
)
    ensures
        ({
            let f = filter_of(Some(verdict), Some(aspect), length, flagged);
            &&& f.verdict == Some(verdict@)
            &&& f.aspect == Some(aspect@)
            &&& f.length == length
            &&& f.flagged == flagged
        }),
        ({
            let f = filter_of(None, None, length, flagged);
            f.verdict is None && f.aspect is None
        }),
        filter_of(Some(verdict), None, length, flagged).verdict == Some(verdict@),
        filter_of(Some(verdict), None, length, flagged).aspect is None,
        filter_of(None, Some(aspect), length, flagged).aspect == Some(aspect@),
        filter_of(None, Some(aspect), length, flagged).verdict is None,
        id_view(Some(ids)) == Some(ids@),
        id_view(None) is None,
{
}

/// Totals take in a score as they take in the draft that it is the score of.
pub proof fn totals_take_in_scores(
    t: TallyView,
    s: Score,
    draft: Seq<crate::eval::Interval>,
    gold: Seq<crate::eval::Interval>,
    duration_ms: i64,
)
    requires
        is_score_of(s, draft, gold, duration_ms),
    ensures
        tallied(t, s, duration_ms) == run_tallied(t, draft, gold, duration_ms),
        tallied(t, s, duration_ms).misses == t.misses + s.misses,
        tallied(t, s, duration_ms).false_positives == t.false_positives + s.false_positives,
        tallied(t, s, duration_ms).draft_count == t.draft_count + draft.len(),
        tallied(t, s, duration_ms).total_ms == t.total_ms + duration_ms,
        tallied(t, s, duration_ms).scored == t.scored + 1,
        tallied(t, s, duration_ms).boundary_errors_ms == t.boundary_errors_ms
            + s.boundary_errors_ms@,
{
}

/// Bundles are told of by their day, and those of one day by the name of the one who
/// shares.
pub proof fn summaries_come_by_day_and_name(s: Seq<SummaryView>, i: int, j: int)
    requires
        0 <= i < j < sort_by(s, summary_order()).len(),
    ensures
        ({
            let t = sort_by(s, summary_order());
            &&& !text_before(t[j].capture_day, t[i].capture_day)
            &&& t[i].capture_day == t[j].capture_day ==> !text_before(
                t[j].sharer_label,
                t[i].sharer_label,
            )
        }),
{
    let b = summary_order();
    let t = sort_by(s, b);
    assert(is_order(b)) by {
        assert forall|x: SummaryView, y: SummaryView| #[trigger] b(x, y) implies !b(y, x) by {
            if x.capture_day != y.capture_day {
                before_one_way(x.capture_day, y.capture_day);
            } else {
                before_one_way(x.sharer_label, y.sharer_label);
            }
        }
        assert forall|x: SummaryView, y: SummaryView, z: SummaryView|
            !#[trigger] b(x, y) && !#[trigger] b(y, z) implies !b(x, z) by {
            text_before_irreflexive(x.capture_day);
            text_before_irreflexive(y.capture_day);
            not_before_is_carried(x.capture_day, y.capture_day, z.capture_day);
            if x.capture_day == z.capture_day {
                not_before_is_carried(x.sharer_label, y.sharer_label, z.sharer_label);
            }
        }
    }
    sort_by_sorted(s, b);
    assert(!b(t[j], t[i]));
    text_before_irreflexive(t[i].capture_day);
}

/// A flag that is not known is an error, so that a mistyped one never passes for a filter.
pub proof fn unknown_flags_are_errors(
    flag: Seq<char>,
    rest: Seq<Seq<char>>,
    o: OptionsView,
    p: DumpView,
)
    requires
        flag.len() >= 2,
        flag[0] == '-',
        flag[1] == '-',
    ensures
        flag != "--help"@ && flag != "--sweep"@ && flag != "--trace"@ && flag != "--db"@ && flag
            != "--library"@ ==> parsed(seq![flag] + rest, o) is Err,
        flag != "--help"@ && flag != "--file"@ && flag != "--limit"@ && flag != "--db"@ && flag
            != "--library"@ ==> dump_parsed(seq![flag] + rest, p) is Err,
{
    reveal_strlit("-h");
    assert((seq![flag] + rest)[0] == flag);
    assert(flag != "-h"@) by {
        if flag == "-h"@ {
            assert(flag[1] == 'h');
        }
    }
}

/// Encoders are run with their own settings of quality, and the one that works on the
/// surfaces of the graphics processor with its device and the upload to it.
pub proof fn encoders_have_their_settings(works: Seq<bool>)
    ensures
        ({
            let p = chosen_plan(works, 0);
            let ok = |k: int| k < works.len() && works[k];
            &&& ok(0) ==> p.codec == seq![
                "-c:v"@,
                "h264_nvenc"@,
                "-preset"@,
                "p4"@,
                "-cq"@,
                "23"@,
            ]
            &&& !ok(0) && ok(1) ==> p.codec == seq!["-c:v"@, "h264_qsv"@, "-global_quality"@, "23"@]
            &&& !ok(0) && !ok(1) && ok(2) ==> {
                &&& p.codec == seq!["-c:v"@, "h264_vaapi"@, "-qp"@, "23"@]
                &&& p.vfilter == Some("format=nv12,hwupload"@)
                &&& p.global == seq![
                    "-init_hw_device"@,
                    "vaapi=va:/dev/dri/renderD128"@,
                    "-filter_hw_device"@,
                    "va"@,
                ]
            }
            &&& !ok(0) && !ok(1) && !ok(2) && ok(3) ==> p.codec == seq![
                "-c:v"@,
                "h264_amf"@,
                "-quality"@,
                "balanced"@,
            ]
        }),
        software_plan().codec == seq!["-c:v"@, "libx264"@, "-preset"@, "veryfast"@],
        software_plan().global.len() == 0,
        software_plan().vfilter is None,
{
    reveal_with_fuel(chosen_plan, 5);
}

} // verus!
