//! The export engine: one new video from a selection of rallies. Cuts are trimmed
//! out of their sources and concatenated in order by one encoder run, whose
//! arguments are built here.
use vstd::prelude::*;
use vstd::string::*;

use crate::capture_day::{padded, zeros};
use crate::numerals::{parse_signed, signed_value};
use crate::store::{Store, StoreView};
use crate::text::{
    chars_of, decimal, decimal_text, drop_back, is_char, slice_of, starts_with, string_of,
    strip_back, trim_chars, trimmed,
};
use crate::timeline::{
    recording_timeline, row_at, timeline_of, TimelineRally, TimelineRallyView, TimelineView,
};

verus! {

/// The event that carries export progress as a fraction.
pub const EVENT_PROGRESS: &'static str = "export:progress";

/// How to drive one H.264 encoder.
#[derive(Debug)]
pub struct EncoderPlan {
    /// Arguments placed before the inputs.
    pub global: Vec<String>,
    /// Filter to run on the concatenated video before encoding.
    pub vfilter: Option<String>,
    /// Codec selection and tuning.
    pub codec: Vec<String>,
}

/// What an encoder plan holds.
#[verifier::ext_equal]
pub struct PlanView {
    pub global: Seq<Seq<char>>,
    pub vfilter: Option<Seq<char>>,
    pub codec: Seq<Seq<char>>,
}

impl DeepView for EncoderPlan {
    type V = PlanView;

    open spec fn deep_view(&self) -> PlanView {
        PlanView {
            global: self.global.deep_view(),
            vfilter: self.vfilter.deep_view(),
            codec: self.codec.deep_view(),
        }
    }
}

/// The software encoder: always usable, the final fallback.
pub open spec fn software_plan() -> PlanView {
    PlanView {
        global: Seq::empty(),
        vfilter: None,
        codec: seq!["-c:v"@, "libx264"@, "-preset"@, "veryfast"@],
    }
}

/// The GPU encoders, fastest first. Only the one that encodes from GPU surfaces
/// needs a device and an upload filter.
pub open spec fn hardware_plans() -> Seq<PlanView> {
    seq![
        PlanView {
            global: Seq::empty(),
            vfilter: None,
            codec: seq!["-c:v"@, "h264_nvenc"@, "-preset"@, "p4"@, "-cq"@, "23"@],
        },
        PlanView {
            global: Seq::empty(),
            vfilter: None,
            codec: seq!["-c:v"@, "h264_qsv"@, "-global_quality"@, "23"@],
        },
        PlanView {
            global: seq![
                "-init_hw_device"@,
                "vaapi=va:/dev/dri/renderD128"@,
                "-filter_hw_device"@,
                "va"@,
            ],
            vfilter: Some("format=nv12,hwupload"@),
            codec: seq!["-c:v"@, "h264_vaapi"@, "-qp"@, "23"@],
        },
        PlanView {
            global: Seq::empty(),
            vfilter: None,
            codec: seq!["-c:v"@, "h264_amf"@, "-quality"@, "balanced"@],
        },
    ]
}

/// The software encoder.
pub fn software() -> (r: EncoderPlan)
    ensures
        r.deep_view() == software_plan(),
{
    let r = EncoderPlan {
        global: Vec::new(),
        vfilter: None,
        codec: vec![
            "-c:v".to_owned(),
            "libx264".to_owned(),
            "-preset".to_owned(),
            "veryfast".to_owned(),
        ],
    };
    assert(r.deep_view().global =~= software_plan().global);
    assert(r.deep_view().codec =~= software_plan().codec);
    r
}

/// The GPU encoders, fastest first.
pub fn hw_encoders() -> (r: Vec<EncoderPlan>)
    ensures
        r.deep_view() == hardware_plans(),
{
    let nvenc = EncoderPlan {
        global: Vec::new(),
        vfilter: None,
        codec: vec![
            "-c:v".to_owned(),
            "h264_nvenc".to_owned(),
            "-preset".to_owned(),
            "p4".to_owned(),
            "-cq".to_owned(),
            "23".to_owned(),
        ],
    };
    let qsv = EncoderPlan {
        global: Vec::new(),
        vfilter: None,
        codec: vec![
            "-c:v".to_owned(),
            "h264_qsv".to_owned(),
            "-global_quality".to_owned(),
            "23".to_owned(),
        ],
    };
    let vaapi = EncoderPlan {
        global: vec![
            "-init_hw_device".to_owned(),
            "vaapi=va:/dev/dri/renderD128".to_owned(),
            "-filter_hw_device".to_owned(),
            "va".to_owned(),
        ],
        vfilter: Some("format=nv12,hwupload".to_owned()),
        codec: vec![
            "-c:v".to_owned(),
            "h264_vaapi".to_owned(),
            "-qp".to_owned(),
            "23".to_owned(),
        ],
    };
    let amf = EncoderPlan {
        global: Vec::new(),
        vfilter: None,
        codec: vec![
            "-c:v".to_owned(),
            "h264_amf".to_owned(),
            "-quality".to_owned(),
            "balanced".to_owned(),
        ],
    };
    let ghost want = hardware_plans();
    proof {
        assert(nvenc.deep_view() =~= want[0]) by {
            assert(nvenc.deep_view().global =~= want[0].global);
            assert(nvenc.deep_view().codec =~= want[0].codec);
        }
        assert(qsv.deep_view() =~= want[1]) by {
            assert(qsv.deep_view().global =~= want[1].global);
            assert(qsv.deep_view().codec =~= want[1].codec);
        }
        assert(vaapi.deep_view() =~= want[2]) by {
            assert(vaapi.deep_view().global =~= want[2].global);
            assert(vaapi.deep_view().codec =~= want[2].codec);
        }
        assert(amf.deep_view() =~= want[3]) by {
            assert(amf.deep_view().global =~= want[3].global);
            assert(amf.deep_view().codec =~= want[3].codec);
        }
    }
    let r = vec![nvenc, qsv, vaapi, amf];
    assert(r.deep_view() =~= want);
    r
}

/// The first encoder from position `k` on that was found to work, else software.
pub open spec fn chosen_plan(works: Seq<bool>, k: int) -> PlanView
    decreases hardware_plans().len() - k,
{
    if k < 0 || k >= hardware_plans().len() {
        software_plan()
    } else if k < works.len() && works[k] {
        hardware_plans()[k]
    } else {
        chosen_plan(works, k + 1)
    }
}

/// Fastest usable encoder: the first GPU candidate that was found to work, else
/// software. `works` tells of each candidate in turn.
pub fn video_encoder(works: &Vec<bool>) -> (r: EncoderPlan)
    ensures
        r.deep_view() == chosen_plan(works@, 0),
{
    let mut plans = hw_encoders();
    let ghost all = hardware_plans();
    assert(plans@.len() == plans.deep_view().len());
    assert(all.len() == 4);
    let mut i: usize = 0;
    while i < 4
        invariant
            i <= 4,
            all == hardware_plans(),
            all.len() == 4,
            plans.deep_view() == all.skip(i as int),
            chosen_plan(works@, 0) == chosen_plan(works@, i as int),
        decreases 4 - i,
    {
        assert(plans@.len() == plans.deep_view().len());
        assert(plans.deep_view()[0] == all[i as int]);
        let ghost rest = plans.deep_view();
        let plan = plans.remove(0);
        assert(plan.deep_view() == rest[0]);
        assert(plans.deep_view() =~= rest.skip(1));
        assert(rest.skip(1) =~= all.skip(i + 1));
        if i < works.len() && works[i] {
            return plan;
        }
        i += 1;
    }
    software()
}

/// A rally interval to export. `src` is the position of its source.
#[derive(Debug, Clone, Copy)]
pub struct Cut {
    pub src: usize,
    pub start_ms: i64,
    pub end_ms: i64,
}

/// The length of a cut, 0 when it is reversed.
pub open spec fn cut_length(c: Cut) -> int {
    if c.end_ms > c.start_ms {
        c.end_ms - c.start_ms
    } else {
        0
    }
}

/// The total length of some cuts.
pub open spec fn cut_total(cuts: Seq<Cut>) -> int
    decreases cuts.len(),
{
    if cuts.len() == 0 {
        0
    } else {
        cut_total(cuts.drop_last()) + cut_length(cuts.last())
    }
}

/// A total is not negative, and not less than that of leading cuts.
proof fn cut_total_ascends(cuts: Seq<Cut>, i: int)
    requires
        0 <= i <= cuts.len(),
    ensures
        0 <= cut_total(cuts.take(i)) <= cut_total(cuts),
    decreases cuts.len(),
{
    if cuts.len() == 0 {
        assert(cuts.take(i) =~= cuts);
    } else {
        let t = cuts.drop_last();
        if i < cuts.len() {
            cut_total_ascends(t, i);
            assert(t.take(i) =~= cuts.take(i));
        } else {
            cut_total_ascends(t, t.len() as int);
            assert(t.take(t.len() as int) =~= t);
            assert(cuts.take(i) =~= cuts);
        }
    }
}

/// The total length of the selected cuts: the denominator of export progress.
pub fn total_duration(cuts: &Vec<Cut>) -> (r: i64)
    requires
        cut_total(cuts@) <= i64::MAX,
    ensures
        r == cut_total(cuts@),
{
    let mut total: i64 = 0;
    let mut i: usize = 0;
    assert(cuts@.take(0) =~= Seq::empty());
    while i < cuts.len()
        invariant
            i <= cuts@.len(),
            cut_total(cuts@) <= i64::MAX,
            total == cut_total(cuts@.take(i as int)),
            total >= 0,
        decreases cuts@.len() - i,
    {
        proof {
            cut_total_ascends(cuts@, i + 1);
            assert(cuts@.take(i + 1).drop_last() =~= cuts@.take(i as int));
        }
        let c: Cut = cuts[i];
        if c.end_ms > c.start_ms {
            let length: i128 = c.end_ms as i128 - c.start_ms as i128;
            total = total + length as i64;
        }
        i += 1;
    }
    assert(cuts@.take(i as int) =~= cuts@);
    total
}

/// Milliseconds as seconds in decimal notation, without trailing zeros.
pub open spec fn seconds_text(ms: int) -> Seq<char> {
    let n = if ms < 0 {
        -ms
    } else {
        ms
    };
    let sign = if ms < 0 {
        seq!['-']
    } else {
        Seq::empty()
    };
    let whole = sign + decimal((n / 1000) as nat);
    if n % 1000 == 0 {
        whole
    } else {
        whole.push('.') + strip_back(padded(n % 1000, 3), is_char('0'))
    }
}

/// Milliseconds as seconds in decimal notation.
pub fn seconds_of(ms: i64) -> (r: String)
    ensures
        r@ == seconds_text(ms as int),
{
    let mut out = String::new();
    let n: u128 = if ms < 0 {
        out.push('-');
        (-(ms as i128)) as u128
    } else {
        ms as u128
    };
    let ghost sign = if ms < 0 {
        seq!['-']
    } else {
        Seq::<char>::empty()
    };
    assert(out@ =~= sign);
    out.append(&decimal_text(n / 1000));
    let frac: u64 = (n % 1000) as u64;
    if frac != 0 {
        out.push('.');
        let digits = decimal_text(frac as u128);
        let d = chars_of(&digits);
        let mut three: Vec<char> = Vec::new();
        proof {
            three_digits(frac as nat);
        }
        if d.len() < 3 {
            three.push('0');
        }
        if d.len() < 2 {
            three.push('0');
        }
        assert(three@ =~= zeros(3 - d@.len()));
        let mut i: usize = 0;
        let ghost lead = three@;
        while i < d.len()
            invariant
                i <= d@.len(),
                three@ == lead + d@.take(i as int),
            decreases d@.len() - i,
        {
            three.push(d[i]);
            assert(three@ =~= lead + d@.take(i + 1));
            i += 1;
        }
        assert(d@.take(i as int) =~= d@);
        assert(three@ =~= padded(frac as int, 3));
        let kept = drop_back(
            &three,
            |c: char| -> (b: bool)
                ensures
                    b == (c == '0')
                { c == '0' },
            Ghost(is_char('0')),
        );
        let text = string_of(&kept, 0, kept.len());
        assert(text@ =~= kept@);
        out.append(&text);
    }
    out
}

/// A number below a thousand has one to three digits.
proof fn three_digits(n: nat)
    requires
        n < 1000,
    ensures
        1 <= decimal(n).len() <= 3,
{
    reveal_with_fuel(decimal, 4);
}

/// The filter that trims one cut out of its source, video and audio, and rebases
/// its timestamps.
pub open spec fn cut_filter(i: nat, c: Cut) -> Seq<char> {
    let s = decimal(c.src as nat);
    let start = seconds_text(c.start_ms as int);
    let end = seconds_text(c.end_ms as int);
    let n = decimal(i);
    "["@ + s + ":v]trim=start="@ + start + ":end="@ + end + ",setpts=PTS-STARTPTS[v"@ + n + "];["@
        + s + ":a]atrim=start="@ + start + ":end="@ + end + ",asetpts=PTS-STARTPTS[a"@ + n + "];"@
}

/// The filters that trim the cuts.
pub open spec fn cut_filters(cuts: Seq<Cut>) -> Seq<char>
    decreases cuts.len(),
{
    if cuts.len() == 0 {
        Seq::empty()
    } else {
        cut_filters(cuts.drop_last()) + cut_filter((cuts.len() - 1) as nat, cuts.last())
    }
}

/// The names of the trimmed pieces in order.
pub open spec fn piece_names(n: nat) -> Seq<char>
    decreases n,
{
    if n == 0 {
        Seq::empty()
    } else {
        piece_names((n - 1) as nat) + "[v"@ + decimal((n - 1) as nat) + "][a"@ + decimal(
            (n - 1) as nat,
        ) + "]"@
    }
}

/// The whole filter: the trims, their concatenation, and the upload that a GPU
/// encoder needs.
pub open spec fn filter_text(cuts: Seq<Cut>, plan: PlanView) -> Seq<char> {
    let base = cut_filters(cuts) + piece_names(cuts.len()) + "concat=n="@ + decimal(cuts.len())
        + ":v=1:a=1[v][a]"@;
    match plan.vfilter {
        Some(vf) => base + ";[v]"@ + vf + "[venc]"@,
        None => base,
    }
}

/// The filter that trims one cut.
fn push_cut(out: &mut String, i: usize, c: &Cut)
    ensures
        final(out)@ == old(out)@ + cut_filter(i as nat, *c),
{
    let s = decimal_text(c.src as u128);
    let start = seconds_of(c.start_ms);
    let end = seconds_of(c.end_ms);
    let n = decimal_text(i as u128);
    let mut one = "[".to_owned();
    one.append(&s);
    one.append(":v]trim=start=");
    one.append(&start);
    one.append(":end=");
    one.append(&end);
    one.append(",setpts=PTS-STARTPTS[v");
    one.append(&n);
    one.append("];[");
    one.append(&s);
    one.append(":a]atrim=start=");
    one.append(&start);
    one.append(":end=");
    one.append(&end);
    one.append(",asetpts=PTS-STARTPTS[a");
    one.append(&n);
    one.append("];");
    assert(one@ == cut_filter(i as nat, *c));
    out.append(&one);
}

/// The whole filter of an export.
pub fn build_filter(cuts: &Vec<Cut>, plan: &EncoderPlan) -> (r: String)
    ensures
        r@ == filter_text(cuts@, plan.deep_view()),
{
    let mut out = String::new();
    let mut i: usize = 0;
    assert(cuts@.take(0) =~= Seq::empty());
    while i < cuts.len()
        invariant
            i <= cuts@.len(),
            out@ == cut_filters(cuts@.take(i as int)),
        decreases cuts@.len() - i,
    {
        proof {
            assert(cuts@.take(i + 1).drop_last() =~= cuts@.take(i as int));
            assert(cuts@.take(i + 1).last() == cuts@[i as int]);
        }
        push_cut(&mut out, i, &cuts[i]);
        i += 1;
    }
    assert(cuts@.take(i as int) =~= cuts@);
    let ghost trims = out@;
    let mut k: usize = 0;
    assert(trims + piece_names(0) =~= trims);
    while k < cuts.len()
        invariant
            k <= cuts@.len(),
            out@ == trims + piece_names(k as nat),
        decreases cuts@.len() - k,
    {
        let n = decimal_text(k as u128);
        out.append("[v");
        out.append(&n);
        out.append("][a");
        out.append(&n);
        out.append("]");
        assert(out@ =~= trims + piece_names((k + 1) as nat));
        k += 1;
    }
    out.append("concat=n=");
    out.append(&decimal_text(cuts.len() as u128));
    out.append(":v=1:a=1[v][a]");
    if let Some(vf) = &plan.vfilter {
        out.append(";[v]");
        out.append(vf);
        out.append("[venc]");
    }
    out
}

/// Why an export cannot be made, if so.
pub open spec fn export_error(srcs: nat, cuts: Seq<Cut>) -> Option<Seq<char>> {
    if cuts.len() == 0 {
        Some("no rallies selected to export"@)
    } else if exists|i: int| 0 <= i < cuts.len() && (#[trigger] cuts[i]).src >= srcs {
        Some("export cut references a missing source"@)
    } else if cut_total(cuts) <= 0 {
        Some("selected rallies have no duration"@)
    } else {
        None
    }
}

/// Each source as an input argument.
pub open spec fn input_args(srcs: Seq<Seq<char>>) -> Seq<Seq<char>>
    decreases srcs.len(),
{
    if srcs.len() == 0 {
        Seq::empty()
    } else {
        input_args(srcs.drop_last()).push("-i"@).push(srcs.last())
    }
}

/// The arguments of the encoder run.
pub open spec fn export_args(
    srcs: Seq<Seq<char>>,
    dest: Seq<char>,
    cuts: Seq<Cut>,
    plan: PlanView,
) -> Seq<Seq<char>> {
    let map_v = if plan.vfilter is Some {
        "[venc]"@
    } else {
        "[v]"@
    };
    seq!["-v"@, "error"@, "-nostats"@, "-y"@] + plan.global + input_args(srcs) + seq![
        "-filter_complex"@,
        filter_text(cuts, plan),
        "-map"@,
        map_v,
        "-map"@,
        "[a]"@,
    ] + plan.codec + seq!["-c:a"@, "aac"@, "-progress"@, "pipe:1"@, dest]
}

/// Append a copy of each argument.
fn push_all(out: &mut Vec<String>, more: &Vec<String>)
    ensures
        final(out).deep_view() == old(out).deep_view() + more.deep_view(),
{
    let ghost start = out.deep_view();
    let ghost all = more.deep_view();
    let mut i: usize = 0;
    assert(start + all.take(0) =~= start);
    while i < more.len()
        invariant
            i <= more@.len(),
            all == more.deep_view(),
            out.deep_view() == start + all.take(i as int),
        decreases more@.len() - i,
    {
        let ghost prev = out.deep_view();
        out.push(more[i].clone());
        assert(out.deep_view() =~= prev.push(all[i as int]));
        assert(out.deep_view() =~= start + all.take(i + 1));
        i += 1;
    }
    assert(all.take(i as int) =~= all);
}

/// Append one argument.
fn push_one(out: &mut Vec<String>, arg: &str)
    ensures
        final(out).deep_view() == old(out).deep_view().push(arg@),
{
    let ghost start = out.deep_view();
    out.push(arg.to_owned());
    assert(out.deep_view() =~= start.push(arg@));
}

/// What an export runs the encoder with, and the length that its progress is
/// measured by.
#[derive(Debug)]
pub struct ExportJob {
    pub args: Vec<String>,
    pub total_ms: i64,
}

/// Plan an export: cut `cuts` out of the `srcs` and concatenate them in the given
/// order into a new file at `dest`. An error when nothing is selected, a cut names
/// a source that is not there, or the selection has no duration.
pub fn plan_export(
    srcs: &Vec<String>,
    dest: &str,
    cuts: &Vec<Cut>,
    plan: &EncoderPlan,
) -> (r: Result<ExportJob, String>)
    requires
        cut_total(cuts@) <= i64::MAX,
    ensures
        match (r, export_error(srcs@.len(), cuts@)) {
            (Err(e), Some(m)) => e@ == m,
            (Ok(job), None) => {
                &&& job.total_ms == cut_total(cuts@)
                &&& job.args.deep_view() == export_args(
                    srcs.deep_view(),
                    dest@,
                    cuts@,
                    plan.deep_view(),
                )
            },
            _ => false,
        },
{
    if cuts.len() == 0 {
        return Err("no rallies selected to export".to_owned());
    }
    let mut i: usize = 0;
    while i < cuts.len()
        invariant
            i <= cuts@.len(),
            forall|j: int| 0 <= j < i ==> (#[trigger] cuts@[j]).src < srcs@.len(),
        decreases cuts@.len() - i,
    {
        if cuts[i].src >= srcs.len() {
            assert(cuts@[i as int].src >= srcs@.len());
            return Err("export cut references a missing source".to_owned());
        }
        i += 1;
    }
    let total_ms = total_duration(cuts);
    if total_ms <= 0 {
        return Err("selected rallies have no duration".to_owned());
    }
    let ghost pv = plan.deep_view();
    let ghost sv = srcs.deep_view();
    let filter = build_filter(cuts, plan);
    let mut args: Vec<String> = Vec::new();
    assert(args.deep_view() =~= Seq::empty());
    push_one(&mut args, "-v");
    push_one(&mut args, "error");
    push_one(&mut args, "-nostats");
    push_one(&mut args, "-y");
    push_all(&mut args, &plan.global);
    let ghost head = seq!["-v"@, "error"@, "-nostats"@, "-y"@] + pv.global;
    assert(args.deep_view() =~= head);
    let mut k: usize = 0;
    assert(sv.take(0) =~= Seq::empty());
    assert(head + input_args(sv.take(0)) =~= head);
    while k < srcs.len()
        invariant
            k <= srcs@.len(),
            sv == srcs.deep_view(),
            args.deep_view() == head + input_args(sv.take(k as int)),
        decreases srcs@.len() - k,
    {
        proof {
            assert(sv.take(k + 1).drop_last() =~= sv.take(k as int));
            assert(sv.take(k + 1).last() == srcs@[k as int]@);
        }
        push_one(&mut args, "-i");
        push_one(&mut args, &srcs[k]);
        assert(args.deep_view() =~= head + input_args(sv.take(k + 1)));
        k += 1;
    }
    assert(sv.take(k as int) =~= sv);
    push_one(&mut args, "-filter_complex");
    push_one(&mut args, &filter);
    push_one(&mut args, "-map");
    if plan.vfilter.is_some() {
        push_one(&mut args, "[venc]");
    } else {
        push_one(&mut args, "[v]");
    }
    push_one(&mut args, "-map");
    push_one(&mut args, "[a]");
    push_all(&mut args, &plan.codec);
    push_one(&mut args, "-c:a");
    push_one(&mut args, "aac");
    push_one(&mut args, "-progress");
    push_one(&mut args, "pipe:1");
    push_one(&mut args, dest);
    assert(args.deep_view() =~= export_args(sv, dest@, cuts@, pv));
    Ok(ExportJob { args, total_ms })
}

/// The arguments that try a plan out on a tiny synthetic clip.
pub open spec fn trial_args(plan: PlanView) -> Seq<Seq<char>> {
    let upload = match plan.vfilter {
        Some(vf) => seq!["-vf"@, vf],
        None => Seq::empty(),
    };
    seq!["-v"@, "error"@] + plan.global + seq![
        "-f"@,
        "lavfi"@,
        "-i"@,
        "color=c=black:s=64x64:r=5:d=0.1"@,
    ] + upload + plan.codec + seq!["-f"@, "null"@, "-"@]
}

/// The arguments that try a plan out: it works when the run succeeds.
pub fn plan_trial(plan: &EncoderPlan) -> (r: Vec<String>)
    ensures
        r.deep_view() == trial_args(plan.deep_view()),
{
    let mut args: Vec<String> = Vec::new();
    assert(args.deep_view() =~= Seq::empty());
    push_one(&mut args, "-v");
    push_one(&mut args, "error");
    push_all(&mut args, &plan.global);
    push_one(&mut args, "-f");
    push_one(&mut args, "lavfi");
    push_one(&mut args, "-i");
    push_one(&mut args, "color=c=black:s=64x64:r=5:d=0.1");
    if let Some(vf) = &plan.vfilter {
        push_one(&mut args, "-vf");
        push_one(&mut args, vf);
    }
    push_all(&mut args, &plan.codec);
    push_one(&mut args, "-f");
    push_one(&mut args, "null");
    push_one(&mut args, "-");
    assert(args.deep_view() =~= trial_args(plan.deep_view()));
    args
}

/// How many microseconds a line of the progress report says are done, clamped to
/// the whole: nothing for a line that does not say.
pub open spec fn progress_of(line: Seq<char>, total_ms: int) -> Option<int> {
    let prefix = "out_time_us="@;
    if line.len() >= prefix.len() && line.take(prefix.len() as int) == prefix {
        match signed_value(trimmed(line.skip(prefix.len() as int))) {
            Some(us) => Some(
                if us < 0 {
                    0
                } else if us > total_ms * 1000 {
                    total_ms * 1000
                } else {
                    us
                },
            ),
            None => None,
        }
    } else {
        None
    }
}

/// How many microseconds a line of the progress report says are done, out of
/// `total_ms` thousand.
pub fn parse_progress(line: &str, total_ms: i64) -> (r: Option<i128>)
    requires
        total_ms > 0,
    ensures
        match (r, progress_of(line@, total_ms as int)) {
            (Some(a), Some(b)) => a == b,
            (None, None) => true,
            _ => false,
        },
{
    let v = chars_of(line);
    if !starts_with(&v, "out_time_us=") {
        return None;
    }
    proof {
        reveal_strlit("out_time_us=");
        assert("out_time_us="@.len() == 12);
    }
    let rest = slice_of(&v, 12, v.len());
    assert(rest@ =~= v@.skip(12));
    let t = trim_chars(&rest);
    let text = string_of(&t, 0, t.len());
    assert(text@ =~= t@);
    match parse_signed(&text) {
        Some(us) => {
            let whole: i128 = total_ms as i128 * 1000;
            Some(
                if us < 0 {
                    0
                } else if us as i128 > whole {
                    whole
                } else {
                    us as i128
                },
            )
        },
        None => None,
    }
}

/// Whether a rally is selected: all are where no selection is made.
pub open spec fn selected(ids: Option<Seq<i64>>) -> spec_fn(TimelineRallyView) -> bool {
    |r: TimelineRallyView|
        match ids {
            Some(s) => s.contains(r.id),
            None => true,
        }
}

/// A rally of source `src` as a cut.
pub open spec fn cut_of(src: usize) -> spec_fn(TimelineRallyView) -> Cut {
    |r: TimelineRallyView| Cut { src, start_ms: r.start_ms, end_ms: r.end_ms }
}

/// The selected rallies of a timeline as cuts.
pub open spec fn cuts_of(t: TimelineView, src: usize, ids: Option<Seq<i64>>) -> Seq<Cut> {
    t.rallies.filter(selected(ids)).map_values(cut_of(src))
}

/// The rally ids of a selection.
pub open spec fn id_view(ids: Option<&Vec<i64>>) -> Option<Seq<i64>> {
    match ids {
        Some(v) => Some(v@),
        None => None,
    }
}

/// Whether a rally is selected.
fn is_selected(ids: Option<&Vec<i64>>, id: i64) -> (r: bool)
    ensures
        r == (match id_view(ids) {
            Some(s) => s.contains(id),
            None => true,
        }),
{
    match ids {
        Some(v) => {
            let mut i: usize = 0;
            while i < v.len()
                invariant
                    i <= v@.len(),
                    ids == Some(v),
                    forall|j: int| 0 <= j < i ==> v@[j] != id,
                decreases v@.len() - i,
            {
                if v[i] == id {
                    return true;
                }
                i += 1;
            }
            false
        },
        None => true,
    }
}

/// The selected rallies of a timeline as cuts of source `src`, in timeline order.
fn select_cuts(rallies: &Vec<TimelineRally>, src: usize, ids: Option<&Vec<i64>>) -> (r: Vec<Cut>)
    ensures
        r@ == rallies.deep_view().filter(selected(id_view(ids))).map_values(cut_of(src)),
{
    let ghost all = rallies.deep_view();
    let ghost p = selected(id_view(ids));
    let mut out: Vec<Cut> = Vec::new();
    let mut i: usize = 0;
    proof {
        reveal(Seq::filter);
        assert(out@ =~= all.take(0).filter(p).map_values(cut_of(src)));
    }
    while i < rallies.len()
        invariant
            i <= rallies@.len(),
            all == rallies.deep_view(),
            p == selected(id_view(ids)),
            out@ == all.take(i as int).filter(p).map_values(cut_of(src)),
        decreases rallies@.len() - i,
    {
        let r = &rallies[i];
        proof {
            assert(all[i as int] == r.deep_view());
            crate::table::filter_step(all, p, i as int);
        }
        if is_selected(ids, r.id) {
            out.push(Cut { src, start_ms: r.start_ms, end_ms: r.end_ms });
            assert(out@ =~= all.take(i + 1).filter(p).map_values(cut_of(src)));
        }
        i += 1;
    }
    assert(all.take(i as int) =~= all);
    out
}

/// The cuts of an export from one recording: its selected rallies in timeline
/// order. An error when the recording is not registered.
pub fn rally_cuts(conn: &Store, path: &str, ids: Option<&Vec<i64>>) -> (r: Result<
    Vec<Cut>,
    String,
>)
    ensures
        match (r, row_at(conn@, path@)) {
            (Ok(cuts), Some(row)) => cuts@ == cuts_of(timeline_of(conn@, row), 0, id_view(ids)),
            (Err(e), None) => e@ == "recording is not registered"@,
            _ => false,
        },
{
    match recording_timeline(conn, path) {
        Some(t) => Ok(select_cuts(&t.rallies, 0, ids)),
        None => Err("recording is not registered".to_owned()),
    }
}

/// The cuts of the recordings at the first `n` paths, or the first path that is
/// not registered.
pub open spec fn session_cuts_of(
    d: StoreView,
    paths: Seq<Seq<char>>,
    ids: Option<Seq<i64>>,
) -> Result<Seq<Cut>, Seq<char>>
    decreases paths.len(),
{
    if paths.len() == 0 {
        Ok(Seq::empty())
    } else {
        match session_cuts_of(d, paths.drop_last(), ids) {
            Err(e) => Err(e),
            Ok(cuts) => match row_at(d, paths.last()) {
                Some(row) => Ok(
                    cuts + cuts_of(timeline_of(d, row), (paths.len() - 1) as usize, ids),
                ),
                None => Err("recording is not registered: "@ + paths.last()),
            },
        }
    }
}

/// The cuts of a condensed session: the selected rallies of each recording in
/// turn. An error when one is not registered.
pub fn session_cuts(conn: &Store, paths: &Vec<String>, ids: Option<&Vec<i64>>) -> (r: Result<
    Vec<Cut>,
    String,
>)
    ensures
        match (r, session_cuts_of(conn@, paths.deep_view(), id_view(ids))) {
            (Ok(cuts), Ok(s)) => cuts@ == s,
            (Err(e), Err(m)) => e@ == m,
            _ => false,
        },
{
    let ghost all = paths.deep_view();
    let mut cuts: Vec<Cut> = Vec::new();
    let mut i: usize = 0;
    assert(all.take(0) =~= Seq::empty());
    while i < paths.len()
        invariant
            i <= paths@.len(),
            all == paths.deep_view(),
            session_cuts_of(conn@, all.take(i as int), id_view(ids)) == Ok::<Seq<Cut>, Seq<char>>(
                cuts@,
            ),
        decreases paths@.len() - i,
    {
        proof {
            assert(all.take(i + 1).drop_last() =~= all.take(i as int));
            assert(all.take(i + 1).last() == paths@[i as int]@);
        }
        match recording_timeline(conn, &paths[i]) {
            Some(t) => {
                let mut more = select_cuts(&t.rallies, i, ids);
                cuts.append(&mut more);
            },
            None => {
                let mut out = "recording is not registered: ".to_owned();
                out.append(&paths[i]);
                proof {
                    error_stays(conn@, all, id_view(ids), i + 1);
                }
                return Err(out);
            },
        }
        i += 1;
    }
    assert(all.take(i as int) =~= all);
    Ok(cuts)
}

/// The first error among leading paths is that of the whole.
proof fn error_stays(d: StoreView, paths: Seq<Seq<char>>, ids: Option<Seq<i64>>, i: int)
    requires
        0 <= i <= paths.len(),
        session_cuts_of(d, paths.take(i), ids) is Err,
    ensures
        session_cuts_of(d, paths, ids) == session_cuts_of(d, paths.take(i), ids),
    decreases paths.len(),
{
    if i < paths.len() {
        let t = paths.drop_last();
        assert(t.take(i) =~= paths.take(i));
        error_stays(d, t, ids, i);
    } else {
        assert(paths.take(i) =~= paths);
    }
}

} // verus!
