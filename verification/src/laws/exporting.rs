//! Exports: every cut is trimmed from its own place of its own source, the pieces are
//! joined in order, and numbers in the arguments read back as what was meant.
use vstd::prelude::*;

use crate::capture_day::padded;
use crate::export::{
    chosen_plan, cut_filter, cut_filters, cut_length, cut_total, cuts_of, export_args, export_error,
    filter_text, input_args, piece_names, progress_of, seconds_text, selected, session_cuts_of, Cut,
    PlanView,
};
use crate::store::StoreView;
use crate::timeline::{row_at, timeline_of, TimelineRallyView, TimelineView};
use crate::text::{decimal, digit, is_char, signed_decimal, strip_back};

verus! {

/// The number that a run of digits is read as.
pub open spec fn number_read(s: Seq<char>) -> int
    decreases s.len(),
{
    if s.len() == 0 {
        0
    } else {
        10 * number_read(s.drop_last()) + (s.last() as int - '0' as int)
    }
}

/// Whether a text is a run of digits.
pub open spec fn digit_run(s: Seq<char>) -> bool {
    s.len() > 0 && forall|i: int| 0 <= i < s.len() ==> '0' <= #[trigger] s[i] <= '9'
}

/// Ten to a power.
pub open spec fn power_of_ten(n: nat) -> int
    decreases n,
{
    if n == 0 {
        1
    } else {
        10 * power_of_ten((n - 1) as nat)
    }
}

/// Whether a text without a sign reads as so many thousandths: digits, or digits with
/// a point and further digits behind it, which count as parts of a power of ten.
pub open spec fn thousandths_read(s: Seq<char>, n: int) -> bool {
    ||| digit_run(s) && n == 1000 * number_read(s)
    ||| exists|k: int|
        {
            &&& 0 < k < s.len() - 1
            &&& #[trigger] s[k] == '.'
            &&& digit_run(s.take(k))
            &&& digit_run(s.skip(k + 1))
            &&& n * power_of_ten((s.len() - k - 1) as nat) == 1000 * (number_read(s.take(k))
                * power_of_ten((s.len() - k - 1) as nat) + number_read(s.skip(k + 1)))
        }
}

/// Whether a text reads as so many milliseconds told in seconds, a minus sign in front
/// of those before zero.
pub open spec fn seconds_read(s: Seq<char>, ms: int) -> bool {
    if s.len() > 0 && s[0] == '-' {
        ms < 0 && thousandths_read(s.skip(1), -ms)
    } else {
        ms >= 0 && thousandths_read(s, ms)
    }
}

/// The digit of a number reads as it.
proof fn digit_reads(d: int)
    requires
        0 <= d <= 9,
    ensures
        digit(d) as int - '0' as int == d,
        '0' <= digit(d) <= '9',
{
}

/// A numeral reads back as its number.
pub proof fn numerals_read_back(n: nat)
    ensures
        digit_run(decimal(n)),
        number_read(decimal(n)) == n,
    decreases n,
{
    if n >= 10 {
        numerals_read_back(n / 10);
        let d = decimal(n);
        digit_reads((n % 10) as int);
        assert(d.last() == digit((n % 10) as int));
        assert(d.drop_last() =~= decimal(n / 10));
        assert(number_read(d) == 10 * number_read(decimal(n / 10)) + n % 10);
        assert forall|i: int| 0 <= i < d.len() implies '0' <= #[trigger] d[i] <= '9' by {
            if i < d.len() - 1 {
                assert(d[i] == decimal(n / 10)[i]);
            }
        }
    } else {
        digit_reads(n as int);
        assert(decimal(n).drop_last() =~= Seq::empty());
        assert(number_read(Seq::empty()) == 0);
        assert(decimal(n).last() == digit(n as int));
    }
}

/// Three digits.
proof fn three_places(n: int)
    requires
        0 <= n < 1000,
    ensures
        padded(n, 3) == seq![digit(n / 100), digit(n / 10 % 10), digit(n % 10)],
{
    reveal_with_fuel(decimal, 4);
    let w = seq![digit(n / 100), digit(n / 10 % 10), digit(n % 10)];
    let t = decimal(n as nat);
    if n < 10 {
        assert(t =~= seq![digit(n % 10)]);
    } else if n < 100 {
        assert(t =~= seq![digit(n / 10 % 10), digit(n % 10)]);
    } else {
        assert((n / 10) / 10 == n / 100);
        assert(t =~= w);
    }
    assert(padded(n, 3) =~= w);
}

/// The fraction of a second without its last zeros.
proof fn fraction_reads_back(n: int)
    requires
        0 < n < 1000,
    ensures
        ({
            let f = strip_back(padded(n, 3), is_char('0'));
            &&& digit_run(f)
            &&& n * power_of_ten(f.len()) == 1000 * number_read(f)
        }),
{
    reveal_with_fuel(strip_back, 4);
    reveal_with_fuel(number_read, 4);
    reveal_with_fuel(power_of_ten, 4);
    three_places(n);
    let (a, b, c) = (n / 100, n / 10 % 10, n % 10);
    assert(n == 100 * a + 10 * b + c) by {
        assert(n / 10 / 10 == n / 100);
    }
    digit_reads(a);
    digit_reads(b);
    digit_reads(c);
    let w = padded(n, 3);
    let f = strip_back(w, is_char('0'));
    assert(w.drop_last() =~= seq![digit(a), digit(b)]);
    assert(w.drop_last().drop_last() =~= seq![digit(a)]);
    let none = Seq::<char>::empty();
    assert(number_read(none) == 0);
    let one = seq![digit(a)];
    assert(one.drop_last() =~= none);
    assert(number_read(one) == a);
    let two = seq![digit(a), digit(b)];
    assert(two.drop_last() =~= one);
    assert(number_read(two) == 10 * a + b);
    assert(w.drop_last() =~= two);
    assert(number_read(w) == 10 * (10 * a + b) + c);
    assert(power_of_ten(1) == 10 && power_of_ten(2) == 100 && power_of_ten(3) == 1000);
    if c != 0 {
        assert(f == w);
    } else if b != 0 {
        assert(f =~= two);
    } else {
        assert(f =~= one);
    }
}

/// The seconds of a time read back as that time, for every time.
pub proof fn seconds_read_back(ms: int)
    ensures
        seconds_read(seconds_text(ms), ms),
{
    let n = if ms < 0 {
        -ms
    } else {
        ms
    };
    let whole = decimal((n / 1000) as nat);
    let text = seconds_text(ms);
    let plain = if ms < 0 {
        text.skip(1)
    } else {
        text
    };
    numerals_read_back((n / 1000) as nat);
    if n % 1000 == 0 {
        assert(plain =~= whole);
        if ms >= 0 {
            assert(text[0] == whole[0]);
        }
    } else {
        let f = strip_back(padded(n % 1000, 3), is_char('0'));
        fraction_reads_back(n % 1000);
        assert(plain =~= whole.push('.') + f);
        let k = whole.len() as int;
        assert(plain[k] == '.');
        assert(plain.take(k) =~= whole);
        assert(plain.skip(k + 1) =~= f);
        let p = power_of_ten(f.len());
        let m = n % 1000;
        let q = n / 1000;
        assert(n * p == 1000 * (q * p + number_read(f))) by (nonlinear_arith)
            requires
                n == 1000 * q + m,
                m * p == 1000 * number_read(f),
        ;
        assert(thousandths_read(plain, n));
        if ms >= 0 {
            assert(text[0] == whole[0]);
        }
    }
}

/// Runs of digits have no point in them, so a text reads in one way.
proof fn thousandths_read_once(s: Seq<char>, a: int, b: int)
    requires
        thousandths_read(s, a),
        thousandths_read(s, b),
    ensures
        a == b,
{
    if digit_run(s) {
        assert forall|k: int| 0 < k < s.len() - 1 implies #[trigger] s[k] != '.' by {}
    } else {
        let i = choose|k: int|
            {
                &&& 0 < k < s.len() - 1
                &&& #[trigger] s[k] == '.'
                &&& digit_run(s.take(k))
                &&& digit_run(s.skip(k + 1))
                &&& a * power_of_ten((s.len() - k - 1) as nat) == 1000 * (number_read(s.take(k))
                    * power_of_ten((s.len() - k - 1) as nat) + number_read(s.skip(k + 1)))
            };
        let j = choose|k: int|
            {
                &&& 0 < k < s.len() - 1
                &&& #[trigger] s[k] == '.'
                &&& digit_run(s.take(k))
                &&& digit_run(s.skip(k + 1))
                &&& b * power_of_ten((s.len() - k - 1) as nat) == 1000 * (number_read(s.take(k))
                    * power_of_ten((s.len() - k - 1) as nat) + number_read(s.skip(k + 1)))
            };
        if i < j {
            assert(s.take(j)[i] == '.');
        } else if j < i {
            assert(s.take(i)[j] == '.');
        }
        let p = power_of_ten((s.len() - i - 1) as nat);
        powers_are_positive((s.len() - i - 1) as nat);
        assert(a == b) by (nonlinear_arith)
            requires
                a * p == b * p,
                p > 0,
        ;
    }
}

/// Powers of ten are positive.
proof fn powers_are_positive(n: nat)
    ensures
        power_of_ten(n) > 0,
    decreases n,
{
    if n > 0 {
        powers_are_positive((n - 1) as nat);
    }
}

/// Different times have different seconds.
pub proof fn seconds_tell_times_apart(a: int, b: int)
    requires
        seconds_text(a) == seconds_text(b),
    ensures
        a == b,
{
    seconds_read_back(a);
    seconds_read_back(b);
    let s = seconds_text(a);
    if s.len() > 0 && s[0] == '-' {
        thousandths_read_once(s.skip(1), -a, -b);
    } else {
        thousandths_read_once(s, a, b);
    }
}

/// Whether a text trims the span of a cut out of its source, pictures and sound alike,
/// lets it begin at zero, and names the two pieces by a number.
pub open spec fn trims(text: Seq<char>, c: Cut, number: nat) -> bool {
    exists|source: Seq<char>, start: Seq<char>, end: Seq<char>, name: Seq<char>|
        #![trigger trim_of(source, start, end, name)]
        {
            &&& text == trim_of(source, start, end, name)
            &&& digit_run(source) && number_read(source) == c.src
            &&& seconds_read(start, c.start_ms as int)
            &&& seconds_read(end, c.end_ms as int)
            &&& digit_run(name) && number_read(name) == number
        }
}

/// The trim of a source from a start to an end.
pub open spec fn trim_of(
    source: Seq<char>,
    start: Seq<char>,
    end: Seq<char>,
    name: Seq<char>,
) -> Seq<char> {
    "["@ + source + ":v]trim=start="@ + start + ":end="@ + end + ",setpts=PTS-STARTPTS[v"@ + name
        + "];["@ + source + ":a]atrim=start="@ + start + ":end="@ + end
        + ",asetpts=PTS-STARTPTS[a"@ + name + "];"@
}

/// The joining of so many pieces, named one after the other.
pub open spec fn joins(text: Seq<char>, count: nat) -> bool
    decreases count,
{
    if count == 0 {
        text.len() == 0
    } else {
        exists|front: Seq<char>, name: Seq<char>|
            #![trigger piece_of(front, name)]
            {
                &&& text == piece_of(front, name)
                &&& joins(front, (count - 1) as nat)
                &&& digit_run(name) && number_read(name) == count - 1
            }
    }
}

/// The names of a piece, pictures and sound, behind those of others.
pub open spec fn piece_of(front: Seq<char>, name: Seq<char>) -> Seq<char> {
    front + "[v"@ + name + "][a"@ + name + "]"@
}

/// A cut is trimmed from its own place: the times in its filter read back as its start
/// and its end, and the number of the source as its source.
pub proof fn cuts_are_trimmed_from_their_places(c: Cut, number: nat)
    ensures
        trims(cut_filter(number, c), c, number),
{
    seconds_read_back(c.start_ms as int);
    seconds_read_back(c.end_ms as int);
    numerals_read_back(c.src as nat);
    numerals_read_back(number);
    let (source, start, end, name) = (
        decimal(c.src as nat),
        seconds_text(c.start_ms as int),
        seconds_text(c.end_ms as int),
        decimal(number),
    );
    assert(cut_filter(number, c) =~= trim_of(source, start, end, name));
}

/// The pieces are named in order.
proof fn pieces_are_named_in_order(count: nat)
    ensures
        joins(piece_names(count), count),
    decreases count,
{
    if count > 0 {
        let k = (count - 1) as nat;
        pieces_are_named_in_order(k);
        numerals_read_back(k);
        assert(piece_names(count) =~= piece_of(piece_names(k), decimal(k)));
    }
}

/// The filter of an export trims each cut in its turn and joins the pieces in the same
/// order into one picture and one sound, which a further filter of the encoder takes up
/// where it has one.
pub proof fn exports_join_every_cut_in_order(cuts: Seq<Cut>, plan: PlanView)
    ensures
        exists|pieces: Seq<Seq<char>>, names: Seq<char>, count: Seq<char>|
            #![trigger joined_text(pieces), piece_count(names, count)]
            {
                &&& pieces.len() == cuts.len()
                &&& forall|i: int|
                    0 <= i < cuts.len() ==> trims(#[trigger] pieces[i], cuts[i], i as nat)
                &&& joins(names, cuts.len())
                &&& digit_run(count) && number_read(count) == cuts.len()
                &&& filter_text(cuts, plan) == joined_text(pieces) + piece_count(names, count) + (
                match plan.vfilter {
                    Some(vf) => ";[v]"@ + vf + "[venc]"@,
                    None => Seq::empty(),
                })
            },
{
    let pieces = Seq::new(cuts.len(), |i: int| cut_filter(i as nat, cuts[i]));
    let names = piece_names(cuts.len());
    let count = decimal(cuts.len());
    assert forall|i: int| 0 <= i < cuts.len() implies trims(
        #[trigger] pieces[i],
        cuts[i],
        i as nat,
    ) by {
        cuts_are_trimmed_from_their_places(cuts[i], i as nat);
    }
    pieces_are_named_in_order(cuts.len());
    numerals_read_back(cuts.len());
    trims_joined(cuts);
    let tail = match plan.vfilter {
        Some(vf) => ";[v]"@ + vf + "[venc]"@,
        None => Seq::empty(),
    };
    assert(filter_text(cuts, plan) =~= joined_text(pieces) + piece_count(names, count) + tail);
}

/// Texts one behind the other.
pub open spec fn joined_text(pieces: Seq<Seq<char>>) -> Seq<char>
    decreases pieces.len(),
{
    if pieces.len() == 0 {
        Seq::empty()
    } else {
        joined_text(pieces.drop_last()) + pieces.last()
    }
}

/// The joining of named pieces into one.
pub open spec fn piece_count(names: Seq<char>, count: Seq<char>) -> Seq<char> {
    names + "concat=n="@ + count + ":v=1:a=1[v][a]"@
}

/// The trims are those of the cuts one behind the other.
proof fn trims_joined(cuts: Seq<Cut>)
    ensures
        cut_filters(cuts) == joined_text(
            Seq::new(cuts.len(), |i: int| cut_filter(i as nat, cuts[i])),
        ),
    decreases cuts.len(),
{
    let pieces = Seq::new(cuts.len(), |i: int| cut_filter(i as nat, cuts[i]));
    if cuts.len() > 0 {
        let less = cuts.drop_last();
        trims_joined(less);
        assert(pieces.drop_last() =~= Seq::new(
            less.len(),
            |i: int| cut_filter(i as nat, less[i]),
        ));
    }
}

/// One more cut adds its own length to the total, and a reversed one nothing; without
/// cuts there is none.
pub proof fn totals_add_up(cuts: Seq<Cut>, c: Cut)
    ensures
        cut_total(Seq::empty()) == 0,
        c.end_ms >= c.start_ms ==> cut_total(cuts.push(c)) - cut_total(cuts) == c.end_ms
            - c.start_ms,
        c.end_ms < c.start_ms ==> cut_total(cuts.push(c)) == cut_total(cuts),
{
    assert(cuts.push(c).drop_last() =~= cuts);
    assert(cut_length(c) >= 0);
}

/// A total is positive exactly where a cut has a length.
proof fn totals_are_positive(cuts: Seq<Cut>)
    ensures
        cut_total(cuts) >= 0,
        cut_total(cuts) > 0 <==> exists|i: int|
            0 <= i < cuts.len() && (#[trigger] cuts[i]).start_ms < cuts[i].end_ms,
    decreases cuts.len(),
{
    if cuts.len() > 0 {
        let d = cuts.drop_last();
        totals_are_positive(d);
        if cut_total(d) > 0 {
            let i = choose|i: int|
                0 <= i < d.len() && (#[trigger] d[i]).start_ms < d[i].end_ms;
            assert(cuts[i].start_ms < cuts[i].end_ms);
        }
        if cuts.last().start_ms < cuts.last().end_ms {
            assert(cuts[cuts.len() - 1].start_ms < cuts[cuts.len() - 1].end_ms);
        }
        if exists|i: int| 0 <= i < cuts.len() && (#[trigger] cuts[i]).start_ms < cuts[i].end_ms {
            let i = choose|i: int|
                0 <= i < cuts.len() && (#[trigger] cuts[i]).start_ms < cuts[i].end_ms;
            if i < d.len() {
                assert(d[i].start_ms < d[i].end_ms);
            }
        }
    }
}

/// An export is made exactly where every cut has its source, and some cut a length.
pub proof fn exports_need_something_to_cut(srcs: nat, cuts: Seq<Cut>)
    ensures
        export_error(srcs, cuts) is None <==> {
            &&& forall|i: int| 0 <= i < cuts.len() ==> (#[trigger] cuts[i]).src < srcs
            &&& exists|i: int| 0 <= i < cuts.len() && (#[trigger] cuts[i]).start_ms < cuts[i].end_ms
        },
        cuts.len() == 0 ==> export_error(srcs, cuts) == Some("no rallies selected to export"@),
        cuts.len() > 0 && (exists|i: int| 0 <= i < cuts.len() && (#[trigger] cuts[i]).src >= srcs)
            ==> export_error(srcs, cuts) == Some("export cut references a missing source"@),
        cuts.len() > 0 && (forall|i: int|
            0 <= i < cuts.len() ==> (#[trigger] cuts[i]).src < srcs && cuts[i].end_ms
                <= cuts[i].start_ms) ==> export_error(srcs, cuts) == Some(
            "selected rallies have no duration"@,
        ),
{
    totals_are_positive(cuts);
}

/// The encoder reads the sources in their order, so that their numbers in the filter
/// stand for them, and writes the destination last.
pub proof fn sources_are_read_in_order(
    srcs: Seq<Seq<char>>,
    dest: Seq<char>,
    cuts: Seq<Cut>,
    plan: PlanView,
)
    ensures
        ({
            let args = export_args(srcs, dest, cuts, plan);
            let at = 4 + plan.global.len() as int;
            let m = srcs.len() as int;
            let c = plan.codec.len() as int;
            &&& args.len() == at + 2 * m + 6 + c + 5
            &&& forall|k: int|
                0 <= k < srcs.len() ==> (args[at + 2 * k], args[at + 2 * k + 1]) == (
                    "-i"@,
                    #[trigger] srcs[k],
                )
            &&& args[at + 2 * m] == "-filter_complex"@
            &&& args[at + 2 * m + 1] == filter_text(cuts, plan)
            &&& args.last() == dest
            &&& args.subrange(4, at) == plan.global
            &&& args.subrange(at + 2 * m + 6, at + 2 * m + 6 + c)
                == plan.codec
            &&& args[at + 2 * m + 2] == "-map"@ && args[at + 2 * m + 3] == (
            if plan.vfilter is Some {
                "[venc]"@
            } else {
                "[v]"@
            })
            &&& args[at + 2 * m + 4] == "-map"@ && args[at + 2 * m + 5] == "[a]"@
        }),
{
    input_in_order(srcs, 0);
    let args = export_args(srcs, dest, cuts, plan);
    let at = 4 + plan.global.len() as int;
    let m = srcs.len() as int;
    let c = plan.codec.len() as int;
    let ins = input_args(srcs);
    assert(args.subrange(4, at) =~= plan.global);
    assert(args.subrange(at + 2 * m + 6, at + 2 * m + 6 + c)
        =~= plan.codec);
    assert forall|k: int| 0 <= k < srcs.len() implies (args[at + 2 * k], args[at + 2 * k + 1]) == (
        "-i"@,
        #[trigger] srcs[k],
    ) by {
        input_in_order(srcs, k);
        assert(args[at + 2 * k] == ins[2 * k]);
        assert(args[at + 2 * k + 1] == ins[2 * k + 1]);
    }
}

/// The inputs in order.
proof fn input_in_order(srcs: Seq<Seq<char>>, k: int)
    ensures
        input_args(srcs).len() == 2 * srcs.len(),
        0 <= k < srcs.len() ==> input_args(srcs)[2 * k] == "-i"@,
        0 <= k < srcs.len() ==> input_args(srcs)[2 * k + 1] == srcs[k],
    decreases srcs.len(),
{
    if srcs.len() > 0 {
        input_in_order(srcs.drop_last(), k);
    }
}

/// Progress is told in full where it lies in range, and never outside of it.
pub proof fn progress_is_told(us: nat, total_ms: int)
    requires
        total_ms > 0,
        us <= i64::MAX,
    ensures
        progress_of("out_time_us="@ + decimal(us), total_ms) == Some(
            if us <= 1000 * total_ms {
                us as int
            } else {
                1000 * total_ms
            },
        ),
{
    let prefix = "out_time_us="@;
    let line = prefix + decimal(us);
    assert(line.take(prefix.len() as int) =~= prefix);
    assert(line.skip(prefix.len() as int) =~= decimal(us));
    crate::laws::numbers::numerals_are_parsed(us);
}

/// Progress before the start counts as none, and other lines tell none.
pub proof fn progress_starts_at_zero(us: int, total_ms: int, line: Seq<char>)
    requires
        total_ms > 0,
        i64::MIN <= us < 0,
        line.len() < 12 || line.take(12) != "out_time_us="@,
    ensures
        progress_of("out_time_us="@ + signed_decimal(us), total_ms) == Some(0int),
        progress_of(line, total_ms) is None,
{
    reveal_strlit("out_time_us=");
    let prefix = "out_time_us="@;
    let text = signed_decimal(us);
    let full = prefix + text;
    assert(full.take(prefix.len() as int) =~= prefix);
    assert(full.skip(prefix.len() as int) =~= text);
    crate::laws::numbers::signed_numerals_are_parsed(us);
    numerals_read_back((-us) as nat);
    let d = decimal((-us) as nat);
    assert(text.last() == d[d.len() - 1]);
    assert('0' <= d[d.len() - 1] <= '9');
    crate::laws::texts::trimmed_already(text);
}

/// The cuts of a recording are its selected rallies in the order of the timeline, each with
/// its own bounds: one more rally on a timeline adds its own cut where it is selected, and
/// none where it is not.
pub proof fn cuts_are_the_selected_rallies(
    t: TimelineView,
    r: TimelineRallyView,
    src: usize,
    ids: Option<Seq<i64>>,
)
    ensures
        ({
            let longer = TimelineView { rallies: t.rallies.push(r), ..t };
            let chosen = match ids {
                None => true,
                Some(s) => exists|i: int| 0 <= i < s.len() && #[trigger] s[i] == r.id,
            };
            cuts_of(longer, src, ids) == (if chosen {
                cuts_of(t, src, ids).push(Cut { src, start_ms: r.start_ms, end_ms: r.end_ms })
            } else {
                cuts_of(t, src, ids)
            })
        }),
        t.rallies.len() == 0 ==> cuts_of(t, src, ids).len() == 0,
{
    let p = selected(ids);
    let longer = TimelineView { rallies: t.rallies.push(r), ..t };
    crate::table::filter_pushed(t.rallies, r, p);
    crate::table::filter_elements(t.rallies, p);
    if let Some(s) = ids {
        if s.contains(r.id) {
            let i = choose|i: int| 0 <= i < s.len() && s[i] == r.id;
            assert(s[i] == r.id);
        }
        if exists|i: int| 0 <= i < s.len() && #[trigger] s[i] == r.id {
            let i = choose|i: int| 0 <= i < s.len() && #[trigger] s[i] == r.id;
            assert(s.contains(s[i]));
        }
    }
    let a = cuts_of(t, src, ids);
    if p(r) {
        assert(cuts_of(longer, src, ids) =~= a.push(
            Cut { src, start_ms: r.start_ms, end_ms: r.end_ms },
        ));
    }
}

/// The cuts of a session are those of its recordings one after the other, each from its own
/// source; there are none where a recording is not registered.
pub proof fn sessions_are_cut_recording_by_recording(
    d: StoreView,
    paths: Seq<Seq<char>>,
    path: Seq<char>,
    ids: Option<Seq<i64>>,
)
    requires
        paths.len() <= usize::MAX,
    ensures
        session_cuts_of(d, Seq::empty(), ids) == Ok::<Seq<Cut>, Seq<char>>(Seq::empty()),
        session_cuts_of(d, paths, ids) matches Ok(cuts) ==> session_cuts_of(
            d,
            paths.push(path),
            ids,
        ) == (match row_at(d, path) {
            Some(row) => Ok::<Seq<Cut>, Seq<char>>(
                cuts + cuts_of(timeline_of(d, row), paths.len() as usize, ids),
            ),
            None => Err("recording is not registered: "@ + path),
        }),
        session_cuts_of(d, paths, ids) is Err ==> session_cuts_of(d, paths.push(path), ids)
            == session_cuts_of(d, paths, ids),
{
    assert(paths.push(path).drop_last() =~= paths);
}

/// The encoder is the first of the four of the graphics processors that was found to work,
/// else that of the software.
pub proof fn encoders_are_tried_in_order(works: Seq<bool>)
    ensures
        ({
            let c = chosen_plan(works, 0).codec;
            let ok = |k: int| k < works.len() && works[k];
            &&& c.len() >= 2 && c[0] == "-c:v"@
            &&& ok(0) ==> c[1] == "h264_nvenc"@
            &&& !ok(0) && ok(1) ==> c[1] == "h264_qsv"@
            &&& !ok(0) && !ok(1) && ok(2) ==> c[1] == "h264_vaapi"@
            &&& !ok(0) && !ok(1) && !ok(2) && ok(3) ==> c[1] == "h264_amf"@
            &&& !ok(0) && !ok(1) && !ok(2) && !ok(3) ==> c[1] == "libx264"@
            &&& chosen_plan(works, 0).vfilter is Some <==> !ok(0) && !ok(1) && ok(2)
            &&& chosen_plan(works, 0).global.len() > 0 <==> !ok(0) && !ok(1) && ok(2)
        }),
{
    reveal_with_fuel(chosen_plan, 5);
}

} // verus!
