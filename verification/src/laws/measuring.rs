//! Measurements: the dates that a probe reports, motion between frames, the layout of the
//! detector's input and output, and what the tools are asked for.
use vstd::prelude::*;

use crate::detect::{
    anchor_of, count_peak, count_sum, dimensions_of, is_occupied, planes_of, Anchor,
};
use crate::laws::numbers::numerals_are_parsed;
use crate::laws::texts::{pieces_joined, trimmed_already};
use crate::media::{frame_distance, motion_at, tag_key, with_line, with_lines, CaptureDateView};
use crate::options::{
    data_root, dump_parsed, no_dump_options, no_options, parsed, DumpView, OptionsView,
};
use crate::path::joined;
use crate::text::{decimal, lines_of, next_char, next_char_bounds, pieces, trimmed, without_return};
use crate::waveform::{digits_end, float_text, is_digit, peaks_of};

verus! {

/// The first place of a character behind a front without it.
proof fn found_behind(front: Seq<char>, c: char, rest: Seq<char>)
    requires
        forall|i: int| 0 <= i < front.len() ==> front[i] != c,
    ensures
        next_char(front.push(c) + rest, c, 0) == front.len(),
{
    let t = front.push(c) + rest;
    next_char_bounds(t, c, 0);
    let n = next_char(t, c, 0);
    assert(t[front.len() as int] == c);
    if n < front.len() {
        assert(t[n] == front[n]);
    }
}

/// A line of the report with a tag sets that tag to its value, without white space around
/// it; a blank value and any other key set nothing.
pub proof fn tags_are_read(date: CaptureDateView, value: Seq<char>, key: Seq<char>)
    requires
        forall|i: int| 0 <= i < key.len() ==> key[i] != '=',
    ensures
        trimmed(value).len() > 0 ==> with_line(date, "TAG:creation_time="@ + value) == (
        CaptureDateView { creation_time: Some(trimmed(value)), ..date }),
        trimmed(value).len() > 0 ==> with_line(
            date,
            "TAG:com.apple.quicktime.creationdate="@ + value,
        ) == (CaptureDateView { quicktime_creationdate: Some(trimmed(value)), ..date }),
        trimmed(value).len() == 0 ==> with_line(date, key.push('=') + value) == date,
        tag_key(key) != "creation_time"@ && tag_key(key) != "com.apple.quicktime.creationdate"@
            ==> with_line(date, key.push('=') + value) == date,
        with_line(date, key) == date,
{
    reveal_strlit("TAG:creation_time=");
    reveal_strlit("TAG:com.apple.quicktime.creationdate=");
    reveal_strlit("creation_time");
    reveal_strlit("com.apple.quicktime.creationdate");
    reveal_strlit("TAG:");
    let a = "TAG:creation_time="@;
    let b = "TAG:com.apple.quicktime.creationdate="@;
    let fa = a.drop_last();
    let fb = b.drop_last();
    assert(a + value =~= fa.push('=') + value);
    assert(b + value =~= fb.push('=') + value);
    found_behind(fa, '=', value);
    found_behind(fb, '=', value);
    found_behind(key, '=', value);
    assert((fa.push('=') + value).take(fa.len() as int) =~= fa);
    assert((fb.push('=') + value).take(fb.len() as int) =~= fb);
    assert((key.push('=') + value).take(key.len() as int) =~= key);
    assert((fa.push('=') + value).skip(fa.len() as int + 1) =~= value);
    assert((fb.push('=') + value).skip(fb.len() as int + 1) =~= value);
    assert((key.push('=') + value).skip(key.len() as int + 1) =~= value);
    assert(fa.take(4) =~= "TAG:"@);
    assert(fb.take(4) =~= "TAG:"@);
    assert(fa.skip(4) =~= "creation_time"@);
    assert(fb.skip(4) =~= "com.apple.quicktime.creationdate"@);
    trimmed_already("creation_time"@);
    trimmed_already("com.apple.quicktime.creationdate"@);
    assert("creation_time"@.len() != "com.apple.quicktime.creationdate"@.len());
    next_char_bounds(key, '=', 0);
}

/// A report is read line by line, and of one tag the last value stands.
pub proof fn reports_are_read_in_order(lines: Seq<Seq<char>>, line: Seq<char>)
    ensures
        with_lines(lines.push(line)) == with_line(with_lines(lines), line),
        with_lines(Seq::empty()).creation_time is None,
        with_lines(Seq::empty()).quicktime_creationdate is None,
{
    assert(lines.push(line).drop_last() =~= lines);
}

/// A text has a line for every line feed, without its carriage return, and one for what
/// stands behind the last where that is anything.
pub proof fn lines_end_at_line_feeds(x: Seq<char>, rest: Seq<char>)
    requires
        forall|i: int| 0 <= i < x.len() ==> x[i] != '\n',
    ensures
        lines_of(x.push('\n') + rest) == seq![without_return(x)] + lines_of(rest),
        x.len() > 0 ==> lines_of(x) == seq![x],
        lines_of(Seq::empty()).len() == 0,
{
    next_char_bounds(x, '\n', 0);
    next_char_bounds(Seq::empty(), '\n', 0);
    assert(pieces(x, '\n') == seq![x]);
    pieces_joined(x, rest, '\n');
    let p = pieces(rest, '\n');
    let all = pieces(x.push('\n') + rest, '\n');
    pieces_are_there(rest);
    assert(all == seq![x] + p);
    assert(all.last() == p.last());
    assert(lines_of(x.push('\n') + rest) =~= seq![without_return(x)] + lines_of(rest));
    assert(lines_of(x) =~= if x.len() > 0 {
        seq![x]
    } else {
        Seq::empty()
    });
    let none = Seq::<char>::empty();
    assert(pieces(none, '\n') == seq![none]);
    assert(lines_of(none) =~= Seq::empty());
}

/// There is always a piece.
proof fn pieces_are_there(s: Seq<char>)
    ensures
        pieces(s, '\n').len() > 0,
{
}

/// Motion between two frames of 96 by 54 pixels adds up how far every pixel lies apart
/// from the same one of the frame before.
pub proof fn motion_adds_up_pixels(bytes: Seq<u8>, k: int, a: int, b: int, n: nat)
    ensures
        motion_at(bytes, k) == frame_distance(bytes, (k + 1) * 5184, k * 5184, 5184),
        frame_distance(bytes, a, b, 0) == 0,
        ({
            let e = frame_distance(bytes, a, b, n + 1) - frame_distance(bytes, a, b, n);
            e >= 0 && (e == bytes[a + n] - bytes[b + n] || e == bytes[b + n] - bytes[a + n])
        }),
{
}

/// A picture is taken apart into its colors: pixel by pixel, one color behind the other.
pub proof fn planes_hold_one_color_each(bgr: Seq<u8>, plane: nat, color: int, pixel: int)
    requires
        bgr.len() == 3 * plane,
        0 <= color < 3,
        0 <= pixel < plane,
    ensures
        planes_of(bgr, plane).len() == 3 * plane,
        planes_of(bgr, plane)[color * plane + pixel] == bgr[3 * pixel + color],
{
    if color == 0 {
        assert(color * plane == 0) by (nonlinear_arith)
            requires
                color == 0,
        ;
    } else if color == 1 {
        assert(color * plane == plane) by (nonlinear_arith)
            requires
                color == 1,
        ;
    } else {
        assert(color * plane == 2 * plane) by (nonlinear_arith)
            requires
                color == 2,
        ;
    }
}

/// The anchors are the cells of three grids over 416 pixels, row by row: of 8, of 16 and of
/// 32 pixels a cell; there is none behind them.
pub proof fn anchors_are_cells_of_three_grids(gx: int, gy: int, behind: int)
    ensures
        0 <= gx < 52 && 0 <= gy < 52 ==> anchor_of(52 * gy + gx) == Some(
            Anchor { stride: 8, gx: gx as usize, gy: gy as usize },
        ),
        0 <= gx < 26 && 0 <= gy < 26 ==> anchor_of(2704 + 26 * gy + gx) == Some(
            Anchor { stride: 16, gx: gx as usize, gy: gy as usize },
        ),
        0 <= gx < 13 && 0 <= gy < 13 ==> anchor_of(3380 + 13 * gy + gx) == Some(
            Anchor { stride: 32, gx: gx as usize, gy: gy as usize },
        ),
        behind >= 3549 ==> anchor_of(behind) is None,
{
    if 0 <= gx < 52 && 0 <= gy < 52 {
        assert((52 * gy + gx) / 52 == gy && (52 * gy + gx) % 52 == gx);
    }
    if 0 <= gx < 26 && 0 <= gy < 26 {
        assert((26 * gy + gx) / 26 == gy && (26 * gy + gx) % 26 == gx);
    }
    if 0 <= gx < 13 && 0 <= gy < 13 {
        assert((13 * gy + gx) / 13 == gy && (13 * gy + gx) % 13 == gx);
    }
}

/// Dimensions read back as they are written.
pub proof fn dimensions_read_back(w: nat, h: nat)
    requires
        w <= u32::MAX,
        h <= u32::MAX,
    ensures
        dimensions_of(decimal(w) + "x"@ + decimal(h)) == Some((w as int, h as int)),
{
    reveal_strlit("x");
    crate::laws::exporting::numerals_read_back(w);
    crate::laws::exporting::numerals_read_back(h);
    let a = decimal(w);
    let b = decimal(h);
    let t = a + "x"@ + b;
    assert(t =~= a.push('x') + b);
    assert('0' <= a[0] <= '9');
    assert('0' <= b[b.len() - 1] <= '9');
    assert(t[0] == a[0]);
    assert(t.last() == b[b.len() - 1]);
    trimmed_already(t);
    assert forall|i: int| 0 <= i < a.len() implies a[i] != 'x' by {
        assert('0' <= a[i] <= '9');
    }
    found_behind(a, 'x', b);
    assert(t.take(a.len() as int) =~= a);
    assert(t.skip(a.len() as int + 1) =~= b);
    numerals_are_parsed(w);
    numerals_are_parsed(h);
    assert(crate::numerals::unsigned_value(a, u32::MAX as int) == Some(w as int));
    assert(crate::numerals::unsigned_value(b, u32::MAX as int) == Some(h as int));
}

/// A track adds up the boxes of its samples, and its peak is the greatest number of any.
pub proof fn tracks_add_up(counts: Seq<usize>, c: usize)
    ensures
        count_sum(Seq::empty()) == 0,
        count_sum(counts.push(c)) == count_sum(counts) + c,
        forall|i: int| 0 <= i < counts.len() ==> #[trigger] counts[i] <= count_peak(counts),
        count_peak(counts) == 0 || counts.contains(count_peak(counts)),
        is_occupied()(c) <==> c != 0,
    decreases counts.len(),
{
    assert(counts.push(c).drop_last() =~= counts);
    if counts.len() > 0 {
        let d = counts.drop_last();
        tracks_add_up(d, c);
        assert(counts.last() == counts[counts.len() - 1]);
        assert forall|i: int| 0 <= i < counts.len() implies #[trigger] counts[i] <= count_peak(
            counts,
        ) by {
            if i < d.len() {
                assert(d[i] == counts[i]);
            }
        }
        if count_peak(counts) != 0 && count_peak(counts) == count_peak(d) && d.contains(
            count_peak(d),
        ) {
            let i = choose|i: int| 0 <= i < d.len() && d[i] == count_peak(d);
            assert(counts[i] == count_peak(counts));
        }
    }
}

/// Every option counts wherever it stands: what it asks for, and then what the rest asks
/// for.
pub proof fn options_are_taken_one_by_one(rest: Seq<Seq<char>>, value: Seq<char>, o: OptionsView)
    ensures
        parsed(Seq::empty(), o) == Ok::<OptionsView, Seq<char>>(o),
        parsed(seq!["-h"@] + rest, o) == parsed(rest, OptionsView { help: true, ..o }),
        parsed(seq!["--help"@] + rest, o) == parsed(rest, OptionsView { help: true, ..o }),
        parsed(seq!["--sweep"@] + rest, o) == parsed(rest, OptionsView { sweep: true, ..o }),
        parsed(seq!["--trace"@] + rest, o) == parsed(rest, OptionsView { trace: true, ..o }),
        parsed(seq!["--db"@, value] + rest, o) == parsed(
            rest,
            OptionsView { db: Some(value), ..o },
        ),
        parsed(seq!["--db"@], o) is Err,
        value == "local"@ || value == "shared"@ ==> parsed(seq!["--library"@, value] + rest, o)
            == parsed(rest, OptionsView { library: Some(value), ..o }),
        value != "local"@ && value != "shared"@ ==> parsed(
            seq!["--library"@, value] + rest,
            o,
        ) is Err,
        parsed(seq!["--library"@], o) is Err,
        plain_word(value) && o.filter is None ==> parsed(seq![value] + rest, o) == parsed(
            rest,
            OptionsView { filter: Some(value), ..o },
        ),
        plain_word(value) && o.filter is Some ==> parsed(seq![value] + rest, o) is Err,
{
    option_words();
    let a = |w: Seq<char>| (seq![w] + rest).skip(1);
    assert(a("-h"@) =~= rest);
    assert(a("--help"@) =~= rest);
    assert(a("--sweep"@) =~= rest);
    assert(a("--trace"@) =~= rest);
    assert(a(value) =~= rest);
    assert((seq!["--db"@, value] + rest).skip(2) =~= rest);
    assert((seq!["--library"@, value] + rest).skip(2) =~= rest);
}

/// Whether an argument is no flag.
pub open spec fn plain_word(a: Seq<char>) -> bool {
    a != "-h"@ && (a.len() < 2 || a[0] != '-' || a[1] != '-')
}

/// The words of options differ, and most of them are flags.
proof fn option_words()
    ensures
        "-h"@.len() == 2 && "--help"@.len() == 6 && "--sweep"@.len() == 7 && "--trace"@.len() == 7,
        "--db"@.len() == 4 && "--library"@.len() == 9 && "--file"@.len() == 6,
        "--limit"@.len() == 7,
        "--sweep"@[2] == 's' && "--trace"@[2] == 't' && "--limit"@[2] == 'l',
        "--help"@[2] == 'h' && "--file"@[2] == 'f',
        forall|w: Seq<char>|
            (w == "--help"@ || w == "--sweep"@ || w == "--trace"@ || w == "--db"@ || w
                == "--library"@ || w == "--file"@ || w == "--limit"@) ==> #[trigger] w[0] == '-'
                && w[1] == '-',
{
    reveal_strlit("-h");
    reveal_strlit("--help");
    reveal_strlit("--sweep");
    reveal_strlit("--trace");
    reveal_strlit("--db");
    reveal_strlit("--library");
    reveal_strlit("--file");
    reveal_strlit("--limit");
}

/// Every option of a dump counts wherever it stands; a limit of zero is none.
pub proof fn dump_options_are_taken_one_by_one(
    rest: Seq<Seq<char>>,
    value: Seq<char>,
    n: nat,
    o: DumpView,
)
    requires
        n <= usize::MAX,
    ensures
        dump_parsed(Seq::empty(), o) == Ok::<DumpView, Seq<char>>(o),
        dump_parsed(seq!["-h"@] + rest, o) == dump_parsed(rest, DumpView { help: true, ..o }),
        dump_parsed(seq!["--help"@] + rest, o) == dump_parsed(rest, DumpView { help: true, ..o }),
        dump_parsed(seq!["--db"@, value] + rest, o) == dump_parsed(
            rest,
            DumpView { db: Some(value), ..o },
        ),
        dump_parsed(seq!["--file"@, value] + rest, o) == dump_parsed(
            rest,
            DumpView { file: Some(value), ..o },
        ),
        value == "local"@ || value == "shared"@ ==> dump_parsed(
            seq!["--library"@, value] + rest,
            o,
        ) == dump_parsed(rest, DumpView { library: Some(value), ..o }),
        dump_parsed(seq!["--limit"@, decimal(n)] + rest, o) == dump_parsed(
            rest,
            DumpView {
                limit: if n == 0 {
                    None
                } else {
                    Some(n as int)
                },
                ..o
            },
        ),
        plain_word(value) && o.filter is None ==> dump_parsed(seq![value] + rest, o)
            == dump_parsed(rest, DumpView { filter: Some(value), ..o }),
        plain_word(value) && o.filter is Some ==> dump_parsed(seq![value] + rest, o) is Err,
{
    option_words();
    numerals_are_parsed(n);
    assert(crate::numerals::unsigned_value(decimal(n), usize::MAX as int) == Some(n as int));
    let a = |w: Seq<char>| (seq![w] + rest).skip(1);
    assert(a("-h"@) =~= rest);
    assert(a("--help"@) =~= rest);
    assert(a(value) =~= rest);
    assert((seq!["--db"@, value] + rest).skip(2) =~= rest);
    assert((seq!["--file"@, value] + rest).skip(2) =~= rest);
    assert((seq!["--library"@, value] + rest).skip(2) =~= rest);
    assert((seq!["--limit"@, decimal(n)] + rest).skip(2) =~= rest);
}

/// The tools look for the store where the platform says, else in the home folder.
pub proof fn the_store_is_looked_for_at_home(
    xdg: Option<Seq<char>>,
    home: Option<Seq<char>>,
)
    ensures
        xdg is Some ==> data_root(xdg, home) == xdg,
        xdg is None && home is Some ==> data_root(xdg, home) == Some(
            joined(joined(home->0, ".local"@), "share"@),
        ),
        xdg is None && home is None ==> data_root(xdg, home) is None,
        no_options().db is None && no_options().library is None && no_options().filter is None,
        !no_options().sweep && !no_options().trace && !no_options().help,
        no_dump_options().limit is None && no_dump_options().file is None,
{
}

/// A waveform is told in full or not at all: every element between the brackets, or none
/// where one of them is no number; and none where nothing is kept.
pub proof fn waveforms_are_told_in_full_or_not_at_all(text: Seq<char>)
    ensures
        peaks_of(None).len() == 0,
        peaks_of(Some(text)).len() == 0 || peaks_of(Some(text)).len() == pieces(
            trimmed(text).subrange(1, trimmed(text).len() - 1),
            ',',
        ).len(),
        trimmed(text).len() > 0 && trimmed(text)[0] != '[' ==> peaks_of(Some(text)).len() == 0,
        trimmed(text).len() > 0 && trimmed(text).last() != ']' ==> peaks_of(Some(text)).len() == 0,
        forall|i: int|
            0 <= i < peaks_of(Some(text)).len() ==> float_text(#[trigger] peaks_of(Some(text))[i]),
{
}

/// Digits run on to where they end.
proof fn digits_run_on(s: Seq<char>, i: int, j: int)
    requires
        0 <= i <= j <= s.len(),
        forall|k: int| i <= k < j ==> is_digit(#[trigger] s[k]),
        j < s.len() ==> !is_digit(s[j]),
    ensures
        digits_end(s, i) == j,
    decreases j - i,
{
    if i < j {
        assert(is_digit(s[i]));
        digits_run_on(s, i + 1, j);
    }
}

/// Whole numbers, and numbers with digits behind a point, count as numbers, with a minus
/// sign in front too.
pub proof fn written_numbers_are_numbers(whole: Seq<char>, fraction: Seq<char>)
    requires
        crate::laws::exporting::digit_run(whole),
        crate::laws::exporting::digit_run(fraction),
    ensures
        float_text(whole),
        float_text(whole.push('.') + fraction),
        float_text(seq!['-'] + whole),
        float_text(seq!['-'] + (whole.push('.') + fraction)),
{
    let p = whole.push('.') + fraction;
    let a = seq!['-'] + whole;
    let b = seq!['-'] + p;
    let n = whole.len() as int;
    assert forall|k: int| 0 <= k < n implies is_digit(#[trigger] whole[k]) by {
        assert('0' <= whole[k] <= '9');
    }
    assert forall|k: int| 0 <= k < fraction.len() implies is_digit(#[trigger] fraction[k]) by {
        assert('0' <= fraction[k] <= '9');
    }
    digits_run_on(whole, 0, n);
    digits_run_on(a, 1, n + 1);
    assert(p[n] == '.');
    digits_run_on(p, 0, n);
    assert forall|k: int| n + 1 <= k < p.len() implies is_digit(#[trigger] p[k]) by {
        assert(p[k] == fraction[k - n - 1]);
    }
    digits_run_on(p, n + 1, p.len() as int);
    assert(b[n + 1] == '.');
    assert forall|k: int| 1 <= k < n + 1 implies is_digit(#[trigger] b[k]) by {
        assert(b[k] == whole[k - 1]);
    }
    digits_run_on(b, 1, n + 1);
    assert forall|k: int| n + 2 <= k < b.len() implies is_digit(#[trigger] b[k]) by {
        assert(b[k] == fraction[k - n - 2]);
    }
    digits_run_on(b, n + 2, b.len() as int);
    assert(is_digit(whole[0]));
    assert(p[0] == whole[0]);
}

} // verus!
