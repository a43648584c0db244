//! Days: numbers and dates correspond, in order, and so do their texts. And what the
//! re-dating of a recording does to its session.
use vstd::prelude::*;

use crate::annotations::session_with;
use crate::capture_day::{
    civil_date, date_exists, date_text, dated, day_in_year, day_number, day_number_injective,
    day_of_moment, days_before_month, derived_day, iso_day, leap, month_length, month_offsets,
    padded, refined, valid_date, year_step, years_ascend, ymd_text,
};
use crate::grouping::{other_sessions, session_id_on, session_is_there, with_session};
use crate::laws::exporting::{digit_run, number_read};
use crate::media::CaptureDateView;
use crate::store::{
    next_session, recording_with, recordings_in, session_on, RecordingView, StoreView,
};
use crate::table::{any, any_filtered, first, first_found, first_is};
use crate::text::{decimal, digit, text_before};

verus! {

/// The day behind a date in the calendar.
pub open spec fn next_date(y: int, m: int, d: int) -> (int, int, int) {
    if d < month_length(y, m) {
        (y, m, d + 1)
    } else if m < 12 {
        (y, m + 1, 1)
    } else {
        (y + 1, 1, 1)
    }
}

/// The last month of a year starts behind the others.
proof fn december(y: int)
    ensures
        days_before_month(y, 12) == 334 + (if leap(y) {
            1int
        } else {
            0int
        }),
{
    month_offsets(y);
}

/// The next day of the calendar has the next number.
proof fn next_date_is_next(y: int, m: int, d: int)
    requires
        valid_date(y, m, d),
    ensures
        ({
            let (y1, m1, d1) = next_date(y, m, d);
            valid_date(y1, m1, d1) && day_number(y1, m1, d1) == day_number(y, m, d) + 1
        }),
{
    if d == month_length(y, m) {
        if m < 12 {
            assert(days_before_month(y, m + 1) == days_before_month(y, m) + month_length(y, m));
        } else {
            december(y);
            year_step(y);
            assert(days_before_month(y + 1, 1) == 0);
        }
    }
}

/// The next day number is the next day of the calendar.
pub proof fn next_number_is_next_day(days: int)
    ensures
        ({
            let (y, m, d) = civil_date(days);
            civil_date(days + 1) == next_date(y, m, d)
        }),
{
    let (y, m, d) = civil_date(days);
    let (y1, m1, d1) = next_date(y, m, d);
    let (y2, m2, d2) = civil_date(days + 1);
    date_exists(days);
    date_exists(days + 1);
    next_date_is_next(y, m, d);
    day_number_injective(y1, m1, d1, y2, m2, d2);
}

/// Whether a date comes before another: by the year, then the month, then the day.
pub open spec fn earlier(a: (int, int, int), b: (int, int, int)) -> bool {
    if a.0 != b.0 {
        a.0 < b.0
    } else if a.1 != b.1 {
        a.1 < b.1
    } else {
        a.2 < b.2
    }
}

/// Earlier months of a year start earlier.
proof fn months_ascend(y: int, a: int, b: int)
    requires
        1 <= a < b,
    ensures
        days_before_month(y, a) + month_length(y, a) <= days_before_month(y, b),
    decreases b - a,
{
    if a + 1 < b {
        months_ascend(y, a, b - 1);
    }
}

/// A smaller day number is an earlier date.
pub proof fn dates_ascend(a: int, b: int)
    requires
        a < b,
    ensures
        earlier(civil_date(a), civil_date(b)),
{
    let (y, m, d) = civil_date(a);
    let (y2, m2, d2) = civil_date(b);
    date_exists(a);
    date_exists(b);
    day_in_year(y, m, d);
    day_in_year(y2, m2, d2);
    if y2 < y {
        years_ascend(y2 + 1, y);
    } else if y == y2 && m2 < m {
        months_ascend(y, m2, m);
    }
}

/// A number below a hundred in two digits.
proof fn two_places(n: int)
    requires
        0 <= n < 100,
    ensures
        padded(n, 2) == seq![digit(n / 10), digit(n % 10)],
{
    reveal_with_fuel(decimal, 3);
    if n < 10 {
        assert(padded(n, 2) =~= seq![digit(n / 10), digit(n % 10)]);
    } else {
        assert(decimal(n as nat) =~= seq![digit(n / 10), digit(n % 10)]);
        assert(padded(n, 2) =~= seq![digit(n / 10), digit(n % 10)]);
    }
}

/// A number below ten thousand in four digits.
proof fn four_places(n: int)
    requires
        0 <= n < 10_000,
    ensures
        padded(n, 4) == seq![
            digit(n / 1000),
            digit(n / 100 % 10),
            digit(n / 10 % 10),
            digit(n % 10),
        ],
{
    reveal_with_fuel(decimal, 5);
    let w = seq![digit(n / 1000), digit(n / 100 % 10), digit(n / 10 % 10), digit(n % 10)];
    let t = decimal(n as nat);
    if n < 10 {
        assert(t =~= seq![digit(n % 10)]);
    } else if n < 100 {
        assert(t =~= seq![digit(n / 10 % 10), digit(n % 10)]);
    } else if n < 1000 {
        assert((n / 10) / 10 == n / 100);
        assert(t =~= seq![digit(n / 100 % 10), digit(n / 10 % 10), digit(n % 10)]);
    } else {
        assert((n / 10) / 10 == n / 100);
        assert((n / 100) / 10 == n / 1000);
        assert(t =~= w);
    }
    assert(padded(n, 4) =~= w);
}

/// Texts are ordered by the first character that differs.
proof fn first_difference(a: Seq<char>, b: Seq<char>, k: int)
    requires
        0 <= k < a.len(),
        k < b.len(),
        forall|i: int| 0 <= i < k ==> a[i] == b[i],
        (a[k] as int) < (b[k] as int),
    ensures
        text_before(a, b),
    decreases k,
{
    if k > 0 {
        assert(a[0] == b[0]);
        assert forall|i: int| 0 <= i < k - 1 implies a.drop_first()[i] == b.drop_first()[i] by {
            assert(a[i + 1] == b[i + 1]);
        }
        first_difference(a.drop_first(), b.drop_first(), k - 1);
    }
}

/// Greater digits are later characters.
proof fn digits_ascend(a: int, b: int)
    requires
        0 <= a < b <= 9,
    ensures
        (digit(a) as int) < (digit(b) as int),
{
}

/// A number below ten thousand by its digits.
proof fn by_digits(a: int)
    requires
        0 <= a < 10_000,
    ensures
        0 <= a / 1000 <= 9,
        a / 100 == 10 * (a / 1000) + a / 100 % 10,
        a / 10 == 10 * (a / 100) + a / 10 % 10,
        a == 10 * (a / 10) + a % 10,
{
    assert(a / 100 / 10 == a / 1000);
    assert(a / 10 / 10 == a / 100);
}

/// Quotients of ordered numbers are ordered.
proof fn quotients_ascend(a: int, b: int)
    requires
        0 <= a < b < 10_000,
    ensures
        a / 1000 <= b / 1000,
        a / 100 <= b / 100,
        a / 10 <= b / 10,
{
}

/// Where the numerals of two numbers below ten thousand differ first.
#[verifier::spinoff_prover]
proof fn four_places_differ(a: int, b: int) -> (k: int)
    requires
        0 <= a < b < 10_000,
    ensures
        0 <= k < 4,
        padded(a, 4).len() == 4,
        padded(b, 4).len() == 4,
        forall|i: int| 0 <= i < k ==> padded(a, 4)[i] == padded(b, 4)[i],
        (padded(a, 4)[k] as int) < (padded(b, 4)[k] as int),
{
    four_places(a);
    four_places(b);
    by_digits(a);
    by_digits(b);
    quotients_ascend(a, b);
    if a / 1000 != b / 1000 {
        digits_ascend(a / 1000, b / 1000);
        0
    } else if a / 100 != b / 100 {
        digits_ascend(a / 100 % 10, b / 100 % 10);
        1
    } else if a / 10 != b / 10 {
        digits_ascend(a / 10 % 10, b / 10 % 10);
        2
    } else {
        digits_ascend(a % 10, b % 10);
        3
    }
}

/// Where the numerals of two numbers below a hundred differ first.
proof fn two_places_differ(a: int, b: int) -> (k: int)
    requires
        0 <= a < b < 100,
    ensures
        0 <= k < 2,
        padded(a, 2).len() == 2,
        padded(b, 2).len() == 2,
        forall|i: int| 0 <= i < k ==> padded(a, 2)[i] == padded(b, 2)[i],
        (padded(a, 2)[k] as int) < (padded(b, 2)[k] as int),
{
    two_places(a);
    two_places(b);
    if a / 10 != b / 10 {
        digits_ascend(a / 10, b / 10);
        0
    } else {
        digits_ascend(a % 10, b % 10);
        1
    }
}

/// The texts of two dates are ordered as the dates.
proof fn date_texts_ascend(y: int, m: int, d: int, y2: int, m2: int, d2: int)
    requires
        0 <= y < 10_000,
        0 <= y2 < 10_000,
        0 <= m < 100,
        0 <= m2 < 100,
        0 <= d < 100,
        0 <= d2 < 100,
        earlier((y, m, d), (y2, m2, d2)),
    ensures
        text_before(ymd_text(y, m, d), ymd_text(y2, m2, d2)),
{
    let s = ymd_text(y, m, d);
    let t = ymd_text(y2, m2, d2);
    four_places(y);
    four_places(y2);
    two_places(m);
    two_places(m2);
    two_places(d);
    two_places(d2);
    if y != y2 {
        let k = four_places_differ(y, y2);
        first_difference(s, t, k);
    } else if m != m2 {
        let k = two_places_differ(m, m2);
        first_difference(s, t, 5 + k);
    } else {
        let k = two_places_differ(d, d2);
        first_difference(s, t, 8 + k);
    }
}

/// The texts of dates of the years 0 to 9999 are in the order of their dates, so
/// that the newest day is the last text.
pub proof fn day_texts_ascend(a: int, b: int)
    requires
        a < b,
        0 <= civil_date(a).0,
        civil_date(b).0 <= 9999,
    ensures
        text_before(date_text(a), date_text(b)),
{
    dates_ascend(a, b);
    date_exists(a);
    date_exists(b);
    let (y, m, d) = civil_date(a);
    let (y2, m2, d2) = civil_date(b);
    date_texts_ascend(y, m, d, y2, m2, d2);
}

/// Re-dating a recording puts it into the session of its day in its own library and
/// settles its date; nothing else of it changes, and nothing of the other
/// recordings. The session that it left is gone exactly if it holds no recording
/// any more, and every other session stays.
pub proof fn redating_moves_one_recording(d: StoreView, id: i64, day: Seq<char>, k: int)
    requires
        d.wf(),
        next_session(d.sessions) <= i64::MAX,
        0 <= k < d.recordings.len(),
        d.recordings[k].id == id,
    ensures
        ({
            let n = refined(d, id, day);
            let row = d.recordings[k];
            let session = session_id_on(d.sessions, row.library, day);
            &&& n.recordings == d.recordings.update(
                k,
                RecordingView {
                    capture_day: day,
                    session_id: session,
                    date_state: "refined"@,
                    ..row
                },
            )
            &&& exists|s: int|
                0 <= s < n.sessions.len() && (#[trigger] n.sessions[s]).id == session
                    && n.sessions[s].library == row.library && n.sessions[s].capture_day == day
            &&& n.rallies == d.rallies && n.annotations == d.annotations
            &&& n.libraries == d.libraries && n.meta == d.meta
            &&& row.session_id != session ==> (any(n.sessions, session_with(row.session_id)) <==> any(
                n.recordings,
                recordings_in(row.session_id),
            ))
            &&& forall|s: int|
                0 <= s < d.sessions.len() && (#[trigger] d.sessions[s]).id != row.session_id
                    ==> n.sessions.contains(d.sessions[s])
        }),
{
    let p = recording_with(id);
    let t = d.recordings;
    assert forall|j: int| 0 <= j < k implies !p(#[trigger] t[j]) by {
        assert(t[j].id < t[k].id);
    }
    first_is(t, p, k);
    let row = t[k];
    let session = session_id_on(d.sessions, row.library, day);
    let n = refined(d, id, day);
    let f = dated(day, session);
    assert(n.recordings =~= t.update(k, f(row))) by {
        assert forall|j: int| 0 <= j < t.len() && j != k implies (#[trigger] t[j]).id != id by {
            if j < k {
                assert(t[j].id < t[k].id);
            } else {
                assert(t[k].id < t[j].id);
            }
        }
    }
    let all = with_session(d.sessions, row.library, day);
    let q = session_on(row.library, day);
    session_is_there(d.sessions, row.library, day);
    first_found(all, q);
    let at = choose|s: int| 0 <= s < all.len() && all[s] == first(all, q)->0;
    assert(all[at].id == session && all[at].library == row.library && all[at].capture_day == day);
    let old_id = row.session_id;
    let keep = other_sessions(old_id);
    assert forall|s: int| 0 <= s < d.sessions.len() implies #[trigger] all[s] == d.sessions[s] by {}
    if old_id != session {
        any_filtered(all, keep, session_with(old_id));
        any_filtered(all, keep, session_with(session));
        crate::table::filter_elements(all, keep);
        if any(n.recordings, recordings_in(old_id)) {
            assert(any(d.sessions, crate::store::home_of(d.recordings[k])));
            let s = choose|s: int|
                0 <= s < d.sessions.len() && crate::store::home_of(row)(#[trigger] d.sessions[s]);
            assert(session_with(old_id)(all[s]));
        }
    }
    assert forall|s: int|
        0 <= s < d.sessions.len() && (
        #[trigger] d.sessions[s]).id != old_id implies n.sessions.contains(d.sessions[s]) by {
        assert(all[s] == d.sessions[s]);
        assert(all.contains(all[s]));
    }
    assert(n.sessions.contains(all[at])) by {
        assert(all.contains(all[at]));
    }
    let s = choose|s: int| 0 <= s < n.sessions.len() && n.sessions[s] == all[at];
    assert(n.sessions[s].id == session);
}

/// The days of the months: thirty in April, June, September and November, twenty-nine in
/// the February of a leap year and twenty-eight in that of another, else thirty-one. A
/// year is a leap year where four divides it, but a hundred only with four hundred.
pub proof fn months_have_their_days(y: int, m: int, d: int)
    ensures
        valid_date(y, m, d) <==> {
            &&& 1 <= m <= 12
            &&& d >= 1
            &&& (m == 4 || m == 6 || m == 9 || m == 11) ==> d <= 30
            &&& m == 2 && (y % 400 == 0 || y % 4 == 0 && y % 100 != 0) ==> d <= 29
            &&& m == 2 && !(y % 400 == 0 || y % 4 == 0 && y % 100 != 0) ==> d <= 28
            &&& (m == 1 || m == 3 || m == 5 || m == 7 || m == 8 || m == 10 || m == 12) ==> d <= 31
        },
{
    assert(y % 400 == 0 ==> y % 4 == 0 && y % 100 == 0);
}

/// Days are counted from the first of January 1970.
pub proof fn days_start_in_1970()
    ensures
        civil_date(0) == (1970int, 1int, 1int),
{
    date_exists(0);
    let (y, m, d) = civil_date(0);
    month_offsets(1970);
    assert(day_number(1970, 1, 1) == 0);
    assert(valid_date(1970, 1, 1));
    day_number_injective(y, m, d, 1970, 1, 1);
}

/// Two digits read back.
proof fn two_read(a: int, b: int)
    requires
        0 <= a <= 9,
        0 <= b <= 9,
    ensures
        digit_run(seq![digit(a), digit(b)]),
        number_read(seq![digit(a), digit(b)]) == 10 * a + b,
{
    reveal_with_fuel(number_read, 3);
    let t = seq![digit(a), digit(b)];
    assert(t.drop_last() =~= seq![digit(a)]);
    assert(seq![digit(a)].drop_last() =~= Seq::empty());
    assert('0' <= digit(a) <= '9' && '0' <= digit(b) <= '9');
}

/// Four digits read back.
proof fn four_read(a: int, b: int, c: int, e: int)
    requires
        0 <= a <= 9,
        0 <= b <= 9,
        0 <= c <= 9,
        0 <= e <= 9,
    ensures
        digit_run(seq![digit(a), digit(b), digit(c), digit(e)]),
        number_read(seq![digit(a), digit(b), digit(c), digit(e)]) == 1000 * a + 100 * b + 10 * c
            + e,
{
    let t = seq![digit(a), digit(b), digit(c), digit(e)];
    let u = seq![digit(a), digit(b), digit(c)];
    let v = seq![digit(a), digit(b)];
    two_read(a, b);
    assert(t.drop_last() =~= u);
    assert(u.drop_last() =~= v);
    assert('0' <= digit(c) <= '9' && '0' <= digit(e) <= '9');
    assert('0' <= digit(a) <= '9' && '0' <= digit(b) <= '9');
    assert(number_read(u) == 10 * number_read(v) + c);
    assert(number_read(t) == 10 * number_read(u) + e);
}

/// Whether a text tells a date: four digits of the year, two of the month and two of the
/// day, with dashes between them.
pub open spec fn tells_date(t: Seq<char>, y: int, m: int, d: int) -> bool {
    &&& t.len() == 10
    &&& t[4] == '-' && t[7] == '-'
    &&& digit_run(t.take(4)) && number_read(t.take(4)) == y
    &&& digit_run(t.subrange(5, 7)) && number_read(t.subrange(5, 7)) == m
    &&& digit_run(t.subrange(8, 10)) && number_read(t.subrange(8, 10)) == d
}

/// The text of a date tells that date, in the years of four digits.
pub proof fn date_texts_tell_their_date(y: int, m: int, d: int)
    requires
        0 <= y < 10_000,
        0 <= m < 100,
        0 <= d < 100,
    ensures
        tells_date(ymd_text(y, m, d), y, m, d),
{
    let t = ymd_text(y, m, d);
    four_places(y);
    two_places(m);
    two_places(d);
    by_digits(y);
    four_read(y / 1000, y / 100 % 10, y / 10 % 10, y % 10);
    two_read(m / 10, m % 10);
    two_read(d / 10, d % 10);
    assert(t.take(4) =~= padded(y, 4));
    assert(t.subrange(5, 7) =~= padded(m, 2));
    assert(t.subrange(8, 10) =~= padded(d, 2));
}

/// A moment belongs to the day in whose seconds it lies, counted from the first of
/// January 1970; an earlier one to that day.
pub proof fn moments_belong_to_their_day(seconds: int, days: int)
    ensures
        0 <= days && 86_400 * days <= seconds < 86_400 * (days + 1) ==> day_of_moment(seconds)
            == date_text(days),
        seconds < 0 ==> day_of_moment(seconds) == date_text(0),
{
    if 0 <= days && 86_400 * days <= seconds < 86_400 * (days + 1) {
        assert(seconds / 86_400 == days);
    }
}

/// A timestamp gives a day exactly where it starts with the text of a date from 2000 to
/// 2100 with a month up to 12 and a day up to 31, and gives that text.
pub proof fn timestamps_give_the_date_they_start_with(s: Seq<char>, y: int, m: int, d: int)
    ensures
        s.len() >= 10 && tells_date(s.take(10), y, m, d) ==> iso_day(s) == (if 2000 <= y <= 2100
            && 1 <= m <= 12 && 1 <= d <= 31 {
            Some(s.take(10))
        } else {
            None
        }),
        iso_day(s) is Some ==> s.len() >= 10 && exists|y: int, m: int, d: int|
            tells_date(s.take(10), y, m, d),
{
    let t = s.take(10);
    if s.len() >= 10 {
        let (a, b, c) = (t.take(4), t.subrange(5, 7), t.subrange(8, 10));
        assert(a[0] == s[0] && a[1] == s[1] && a[2] == s[2] && a[3] == s[3]);
        assert(b[0] == s[5] && b[1] == s[6]);
        assert(c[0] == s[8] && c[1] == s[9]);
        read_out(a);
        read_out(b);
        read_out(c);
        if iso_day(s) is Some {
            assert(t[4] == s[4] && t[7] == s[7]);
            assert(tells_date(t, number_read(a), number_read(b), number_read(c)));
        }
    }
}

/// A short run of digits, read out.
proof fn read_out(t: Seq<char>)
    ensures
        t.len() == 2 ==> number_read(t) == 10 * (t[0] as int - '0' as int) + (t[1] as int
            - '0' as int),
        t.len() == 4 ==> number_read(t) == 1000 * (t[0] as int - '0' as int) + 100 * (t[1] as int
            - '0' as int) + 10 * (t[2] as int - '0' as int) + (t[3] as int - '0' as int),
{
    reveal_with_fuel(number_read, 5);
    if t.len() == 2 {
        assert(t.drop_last().drop_last() =~= Seq::empty());
    }
    if t.len() == 4 {
        assert(t.drop_last().drop_last().drop_last().drop_last() =~= Seq::empty());
    }
}

/// The day of a recording is that of the camera's local date where it gives one, else
/// that of its creation time where it gives one, else that of the file's modification.
pub proof fn cameras_are_believed_before_files(
    local: Option<Seq<char>>,
    created: Option<Seq<char>>,
    modified: int,
    y: int,
    m: int,
    d: int,
    rest: Seq<char>,
)
    requires
        2000 <= y <= 2100,
        1 <= m <= 12,
        1 <= d <= 31,
    ensures
        ({
            let stamp = Some(ymd_text(y, m, d) + rest);
            let day = |l: Option<Seq<char>>, c: Option<Seq<char>>|
                derived_day(
                    CaptureDateView { quicktime_creationdate: l, creation_time: c },
                    modified,
                );
            &&& day(stamp, created) == ymd_text(y, m, d)
            &&& day(None, stamp) == ymd_text(y, m, d)
            &&& day(None, None) == day_of_moment(modified)
            &&& local is Some && iso_day(local->0) is None ==> day(local, created) == day(
                None,
                created,
            )
            &&& created is Some && iso_day(created->0) is None ==> day(None, created) == day(
                None,
                None,
            )
        }),
{
    let t = ymd_text(y, m, d);
    date_texts_tell_their_date(y, m, d);
    assert((t + rest).take(10) =~= t);
    timestamps_give_the_date_they_start_with(t + rest, y, m, d);
}

} // verus!
