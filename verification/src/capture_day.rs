//! Deriving a recording's session day: the embedded capture date, falling back
//! to the file's modification time.
use vstd::prelude::*;
use vstd::string::*;

use crate::grouping::{
    amend, collect_session, ensure_session, find_id, session_id_on, with_session, without_empty,
};
use crate::media::{CaptureDate, CaptureDateView};
use crate::store::{next_session, recording_with, RecordingRow, RecordingView, Store, StoreView};
use crate::table::{first, rewrite, Row};
use crate::text::{chars_of, decimal, decimal_text, string_of};
use crate::waveform::is_digit;

verus! {

/// Whether a year of the Gregorian calendar is a leap year.
pub open spec fn leap(y: int) -> bool {
    y % 4 == 0 && (y % 100 != 0 || y % 400 == 0)
}

/// The number of days of a month.
pub open spec fn month_length(y: int, m: int) -> int {
    if m == 2 {
        if leap(y) {
            29
        } else {
            28
        }
    } else if m == 4 || m == 6 || m == 9 || m == 11 {
        30
    } else {
        31
    }
}

/// The number of days of a year before the first of a month.
pub open spec fn days_before_month(y: int, m: int) -> int
    decreases m,
{
    if m <= 1 {
        0
    } else {
        days_before_month(y, m - 1) + month_length(y, m - 1)
    }
}

/// The number of days from the first of January of year 0 to that of year `y`.
pub open spec fn days_to_year(y: int) -> int {
    365 * y + (y + 3) / 4 - (y + 99) / 100 + (y + 399) / 400
}

/// Whether year, month and day name a day of the Gregorian calendar.
pub open spec fn valid_date(y: int, m: int, d: int) -> bool {
    1 <= m <= 12 && 1 <= d <= month_length(y, m)
}

/// The number of days from 1970-01-01 to a date.
pub open spec fn day_number(y: int, m: int, d: int) -> int {
    days_to_year(y) + days_before_month(y, m) + d - 1 - 719_528
}

/// Days of the year before the first of each month.
pub proof fn month_offsets(y: int)
    ensures
        days_before_month(y, 1) == 0,
        days_before_month(y, 2) == 31,
        days_before_month(y, 3) == 59 + (if leap(y) {
            1int
        } else {
            0int
        }),
        forall|m: int|
            3 <= m <= 12 ==> #[trigger] days_before_month(y, m) == 59 + (if leap(y) {
                1int
            } else {
                0int
            }) + (153 * (m - 3) + 2) / 5,
{
    reveal_with_fuel(days_before_month, 13);
}

/// The year within a 400-year cycle that starts in March, from the day in it.
proof fn year_of_era(doe: int)
    requires
        0 <= doe <= 146_096,
    ensures
        ({
            let yoe = (doe - doe / 1460 + doe / 36524 - doe / 146_096) / 365;
            &&& 0 <= yoe <= 399
            &&& 0 <= doe - (365 * yoe + yoe / 4 - yoe / 100) <= 364 + (if leap(yoe + 1) {
                1int
            } else {
                0int
            })
        }),
{
}

/// A year is as long as its days.
pub proof fn year_step(y: int)
    ensures
        days_to_year(y + 1) == days_to_year(y) + 365 + (if leap(y) {
            1int
        } else {
            0int
        }),
{
}

/// A date lies in its year.
pub proof fn day_in_year(y: int, m: int, d: int)
    requires
        valid_date(y, m, d),
    ensures
        days_to_year(y) <= day_number(y, m, d) + 719_528 < days_to_year(y + 1),
{
    month_offsets(y);
    year_step(y);
}

/// Later years start later.
pub proof fn years_ascend(a: int, b: int)
    requires
        a <= b,
    ensures
        days_to_year(a) <= days_to_year(b),
    decreases b - a,
{
    if a < b {
        years_ascend(a, b - 1);
        year_step(b - 1);
    }
}

/// Two dates with one day number are one date.
pub proof fn day_number_injective(y: int, m: int, d: int, y2: int, m2: int, d2: int)
    requires
        valid_date(y, m, d),
        valid_date(y2, m2, d2),
        day_number(y, m, d) == day_number(y2, m2, d2),
    ensures
        y == y2 && m == m2 && d == d2,
{
    day_in_year(y, m, d);
    day_in_year(y2, m2, d2);
    if y < y2 {
        years_ascend(y + 1, y2);
    }
    if y2 < y {
        years_ascend(y2 + 1, y);
    }
    month_offsets(y);
}

/// The date with a day number.
pub open spec fn civil_date(days: int) -> (int, int, int) {
    choose|y: int, m: int, d: int| valid_date(y, m, d) && #[trigger] day_number(y, m, d) == days
}

/// Every day number is that of a date.
pub proof fn date_exists(days: int)
    ensures
        ({
            let (y, m, d) = civil_date(days);
            valid_date(y, m, d) && day_number(y, m, d) == days
        }),
{
    let z = days + 719_468;
    let era = z / 146_097;
    let doe = z - 146_097 * era;
    assert(0 <= doe <= 146_096);
    let yoe = (doe - doe / 1460 + doe / 36524 - doe / 146_096) / 365;
    let doy = doe - (365 * yoe + yoe / 4 - yoe / 100);
    date_of_day(days, era, doe, yoe, doy);
    let year = yoe + 400 * era;
    let mp = (5 * doy + 2) / 153;
    let d = doy - (153 * mp + 2) / 5 + 1;
    let m = if mp < 10 {
        mp + 3
    } else {
        mp - 9
    };
    let y = if m <= 2 {
        year + 1
    } else {
        year
    };
    assert(valid_date(y, m, d) && day_number(y, m, d) == days);
}

/// `n` zeros.
pub open spec fn zeros(n: int) -> Seq<char> {
    Seq::new(
        if n < 0 {
            0
        } else {
            n as nat
        },
        |i: int| '0',
    )
}

/// A number with leading zeros up to a width, the sign counted in.
pub open spec fn padded(n: int, width: int) -> Seq<char> {
    if n < 0 {
        seq!['-'] + zeros(width - 1 - decimal((-n) as nat).len()) + decimal((-n) as nat)
    } else {
        zeros(width - decimal(n as nat).len()) + decimal(n as nat)
    }
}

/// A date as `YYYY-MM-DD`.
pub open spec fn ymd_text(y: int, m: int, d: int) -> Seq<char> {
    padded(y, 4) + seq!['-'] + padded(m, 2) + seq!['-'] + padded(d, 2)
}

/// The date with a day number as `YYYY-MM-DD`.
pub open spec fn date_text(days: int) -> Seq<char> {
    let (y, m, d) = civil_date(days);
    ymd_text(y, m, d)
}

/// Append a number with leading zeros up to a width.
fn push_padded(out: &mut String, n: i64, width: usize)
    requires
        1 <= width <= 4,
    ensures
        final(out)@ == old(out)@ + padded(n as int, width as int),
{
    let ghost start = out@;
    let room: usize = if n < 0 {
        out.push('-');
        width - 1
    } else {
        width
    };
    let ghost sign = if n < 0 {
        seq!['-']
    } else {
        Seq::empty()
    };
    assert(out@ =~= start + sign);
    let m: u128 = if n < 0 {
        (-(n as i128)) as u128
    } else {
        n as u128
    };
    let digits = decimal_text(m);
    let have: usize = chars_of(&digits).len();
    let mut k: usize = have;
    while k < room
        invariant
            have <= k,
            k <= room || k == have,
            out@ == start + sign + zeros(k - have),
        decreases room - k,
    {
        out.push('0');
        assert(start + sign + zeros(k + 1 - have) =~= (start + sign + zeros(k - have)).push('0'));
        k += 1;
    }
    out.append(&digits);
    assert(zeros(k - have) =~= zeros(room - have));
    assert(out@ =~= start + padded(n as int, width as int));
}

/// The date that is `days` days after 1970-01-01, as `YYYY-MM-DD`.
#[verifier::spinoff_prover]
#[verifier::rlimit(40)]
pub fn days_to_ymd(days: i64) -> (r: String)
    requires
        days <= i64::MAX - 719_468,
    ensures
        r@ == date_text(days as int),
        exists|y: int, m: int, d: int|
            valid_date(y, m, d) && #[trigger] day_number(y, m, d) == days && r@ == ymd_text(
                y,
                m,
                d,
            ),
{
    let z: i64 = days + 719_468;
    let era: i64 = if z >= 0 {
        z / 146_097
    } else {
        -((146_096 - z) / 146_097)
    };
    assert(era == (z as int) / 146_097);
    let doe: i64 = z - era * 146_097;
    assert(0 <= doe <= 146_096);
    let yoe: i64 = (doe - doe / 1460 + doe / 36524 - doe / 146_096) / 365;
    proof {
        year_of_era(doe as int);
    }
    let year: i64 = yoe + era * 400;
    let doy: i64 = doe - (365 * yoe + yoe / 4 - yoe / 100);
    let mp: i64 = (5 * doy + 2) / 153;
    let d: i64 = doy - (153 * mp + 2) / 5 + 1;
    let m: i64 = if mp < 10 {
        mp + 3
    } else {
        mp - 9
    };
    let y: i64 = if m <= 2 {
        year + 1
    } else {
        year
    };
    proof {
        date_of_day(days as int, era as int, doe as int, yoe as int, doy as int);
        let (cy, cm, cd) = civil_date(days as int);
        day_number_injective(y as int, m as int, d as int, cy, cm, cd);
    }
    let mut out = String::new();
    push_padded(&mut out, y, 4);
    out.push('-');
    push_padded(&mut out, m, 2);
    out.push('-');
    push_padded(&mut out, d, 2);
    assert(out@ =~= ymd_text(y as int, m as int, d as int));
    out
}

/// The month and the day in it, from the day of a year that starts in March.
proof fn month_of_day(year: int, doy: int)
    requires
        0 <= doy <= 364 + (if leap(year + 1) {
            1int
        } else {
            0int
        }),
    ensures
        ({
            let mp = (5 * doy + 2) / 153;
            let d = doy - (153 * mp + 2) / 5 + 1;
            let m = if mp < 10 {
                mp + 3
            } else {
                mp - 9
            };
            let y = if m <= 2 {
                year + 1
            } else {
                year
            };
            &&& 0 <= mp <= 11
            &&& valid_date(y, m, d)
        }),
{
}

/// The date computed for a day has its day number.
proof fn date_of_day(days: int, era: int, doe: int, yoe: int, doy: int)
    requires
        days + 719_468 == 146_097 * era + doe,
        0 <= doe <= 146_096,
        yoe == (doe - doe / 1460 + doe / 36524 - doe / 146_096) / 365,
        doy == doe - (365 * yoe + yoe / 4 - yoe / 100),
    ensures
        ({
            let year = yoe + 400 * era;
            let mp = (5 * doy + 2) / 153;
            let d = doy - (153 * mp + 2) / 5 + 1;
            let m = if mp < 10 {
                mp + 3
            } else {
                mp - 9
            };
            let y = if m <= 2 {
                year + 1
            } else {
                year
            };
            &&& valid_date(y, m, d)
            &&& day_number(y, m, d) == days
        }),
{
    let year = yoe + 400 * era;
    year_of_era(doe);
    leap_in_cycle(yoe + 1, era);
    march_cycle(yoe, era);
    month_of_day(year, doy);
    number_of_month(year, doy);
}

/// Days from the first of March of year 0 to that of a year.
#[verifier::opaque]
spec fn march_days(year: int) -> int {
    365 * year + year / 4 - year / 100 + year / 400
}

/// The day number of the date of a day of a year that starts in March.
proof fn number_of_month(year: int, doy: int)
    requires
        0 <= doy <= 365,
    ensures
        ({
            let mp = (5 * doy + 2) / 153;
            let d = doy - (153 * mp + 2) / 5 + 1;
            let m = if mp < 10 {
                mp + 3
            } else {
                mp - 9
            };
            let y = if m <= 2 {
                year + 1
            } else {
                year
            };
            day_number(y, m, d) == march_days(year) + doy - 719_468
        }),
{
    let mp = (5 * doy + 2) / 153;
    assert(0 <= mp <= 11);
    march_year(year);
    if mp < 10 {
        month_offsets(year);
        assert(days_before_month(year, mp + 3) == 59 + (if leap(year) {
            1int
        } else {
            0int
        }) + (153 * mp + 2) / 5);
    } else {
        month_offsets(year + 1);
    }
}

/// Days up to March of a year and up to the next year.
proof fn march_year(year: int)
    ensures
        days_to_year(year) + (if leap(year) {
            1int
        } else {
            0int
        }) == march_days(year) + 1,
        days_to_year(year + 1) == march_days(year) + 366,
{
    reveal(march_days);
    rounded_up(year, 4);
    rounded_up(year, 100);
    rounded_up(year, 400);
    next_quotients(year);
    divisors_nest(year);
}

/// What 400 divides 100 divides, and what 100 divides 4 divides.
proof fn divisors_nest(year: int)
    ensures
        year % 400 == 0 ==> year % 100 == 0,
        year % 100 == 0 ==> year % 4 == 0,
{
}

/// Quotients one step further.
proof fn next_quotients(year: int)
    ensures
        (year + 4) / 4 == year / 4 + 1,
        (year + 100) / 100 == year / 100 + 1,
        (year + 400) / 400 == year / 400 + 1,
{
}

/// Dividing by 4, 100 or 400 and rounding up.
proof fn rounded_up(year: int, n: int)
    requires
        n == 4 || n == 100 || n == 400,
    ensures
        n == 4 ==> (year + 3) / 4 == year / 4 + (if year % 4 == 0 {
            0int
        } else {
            1int
        }),
        n == 100 ==> (year + 99) / 100 == year / 100 + (if year % 100 == 0 {
            0int
        } else {
            1int
        }),
        n == 400 ==> (year + 399) / 400 == year / 400 + (if year % 400 == 0 {
            0int
        } else {
            1int
        }),
{
}

/// Days up to March of a year, over whole cycles and the year in the cycle.
proof fn march_cycle(yoe: int, era: int)
    requires
        0 <= yoe <= 399,
    ensures
        march_days(yoe + 400 * era) == 146_097 * era + 365 * yoe + yoe / 4 - yoe / 100,
{
    reveal(march_days);
    day_of_cycle(yoe + 400 * era, yoe, era);
}

/// Leap years repeat every 400 years.
proof fn leap_in_cycle(y: int, era: int)
    ensures
        leap(y + 400 * era) == leap(y),
{
}

/// Days up to a year that starts in March, over whole cycles and the year in the
/// cycle.
proof fn day_of_cycle(year: int, yoe: int, era: int)
    requires
        0 <= yoe <= 399,
        year == yoe + 400 * era,
    ensures
        365 * year + year / 4 - year / 100 + year / 400 == 146_097 * era + 365 * yoe + yoe / 4
            - yoe / 100,
{
}

/// The number that a digit stands for.
pub open spec fn digit_value(c: char) -> int {
    c as int - '0' as int
}

/// The number that two digits stand for.
pub open spec fn two_digits(a: char, b: char) -> Option<int> {
    if is_digit(a) && is_digit(b) {
        Some(10 * digit_value(a) + digit_value(b))
    } else {
        None
    }
}

/// The number that four digits stand for.
pub open spec fn four_digits(s: Seq<char>) -> int {
    1000 * digit_value(s[0]) + 100 * digit_value(s[1]) + 10 * digit_value(s[2]) + digit_value(s[3])
}

/// Whether a timestamp starts with a plausible `YYYY-MM-DD`: a year from 2000 to
/// 2100, a month from 1 to 12 and a day from 1 to 31.
pub open spec fn plausible_date(s: Seq<char>) -> bool {
    &&& s.len() >= 10
    &&& s[4] == '-' && s[7] == '-'
    &&& is_digit(s[0]) && is_digit(s[1]) && is_digit(s[2]) && is_digit(s[3])
    &&& 2000 <= four_digits(s) <= 2100
    &&& two_digits(s[5], s[6]) matches Some(m) && 1 <= m <= 12
    &&& two_digits(s[8], s[9]) matches Some(d) && 1 <= d <= 31
}

/// The day at the front of a timestamp, if it is plausible.
pub open spec fn iso_day(s: Seq<char>) -> Option<Seq<char>> {
    if plausible_date(s) {
        Some(s.take(10))
    } else {
        None
    }
}

/// Whether a character is a decimal digit.
fn digit_at(v: &Vec<char>, i: usize) -> (r: bool)
    requires
        i < v@.len(),
    ensures
        r == is_digit(v@[i as int]),
{
    '0' <= v[i] && v[i] <= '9'
}

/// The number that a digit stands for.
fn value_of(c: char) -> (r: u32)
    requires
        is_digit(c),
    ensures
        r == digit_value(c),
        r <= 9,
{
    match c {
        '0' => 0,
        '1' => 1,
        '2' => 2,
        '3' => 3,
        '4' => 4,
        '5' => 5,
        '6' => 6,
        '7' => 7,
        '8' => 8,
        _ => 9,
    }
}

/// The number that the characters at `i` and behind it stand for.
fn two_digits_at(v: &Vec<char>, i: usize) -> (r: Option<u32>)
    requires
        i + 1 < v@.len(),
    ensures
        match (r, two_digits(v@[i as int], v@[i + 1])) {
            (Some(a), Some(b)) => a == b,
            (None, None) => true,
            _ => false,
        },
{
    let n: usize = v.len();
    assert(i + 1 < n);
    if digit_at(v, i) && digit_at(v, i + 1) {
        Some(10 * value_of(v[i]) + value_of(v[i + 1]))
    } else {
        None
    }
}

/// Extract a plausible `YYYY-MM-DD` from the front of an ISO-8601-ish timestamp,
/// or `None`, so a garbage tag falls through to the next source.
pub fn day_from_iso(timestamp: &str) -> (r: Option<String>)
    ensures
        r.deep_view() == iso_day(timestamp@),
{
    let b = chars_of(timestamp);
    if b.len() < 10 || b[4] != '-' || b[7] != '-' {
        return None;
    }
    if !(digit_at(&b, 0) && digit_at(&b, 1) && digit_at(&b, 2) && digit_at(&b, 3)) {
        return None;
    }
    let year: u32 = 1000 * value_of(b[0]) + 100 * value_of(b[1]) + 10 * value_of(b[2]) + value_of(
        b[3],
    );
    if year < 2000 || year > 2100 {
        return None;
    }
    let month: u32 = match two_digits_at(&b, 5) {
        Some(m) => m,
        None => {
            return None;
        },
    };
    let day: u32 = match two_digits_at(&b, 8) {
        Some(d) => d,
        None => {
            return None;
        },
    };
    if month < 1 || month > 12 || day < 1 || day > 31 {
        return None;
    }
    let out = string_of(&b, 0, 10);
    assert(out@ =~= timestamp@.take(10));
    Some(out)
}

/// The day of a moment in seconds since 1970-01-01, an earlier moment counting as
/// that day.
pub open spec fn day_of_moment(seconds: int) -> Seq<char> {
    date_text((if seconds < 0 {
        0
    } else {
        seconds
    }) / 86_400)
}

/// Capture day as `YYYY-MM-DD`, from the file's modification time in seconds
/// since 1970-01-01 (UTC).
pub fn capture_day(modified: i64) -> (r: String)
    ensures
        r@ == day_of_moment(modified as int),
{
    let secs: i64 = if modified < 0 {
        0
    } else {
        modified
    };
    days_to_ymd(secs / 86_400)
}

/// The day that an optional tag gives.
pub open spec fn tag_day(tag: Option<Seq<char>>) -> Option<Seq<char>> {
    match tag {
        Some(s) => iso_day(s),
        None => None,
    }
}

/// The session day of a recording: that of the first source that yields a
/// plausible date.
pub open spec fn derived_day(embedded: CaptureDateView, modified: int) -> Seq<char> {
    match tag_day(embedded.quicktime_creationdate) {
        Some(day) => day,
        None => match tag_day(embedded.creation_time) {
            Some(day) => day,
            None => day_of_moment(modified),
        },
    }
}

/// The session capture day for a recording, preferring the date the camera
/// embedded in the file over the file's modification time: the local date with
/// its offset first, then the UTC creation time. A tag that is absent or
/// implausible is skipped.
pub fn derive_capture_day(embedded: &CaptureDate, modified: i64) -> (r: String)
    ensures
        r@ == derived_day(embedded.deep_view(), modified as int),
{
    if let Some(tag) = &embedded.quicktime_creationdate {
        if let Some(day) = day_from_iso(tag) {
            return day;
        }
    }
    if let Some(tag) = &embedded.creation_time {
        if let Some(day) = day_from_iso(tag) {
            return day;
        }
    }
    capture_day(modified)
}

/// A recording re-homed to a day and its session, its date settled.
pub open spec fn dated(day: Seq<char>, session: i64) -> spec_fn(RecordingView) -> RecordingView {
    |r: RecordingView|
        RecordingView {
            capture_day: day,
            session_id: session,
            date_state: "refined"@,
            ..r
        }
}

/// The store after a recording is re-homed to a day of its own library.
pub open spec fn refined(d: StoreView, id: i64, day: Seq<char>) -> StoreView {
    match first(d.recordings, recording_with(id)) {
        Some(row) => {
            let session = session_id_on(d.sessions, row.library, day);
            let recordings = rewrite(d.recordings, recording_with(id), dated(day, session));
            let sessions = with_session(d.sessions, row.library, day);
            StoreView {
                recordings,
                sessions: if row.session_id != session {
                    without_empty(sessions, recordings, row.session_id)
                } else {
                    sessions
                },
                ..d
            }
        },
        None => d,
    }
}

/// Re-derive a recording's capture day from its embedded metadata, falling back
/// to the modification time, and re-home it under the matching session of its
/// library: created if it does not exist, and the previous session collected if
/// this leaves it empty. Its date is then settled. Nothing happens when there is
/// no such recording.
pub fn refine_capture_day(conn: &mut Store, id: i64, embedded: &CaptureDate, modified: i64)
    requires
        next_session(old(conn)@.sessions) <= i64::MAX,
    ensures
        final(conn)@ == refined(
            old(conn)@,
            id,
            derived_day(embedded.deep_view(), modified as int),
        ),
        old(conn)@.wf() ==> final(conn)@.wf(),
{
    proof {
        if conn@.wf() {
            crate::upkeep::refined_wf(
                conn@,
                id,
                derived_day(embedded.deep_view(), modified as int),
            );
        }
    }
    let day = derive_capture_day(embedded, modified);
    let at = match find_id(conn, id) {
        Some(i) => i,
        None => {
            return;
        },
    };
    let old_session = conn.recordings[at].session_id;
    let library = conn.recordings[at].library.clone();
    let session = ensure_session(conn, &library, &day);
    let ghost g = dated(day@, session);
    amend(
        conn,
        id,
        |r: &RecordingRow| -> (n: RecordingRow)
            ensures
                n.deep_view() == g(r.deep_view())
            {
                let mut n = r.dup();
                n.capture_day = day.clone();
                n.session_id = session;
                n.date_state = "refined".to_owned();
                n
            },
        Ghost(g),
    );
    if old_session != session {
        collect_session(conn, old_session);
    }
    assert(conn@ =~= refined(
        old(conn)@,
        id,
        derived_day(embedded.deep_view(), modified as int),
    ));
}

} // verus!
