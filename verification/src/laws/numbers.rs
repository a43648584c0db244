//! Numbers: what is written is read, and what is read is what the digits say.
use vstd::prelude::*;

use crate::capture_day::digit_value;
use crate::laws::exporting::{digit_run, number_read, numerals_read_back};
use crate::numerals::{all_digits, digits_value, signed_value, unsigned_value};
use crate::text::{blank, decimal, signed_decimal, strip_back, strip_front, trimmed, whitespace};
use crate::waveform::is_digit;

verus! {

/// Digits are parsed as the number that they are read as.
pub proof fn digits_are_parsed(s: Seq<char>)
    requires
        digit_run(s),
    ensures
        all_digits(s),
        digits_value(s) == number_read(s),
        number_read(s) >= 0,
    decreases s.len(),
{
    let t = s.drop_last();
    assert('0' <= s[s.len() - 1] <= '9');
    assert(digit_value(s.last()) == s.last() as int - '0' as int);
    assert forall|i: int| 0 <= i < s.len() implies is_digit(#[trigger] s[i]) by {
        assert('0' <= s[i] <= '9');
    }
    if t.len() > 0 {
        assert forall|i: int| 0 <= i < t.len() implies '0' <= #[trigger] t[i] <= '9' by {
            assert(t[i] == s[i]);
        }
        digits_are_parsed(t);
    } else {
        assert(digits_value(t) == 0 && number_read(t) == 0);
    }
}

/// A numeral is parsed as its number where that is in range, with white space around it
/// or a plus sign in front of it too.
pub proof fn numerals_are_parsed(n: nat)
    ensures
        trimmed(decimal(n)) == decimal(n),
        forall|max: int| #[trigger] unsigned_value(decimal(n), max) == (if n <= max {
            Some(n as int)
        } else {
            None
        }),
        forall|max: int| #[trigger] unsigned_value(seq!['+'] + decimal(n), max) == (if n <= max {
            Some(n as int)
        } else {
            None
        }),
        n <= i64::MAX ==> signed_value(decimal(n)) == Some(n as int),
{
    numerals_read_back(n);
    digits_are_parsed(decimal(n));
    let d = decimal(n);
    assert('0' <= d[0] <= '9');
    assert('0' <= d[d.len() - 1] <= '9');
    assert(!whitespace(d[0]));
    assert(!whitespace(d.last()));
    assert(strip_front(d, blank()) == d);
    assert(strip_back(d, blank()) == d);
    assert((seq!['+'] + d).skip(1) =~= d);
}

/// What is parsed is what the digits say, behind at most one plus sign.
pub proof fn parsed_numbers_are_digits(s: Seq<char>, max: int)
    ensures
        unsigned_value(s, max) matches Some(v) ==> {
            let t = if s[0] == '+' {
                s.skip(1)
            } else {
                s
            };
            digit_run(t) && v == number_read(t) && 0 <= v <= max
        },
{
    if unsigned_value(s, max) is Some {
        let t = if s[0] == '+' {
            s.skip(1)
        } else {
            s
        };
        assert forall|i: int| 0 <= i < t.len() implies '0' <= #[trigger] t[i] <= '9' by {
            assert(is_digit(t[i]));
        }
        digits_are_parsed(t);
    }
}

/// A number with a sign is parsed as itself, in the whole range.
pub proof fn signed_numerals_are_parsed(n: int)
    requires
        i64::MIN <= n <= i64::MAX,
    ensures
        signed_value(signed_decimal(n)) == Some(n),
{
    if n < 0 {
        numerals_read_back((-n) as nat);
        digits_are_parsed(decimal((-n) as nat));
        assert(signed_decimal(n).skip(1) =~= decimal((-n) as nat));
    } else {
        numerals_are_parsed(n as nat);
    }
}

} // verus!
