//! The stored waveform: a bare JSON array of peaks. A peak is kept as the text
//! of its number.
use vstd::prelude::*;
use vstd::string::*;

use crate::text::{
    chars_of, lower_text, lowered, pieces, same, slice_of, split_chars, string_of, trim_chars,
    trimmed,
};

verus! {

/// Whether a character is a decimal digit.
pub open spec fn is_digit(c: char) -> bool {
    '0' <= c <= '9'
}

/// The position behind the run of digits of `s` that starts at `i`.
pub open spec fn digits_end(s: Seq<char>, i: int) -> int
    decreases s.len() - i,
{
    if 0 <= i < s.len() && is_digit(s[i]) {
        digits_end(s, i + 1)
    } else {
        i
    }
}

/// Whether a character is a sign.
pub open spec fn is_sign(c: char) -> bool {
    c == '+' || c == '-'
}

/// Whether `s` is an exponent from position `j` on: `e` or `E`, a sign or none,
/// and at least one digit up to the end.
pub open spec fn exponent_from(s: Seq<char>, j: int) -> bool {
    let k = if j + 1 < s.len() && is_sign(s[j + 1]) {
        j + 2
    } else {
        j + 1
    };
    &&& 0 <= j < s.len()
    &&& s[j] == 'e' || s[j] == 'E'
    &&& k < s.len()
    &&& digits_end(s, k) == s.len()
}

/// Whether `s` from position `i` on is a number without sign: digits with at
/// most one dot among them, at least one digit, and an exponent or none.
pub open spec fn number_from(s: Seq<char>, i: int) -> bool {
    let a = digits_end(s, i);
    let dotted = a < s.len() && s[a] == '.';
    let b = if dotted {
        digits_end(s, a + 1)
    } else {
        a
    };
    &&& a > i || b > a + 1
    &&& b == s.len() || exponent_from(s, b)
}

/// Whether `s` is one of the words for the values that are not numbers, in any
/// case.
pub open spec fn special_word(s: Seq<char>) -> bool {
    lowered(s) == "inf"@ || lowered(s) == "infinity"@ || lowered(s) == "nan"@
}

/// Whether a text is read as a floating-point number.
pub open spec fn float_text(s: Seq<char>) -> bool {
    let i = if s.len() > 0 && is_sign(s[0]) {
        1
    } else {
        0
    };
    special_word(s.skip(i)) || number_from(s, i)
}

/// A text without white space at either end.
pub open spec fn trim_piece() -> spec_fn(Seq<char>) -> Seq<char> {
    |s: Seq<char>| trimmed(s)
}

/// Whether a text stands between brackets.
pub open spec fn bracketed(s: Seq<char>) -> bool {
    s.len() >= 2 && s[0] == '[' && s.last() == ']'
}

/// The elements of an array: the pieces between commas, without white space at
/// their ends.
pub open spec fn elements(s: Seq<char>) -> Seq<Seq<char>> {
    pieces(s.subrange(1, s.len() - 1), ',').map_values(trim_piece())
}

/// Whether every text is read as a floating-point number.
pub open spec fn all_floats(s: Seq<Seq<char>>) -> bool {
    forall|i: int| 0 <= i < s.len() ==> float_text(#[trigger] s[i])
}

/// The peaks of a stored waveform: the elements of an array of numbers, and none
/// of anything else.
pub open spec fn peaks_of(json: Option<Seq<char>>) -> Seq<Seq<char>> {
    match json {
        Some(s) => {
            let t = trimmed(s);
            if bracketed(t) && all_floats(elements(t)) {
                elements(t)
            } else {
                Seq::empty()
            }
        },
        None => Seq::empty(),
    }
}

/// The position behind the run of digits of `s` that starts at `i`.
fn scan_digits(s: &Vec<char>, i: usize) -> (j: usize)
    requires
        i <= s@.len(),
    ensures
        j == digits_end(s@, i as int),
        i <= j <= s@.len(),
{
    let mut j: usize = i;
    while j < s.len() && '0' <= s[j] && s[j] <= '9'
        invariant
            i <= j <= s@.len(),
            digits_end(s@, i as int) == digits_end(s@, j as int),
        decreases s@.len() - j,
    {
        j += 1;
    }
    j
}

/// Whether a text is read as a floating-point number.
pub fn is_float_text(s: &Vec<char>) -> (r: bool)
    ensures
        r == float_text(s@),
{
    let n: usize = s.len();
    let i: usize = if n > 0 && (s[0] == '+' || s[0] == '-') {
        1
    } else {
        0
    };
    let word = lower_text(&slice_of(s, i, n));
    assert(s@.subrange(i as int, n as int) =~= s@.skip(i as int));
    if same(&word, "inf") || same(&word, "infinity") || same(&word, "nan") {
        return true;
    }
    let a = scan_digits(s, i);
    let b: usize = if a < n && s[a] == '.' {
        scan_digits(s, a + 1)
    } else {
        a
    };
    if !(a > i || (b > a && b - a > 1)) {
        return false;
    }
    if b == n {
        return true;
    }
    if s[b] != 'e' && s[b] != 'E' {
        return false;
    }
    let k: usize = if b + 1 < n && (s[b + 1] == '+' || s[b + 1] == '-') {
        b + 2
    } else {
        b + 1
    };
    k < n && scan_digits(s, k) == n
}

/// Parse the stored waveform back into its peaks. An absent or malformed value
/// yields no peaks.
pub fn parse_waveform(json: Option<&str>) -> (r: Vec<String>)
    ensures
        r.deep_view() == peaks_of(
            match json {
                Some(s) => Some(s@),
                None => None,
            },
        ),
{
    let mut out: Vec<String> = Vec::new();
    assert(out.deep_view() =~= Seq::<Seq<char>>::empty());
    let text = match json {
        Some(s) => s,
        None => {
            return out;
        },
    };
    let t = trim_chars(&chars_of(text));
    let n: usize = t.len();
    if n < 2 || t[0] != '[' || t[n - 1] != ']' {
        return out;
    }
    let parts = split_chars(&slice_of(&t, 1, n - 1), ',');
    let ghost all = elements(trimmed(text@));
    let mut i: usize = 0;
    assert(all.len() == parts@.len());
    assert(out.deep_view() =~= all.take(0));
    while i < parts.len()
        invariant
            i <= parts@.len(),
            all.len() == parts@.len(),
            json == Some(text),
            all == elements(trimmed(text@)),
            all == parts.deep_view().map_values(trim_piece()),
            out.deep_view() == all.take(i as int),
            forall|j: int| 0 <= j < i ==> float_text(#[trigger] all[j]),
        decreases parts@.len() - i,
    {
        let piece = trim_chars(&parts[i]);
        proof {
            assert(parts@[i as int].deep_view() =~= parts@[i as int]@);
            assert(parts.deep_view()[i as int] == parts@[i as int]@);
            assert(piece@ == all[i as int]);
        }
        if !is_float_text(&piece) {
            assert(!all_floats(all));
            let none: Vec<String> = Vec::new();
            assert(none.deep_view() =~= Seq::<Seq<char>>::empty());
            return none;
        }
        let ghost prev = out.deep_view();
        let s = string_of(&piece, 0, piece.len());
        assert(s@ =~= piece@);
        out.push(s);
        assert(out.deep_view() =~= prev.push(piece@));
        assert(out.deep_view() =~= all.take(i + 1));
        i += 1;
    }
    assert(all.take(all.len() as int) =~= all);
    out
}

/// `s` joined with commas.
pub open spec fn comma_joined(s: Seq<Seq<char>>) -> Seq<char>
    decreases s.len(),
{
    if s.len() == 0 {
        Seq::empty()
    } else if s.len() == 1 {
        s[0]
    } else {
        comma_joined(s.drop_last()).push(',') + s.last()
    }
}

/// The array text of a waveform.
pub open spec fn waveform_json(peaks: Seq<Seq<char>>) -> Seq<char> {
    (seq!['['] + comma_joined(peaks)).push(']')
}

/// The peaks written as a compact JSON array.
pub fn waveform_to_json(waveform: &Vec<String>) -> (r: String)
    ensures
        r@ == waveform_json(waveform.deep_view()),
{
    let ghost peaks = waveform.deep_view();
    let mut out = String::new();
    out.push('[');
    let mut i: usize = 0;
    assert(out@ =~= seq!['['] + comma_joined(peaks.take(0)));
    while i < waveform.len()
        invariant
            i <= waveform@.len(),
            peaks == waveform.deep_view(),
            out@ == seq!['['] + comma_joined(peaks.take(i as int)),
        decreases waveform@.len() - i,
    {
        if i > 0 {
            out.push(',');
        }
        out.append(&waveform[i]);
        proof {
            let next = peaks.take(i + 1);
            assert(next.drop_last() =~= peaks.take(i as int));
            assert(next.last() == waveform@[i as int]@);
            if i == 0 {
                assert(comma_joined(peaks.take(0)) =~= Seq::empty());
            }
            assert(out@ =~= seq!['['] + comma_joined(next));
        }
        i += 1;
    }
    out.push(']');
    assert(peaks.take(peaks.len() as int) =~= peaks);
    out
}

} // verus!
