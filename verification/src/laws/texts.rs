//! Texts that are written and read again: waveforms, and the names of files.
use vstd::prelude::*;

use crate::numerals::all_digits;
use crate::analysis::{file_name_for, key_prefix, names_content};
use crate::bundle::{bundle_name, safe_char, safe_label};
use crate::offers::{signature_of, FileStamp};
use crate::text::{
    alphanumeric, decimal, decimal_holds_digits, decimal_injective, is_char, lowered, next_char,
    next_char_bounds, pieces, signed_decimal, strip_back, strip_front, trimmed, whitespace,
};
use crate::waveform::{
    comma_joined, digits_end, elements, float_text, is_digit, is_sign, peaks_of, special_word,
    waveform_json,
};

verus! {

/// Whether a character can stand in a number: no separator, no bracket, no white
/// space.
spec fn plain(c: char) -> bool {
    c != ',' && c != '[' && c != ']' && !whitespace(c)
}

/// A run of digits is plain.
proof fn digits_are_plain(s: Seq<char>, i: int)
    requires
        0 <= i <= s.len(),
    ensures
        i <= digits_end(s, i) <= s.len(),
        forall|k: int| i <= k < digits_end(s, i) ==> plain(#[trigger] s[k]),
    decreases s.len() - i,
{
    if i < s.len() && is_digit(s[i]) {
        digits_are_plain(s, i + 1);
    }
}

/// A number is plain.
proof fn numbers_are_plain(s: Seq<char>)
    requires
        float_text(s),
    ensures
        s.len() > 0,
        forall|k: int| 0 <= k < s.len() ==> plain(#[trigger] s[k]),
{
    let i = if s.len() > 0 && is_sign(s[0]) {
        1int
    } else {
        0int
    };
    if special_word(s.skip(i)) {
        let w = s.skip(i);
        reveal_strlit("inf");
        reveal_strlit("infinity");
        reveal_strlit("nan");
        assert(lowered(w).len() == w.len());
        assert forall|k: int| 0 <= k < s.len() implies plain(#[trigger] s[k]) by {
            if k >= i {
                assert(w[k - i] == s[k]);
                assert(plain(lowered(w)[k - i]));
            }
        }
    } else {
        let a = digits_end(s, i);
        digits_are_plain(s, i);
        let dotted = a < s.len() && s[a] == '.';
        let b = if dotted {
            digits_end(s, a + 1)
        } else {
            a
        };
        if dotted {
            digits_are_plain(s, a + 1);
        }
        if b < s.len() {
            let k = if b + 1 < s.len() && is_sign(s[b + 1]) {
                b + 2
            } else {
                b + 1
            };
            digits_are_plain(s, k);
        }
    }
}

/// Splitting at a separator.
pub proof fn pieces_joined(x: Seq<char>, y: Seq<char>, c: char)
    ensures
        pieces(x.push(c) + y, c) == pieces(x, c) + pieces(y, c),
    decreases x.len(),
{
    let t = x.push(c) + y;
    next_char_bounds(x, c, 0);
    next_char_bounds(t, c, 0);
    let j = next_char(x, c, 0);
    assert(next_char(t, c, 0) == j) by {
        assert forall|k: int| 0 <= k < j implies t[k] != c by {
            assert(t[k] == x[k]);
        }
        assert(t[j] == c);
        let n = next_char(t, c, 0);
        if n < j {
            assert(t[n] == x[n]);
        }
    }
    assert(t.take(j) =~= x.take(j));
    if j < x.len() {
        pieces_joined(x.skip(j + 1), y, c);
        assert(t.skip(j + 1) =~= x.skip(j + 1).push(c) + y);
        assert(pieces(t, c) =~= pieces(x, c) + pieces(y, c));
    } else {
        assert(t.skip(j + 1) =~= y);
        assert(x.take(j) =~= x);
        assert(pieces(t, c) =~= pieces(x, c) + pieces(y, c));
    }
}

/// A text without separators is one piece.
proof fn one_piece(x: Seq<char>, c: char)
    requires
        forall|k: int| 0 <= k < x.len() ==> x[k] != c,
    ensures
        pieces(x, c) == seq![x],
{
    next_char_bounds(x, c, 0);
}

/// The pieces of what was joined with commas.
proof fn joined_pieces(s: Seq<Seq<char>>)
    requires
        s.len() > 0,
        forall|i: int| 0 <= i < s.len() ==> float_text(#[trigger] s[i]),
    ensures
        pieces(comma_joined(s), ',') == s,
        comma_joined(s).len() > 0,
        plain(comma_joined(s)[0]),
        plain(comma_joined(s).last()),
    decreases s.len(),
{
    let last = s.last();
    assert(last == s[s.len() - 1]);
    numbers_are_plain(last);
    one_piece(last, ',');
    if s.len() == 1 {
        assert(pieces(comma_joined(s), ',') =~= s);
    } else {
        let less = s.drop_last();
        assert forall|i: int| 0 <= i < less.len() implies float_text(#[trigger] less[i]) by {
            assert(less[i] == s[i]);
        }
        joined_pieces(less);
        let x = comma_joined(less);
        pieces_joined(x, last, ',');
        assert(less + seq![last] =~= s);
        assert((x.push(',') + last)[0] == x[0]);
        assert((x.push(',') + last).last() == last[last.len() - 1]);
    }
}

/// A text that neither begins nor ends with white space is trimmed already.
pub proof fn trimmed_already(s: Seq<char>)
    requires
        s.len() > 0 ==> !whitespace(s[0]) && !whitespace(s.last()),
    ensures
        trimmed(s) == s,
{
}

/// Writing a waveform and reading it again gives its peaks back.
pub proof fn waveform_is_read_back(peaks: Seq<Seq<char>>)
    requires
        forall|i: int| 0 <= i < peaks.len() ==> float_text(#[trigger] peaks[i]),
    ensures
        peaks_of(Some(waveform_json(peaks))) == peaks,
{
    let body = comma_joined(peaks);
    let s = waveform_json(peaks);
    trimmed_already(s);
    assert(s.subrange(1, s.len() - 1) =~= body);
    let parts = elements(s);
    if peaks.len() > 0 {
        joined_pieces(peaks);
        assert(parts =~= peaks) by {
            assert forall|i: int| 0 <= i < peaks.len() implies #[trigger] parts[i] == peaks[i] by {
                numbers_are_plain(peaks[i]);
                trimmed_already(peaks[i]);
            }
        }
    } else {
        assert(body =~= Seq::empty());
        one_piece(body, ',');
        trimmed_already(body);
        assert(parts =~= seq![body]);
        assert(!float_text(parts[0])) by {
            reveal_strlit("inf");
            reveal_strlit("infinity");
            reveal_strlit("nan");
            assert(lowered(body.skip(0)).len() == 0);
        }
        assert(peaks =~= Seq::empty());
    }
}

/// Every peak that is read is a number.
pub proof fn peaks_are_numbers(json: Option<Seq<char>>)
    ensures
        forall|i: int| 0 <= i < peaks_of(json).len() ==> float_text(#[trigger] peaks_of(json)[i]),
{
}

/// Two texts that are split by the first of some characters at one place.
proof fn split_at_first(
    x: Seq<char>,
    y: Seq<char>,
    z: Seq<char>,
    w: Seq<char>,
    p: spec_fn(char) -> bool,
)
    requires
        x + y == z + w,
        forall|i: int| 0 <= i < x.len() ==> !p(#[trigger] x[i]),
        forall|i: int| 0 <= i < z.len() ==> !p(#[trigger] z[i]),
        y.len() > 0 && p(y[0]),
        w.len() > 0 && p(w[0]),
    ensures
        x == z,
        y == w,
{
    let t = x + y;
    let u = z + w;
    assert(t[x.len() as int] == y[0]);
    assert(u[z.len() as int] == w[0]);
    if x.len() < z.len() {
        assert(u[x.len() as int] == z[x.len() as int]);
    } else if z.len() < x.len() {
        assert(t[z.len() as int] == x[z.len() as int]);
    }
    assert(x =~= t.take(x.len() as int));
    assert(z =~= u.take(z.len() as int));
    assert(y =~= t.skip(x.len() as int));
    assert(w =~= u.skip(z.len() as int));
}

/// Neither a digit nor a minus sign.
spec fn not_in_numeral() -> spec_fn(char) -> bool {
    |c: char| !is_digit(c) && c != '-'
}

/// A signed numeral holds digits and minus signs alone.
proof fn numerals_are_plain(n: int)
    ensures
        forall|i: int|
            0 <= i < signed_decimal(n).len() ==> !not_in_numeral()(#[trigger] signed_decimal(n)[i]),
{
    if n < 0 {
        decimal_holds_digits((-n) as nat);
        let m = decimal((-n) as nat);
        assert forall|i: int| 0 <= i < signed_decimal(n).len() implies !not_in_numeral()(
            #[trigger] signed_decimal(n)[i],
        ) by {
            if i > 0 {
                assert(signed_decimal(n)[i] == m[i - 1]);
            }
        }
    } else {
        decimal_holds_digits(n as nat);
    }
}

/// Different numbers have different signed numerals.
proof fn signed_decimal_injective(a: int, b: int)
    requires
        signed_decimal(a) == signed_decimal(b),
    ensures
        a == b,
{
    let x = signed_decimal(a);
    let y = signed_decimal(b);
    if a < 0 {
        assert(x[0] == '-');
        assert(x.skip(1) =~= decimal((-a) as nat));
    } else {
        decimal_holds_digits(a as nat);
        assert(x[0] != '-');
    }
    if b < 0 {
        assert(y[0] == '-');
        assert(y.skip(1) =~= decimal((-b) as nat));
    } else {
        decimal_holds_digits(b as nat);
        assert(y[0] != '-');
    }
    if a < 0 {
        decimal_injective((-a) as nat, (-b) as nat);
    } else {
        decimal_injective(a as nat, b as nat);
    }
}

/// Every change of a file's size or modification time changes its signature.
pub proof fn signatures_tell_changes(a: FileStamp, b: FileStamp)
    requires
        signature_of(a) == signature_of(b),
    ensures
        a == b,
{
    reveal_strlit(":");
    let x = decimal(a.size as nat);
    let z = decimal(b.size as nat);
    let v = decimal(a.modified_nanos as nat);
    let w = decimal(b.modified_nanos as nat);
    decimal_holds_digits(a.size as nat);
    decimal_holds_digits(b.size as nat);
    assert(signature_of(a) =~= x + (":"@ + v));
    assert(signature_of(b) =~= z + (":"@ + w));
    split_at_first(x, ":"@ + v, z, ":"@ + w, not_in_numeral());
    assert((":"@ + v).skip(1) =~= v);
    assert((":"@ + w).skip(1) =~= w);
    decimal_injective(a.size as nat, b.size as nat);
    decimal_injective(a.modified_nanos as nat, b.modified_nanos as nat);
}

/// The Analysis file of a content is found by the content's key, whatever
/// segmenter version it is of.
pub proof fn analyses_are_found_by_content(quick_hash: Seq<char>, file_size: int, version: nat)
    ensures
        names_content(
            file_name_for(quick_hash, file_size, version),
            key_prefix(quick_hash, file_size),
        ),
{
    reveal_strlit("_s");
    reveal_strlit(".vanalysis");
    let prefix = key_prefix(quick_hash, file_size);
    let name = file_name_for(quick_hash, file_size, version);
    if version > 1 {
        decimal_holds_digits(version);
        assert(all_digits(decimal(version)));
    }
}

/// Analyses of one content by different segmenter versions have different names,
/// the first version taking the bare one.
pub proof fn analysis_names_tell_versions(
    quick_hash: Seq<char>,
    file_size: int,
    a: nat,
    b: nat,
)
    requires
        a >= 1,
        b >= 1,
        file_name_for(quick_hash, file_size, a) == file_name_for(quick_hash, file_size, b),
    ensures
        a == b,
{
    reveal_strlit("_s");
    reveal_strlit(".vanalysis");
    let prefix = key_prefix(quick_hash, file_size);
    let n = prefix.len() as int;
    let x = file_name_for(quick_hash, file_size, a);
    let y = file_name_for(quick_hash, file_size, b);
    assert(x[n] == (if a == 1 {
        '.'
    } else {
        '_'
    }));
    assert(y[n] == (if b == 1 {
        '.'
    } else {
        '_'
    }));
    if a > 1 {
        assert(x.subrange(n + 2, x.len() - 10) =~= decimal(a));
        assert(y.subrange(n + 2, y.len() - 10) =~= decimal(b));
        decimal_injective(a, b);
    }
}

/// An Analysis is never taken for that of another content: a file name that is
/// found by a content's key was made for that content. Fingerprints have one
/// length.
pub proof fn analyses_stay_with_their_content(
    quick_hash: Seq<char>,
    file_size: int,
    other_hash: Seq<char>,
    other_size: int,
    version: nat,
)
    requires
        quick_hash.len() == other_hash.len(),
        names_content(
            file_name_for(other_hash, other_size, version),
            key_prefix(quick_hash, file_size),
        ),
    ensures
        quick_hash == other_hash,
        file_size == other_size,
{
    reveal_strlit("_");
    reveal_strlit("_s");
    reveal_strlit(".vanalysis");
    let prefix = key_prefix(quick_hash, file_size);
    let name = file_name_for(other_hash, other_size, version);
    let n = quick_hash.len() as int;
    let x = signed_decimal(file_size);
    let z = signed_decimal(other_size);
    numerals_are_plain(file_size);
    numerals_are_plain(other_size);
    let w = if version <= 1 {
        ".vanalysis"@
    } else {
        "_s"@ + decimal(version) + ".vanalysis"@
    };
    assert(name =~= other_hash + "_"@ + z + w);
    let y = name.skip(prefix.len() as int);
    assert(name.take(prefix.len() as int) =~= prefix) by {
    }
    assert(name =~= quick_hash + "_"@ + x + y);
    assert(name.take(n) =~= other_hash);
    assert(name.take(n) =~= quick_hash);
    assert(name.skip(n + 1) =~= z + w);
    assert(name.skip(n + 1) =~= x + y);
    assert(y.len() > 0 && not_in_numeral()(y[0])) by {
        if name == prefix + ".vanalysis"@ {
            assert(y =~= ".vanalysis"@);
        } else {
            let v = choose|v: Seq<char>|
                #[trigger] all_digits(v) && name == prefix + "_s"@ + v + ".vanalysis"@;
            assert(y[0] == (prefix + "_s"@ + v + ".vanalysis"@)[prefix.len() as int]);
        }
    }
    split_at_first(x, y, z, w, not_in_numeral());
    signed_decimal_injective(file_size, other_size);
}

/// Bundles of one day collide exactly where their sharers' names make one file
/// stem: a re-share replaces the sharer's own bundle, and no other.
pub proof fn bundle_names_tell_sharers(day: Seq<char>, a: Seq<char>, b: Seq<char>)
    ensures
        bundle_name(day, a) == bundle_name(day, b) <==> safe_label(a) == safe_label(b),
{
    reveal_strlit("__");
    reveal_strlit(".vbundle");
    let x = bundle_name(day, a);
    let y = bundle_name(day, b);
    let n = day.len() as int;
    assert(x.subrange(n + 2, x.len() - 8) =~= safe_label(a));
    assert(y.subrange(n + 2, y.len() - 8) =~= safe_label(b));
}

/// Stripping the front keeps a part of the text that the characters do not begin.
proof fn front_is_stripped(s: Seq<char>, p: spec_fn(char) -> bool)
    ensures
        forall|i: int|
            0 <= i < strip_front(s, p).len() ==> s.contains(#[trigger] strip_front(s, p)[i]),
        strip_front(s, p).len() > 0 ==> !p(strip_front(s, p)[0]),
    decreases s.len(),
{
    if s.len() > 0 && p(s[0]) {
        let t = s.drop_first();
        front_is_stripped(t, p);
        assert forall|i: int| 0 <= i < strip_front(s, p).len() implies s.contains(
            #[trigger] strip_front(s, p)[i],
        ) by {
            assert(t.contains(strip_front(t, p)[i]));
            let k = choose|k: int| 0 <= k < t.len() && t[k] == strip_front(t, p)[i];
            assert(s[k + 1] == t[k]);
        }
    }
}

/// Stripping the back keeps a leading part of the text that the characters do not
/// end.
proof fn back_is_stripped(s: Seq<char>, p: spec_fn(char) -> bool)
    ensures
        strip_back(s, p).len() <= s.len(),
        strip_back(s, p) == s.take(strip_back(s, p).len() as int),
        strip_back(s, p).len() > 0 ==> !p(strip_back(s, p).last()),
    decreases s.len(),
{
    if s.len() > 0 && p(s.last()) {
        back_is_stripped(s.drop_last(), p);
        assert(strip_back(s, p) =~= s.take(strip_back(s, p).len() as int));
    } else {
        assert(s.take(s.len() as int) =~= s);
    }
}

/// The stem of a bundle's file name is safe: letters, numerals, dashes and
/// underscores alone, with a dash at neither end, and never empty.
pub proof fn bundle_stems_are_safe(label: Seq<char>)
    ensures
        safe_label(label).len() > 0,
        forall|i: int|
            0 <= i < safe_label(label).len() ==> {
                let c = #[trigger] safe_label(label)[i];
                alphanumeric(c) || c == '-' || c == '_'
            },
        safe_label(label)[0] != '-',
        safe_label(label).last() != '-',
{
    let all = label.map_values(|c: char| safe_char(c));
    let dash = is_char('-');
    let front = strip_front(all, dash);
    let safe = strip_back(front, dash);
    front_is_stripped(all, dash);
    back_is_stripped(front, dash);
    reveal_strlit("unnamed");
    assert forall|i: int| 0 <= i < safe_label(label).len() implies {
        let c = #[trigger] safe_label(label)[i];
        alphanumeric(c) || c == '-' || c == '_'
    } by {
        if safe.len() > 0 {
            assert(safe[i] == front[i]);
            assert(all.contains(front[i]));
            let k = choose|k: int| 0 <= k < all.len() && all[k] == front[i];
            assert(all[k] == safe_char(label[k]));
        }
    }
    if safe.len() > 0 {
        assert(safe[0] == front[0]);
        assert(!dash(front[0]));
        assert(!dash(safe.last()));
    }
}

/// Naming a bundle by the stem of its name gives the same name.
pub proof fn bundle_stems_name_themselves(day: Seq<char>, label: Seq<char>)
    ensures
        safe_label(safe_label(label)) == safe_label(label),
        bundle_name(day, safe_label(label)) == bundle_name(day, label),
{
    let stem = safe_label(label);
    bundle_stems_are_safe(label);
    let all = stem.map_values(|c: char| safe_char(c));
    assert(all =~= stem);
    assert(!is_char('-')(stem[0]));
    assert(!is_char('-')(stem.last()));
}

} // verus!
