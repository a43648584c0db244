//! Words: trimming and ordering of texts, character by character.
use vstd::prelude::*;

use crate::text::{blank, strip_back, strip_front, text_before, trimmed, whitespace};

verus! {

/// Stripping the front takes nothing but what it strips.
proof fn front_stripped(s: Seq<char>, p: spec_fn(char) -> bool)
    ensures
        exists|n: int|
            {
                &&& 0 <= n <= s.len()
                &&& #[trigger] s.skip(n) == strip_front(s, p)
                &&& forall|i: int| 0 <= i < n ==> p(#[trigger] s[i])
                &&& n < s.len() ==> !p(s[n])
            },
    decreases s.len(),
{
    if s.len() > 0 && p(s[0]) {
        let t = s.drop_first();
        front_stripped(t, p);
        let n = choose|n: int|
            {
                &&& 0 <= n <= t.len()
                &&& #[trigger] t.skip(n) == strip_front(t, p)
                &&& forall|i: int| 0 <= i < n ==> p(#[trigger] t[i])
                &&& n < t.len() ==> !p(t[n])
            };
        assert(s.skip(n + 1) =~= t.skip(n));
        assert forall|i: int| 0 <= i < n + 1 implies p(#[trigger] s[i]) by {
            if i > 0 {
                assert(t[i - 1] == s[i]);
            }
        }
    } else {
        assert(s.skip(0) =~= s);
    }
}

/// Stripping the back takes nothing but what it strips.
proof fn back_stripped(s: Seq<char>, p: spec_fn(char) -> bool)
    ensures
        exists|n: int|
            {
                &&& 0 <= n <= s.len()
                &&& #[trigger] s.take(n) == strip_back(s, p)
                &&& forall|i: int| n <= i < s.len() ==> p(#[trigger] s[i])
                &&& n > 0 ==> !p(s[n - 1])
            },
    decreases s.len(),
{
    if s.len() > 0 && p(s.last()) {
        let t = s.drop_last();
        back_stripped(t, p);
        let n = choose|n: int|
            {
                &&& 0 <= n <= t.len()
                &&& #[trigger] t.take(n) == strip_back(t, p)
                &&& forall|i: int| n <= i < t.len() ==> p(#[trigger] t[i])
                &&& n > 0 ==> !p(t[n - 1])
            };
        assert(s.take(n) =~= t.take(n));
        assert forall|i: int| n <= i < s.len() implies p(#[trigger] s[i]) by {
            if i < t.len() {
                assert(t[i] == s[i]);
            } else {
                assert(s[i] == s.last());
            }
        }
    } else {
        assert(s.take(s.len() as int) =~= s);
    }
}

/// Trimming leaves the text between its first and its last character that is no white
/// space, and nothing exactly where there is none.
pub proof fn trimming_leaves_words(s: Seq<char>)
    ensures
        exists|a: int, b: int|
            {
                &&& 0 <= a <= b <= s.len()
                &&& trimmed(s) == #[trigger] s.subrange(a, b)
                &&& forall|i: int| 0 <= i < a ==> whitespace(#[trigger] s[i])
                &&& forall|i: int| b <= i < s.len() ==> whitespace(#[trigger] s[i])
                &&& a < b ==> !whitespace(s[a]) && !whitespace(s[b - 1])
            },
        trimmed(s).len() > 0 <==> exists|i: int| 0 <= i < s.len() && !whitespace(#[trigger] s[i]),
{
    let p = blank();
    front_stripped(s, p);
    let a = choose|n: int|
        {
            &&& 0 <= n <= s.len()
            &&& #[trigger] s.skip(n) == strip_front(s, p)
            &&& forall|i: int| 0 <= i < n ==> p(#[trigger] s[i])
            &&& n < s.len() ==> !p(s[n])
        };
    let t = s.skip(a);
    back_stripped(t, p);
    let m = choose|n: int|
        {
            &&& 0 <= n <= t.len()
            &&& #[trigger] t.take(n) == strip_back(t, p)
            &&& forall|i: int| n <= i < t.len() ==> p(#[trigger] t[i])
            &&& n > 0 ==> !p(t[n - 1])
        };
    let b = a + m;
    assert(s.subrange(a, b) =~= t.take(m));
    assert forall|i: int| 0 <= i < a implies whitespace(#[trigger] s[i]) by {
        assert(p(s[i]));
    }
    assert forall|i: int| b <= i < s.len() implies whitespace(#[trigger] s[i]) by {
        assert(t[i - a] == s[i]);
        assert(p(t[i - a]));
    }
    if a < b {
        assert(s[a] == t[0]);
        assert(s[b - 1] == t[m - 1]);
        assert(!p(s[a]));
        assert(!whitespace(s[a]));
    }
    if exists|i: int| 0 <= i < s.len() && !whitespace(#[trigger] s[i]) {
        let i = choose|i: int| 0 <= i < s.len() && !whitespace(#[trigger] s[i]);
        assert(a <= i < b);
    }
}

/// Texts are ordered by the first character in which they differ, and a text comes before
/// those that go on behind it.
pub proof fn texts_are_ordered_by_the_first_difference(a: Seq<char>, b: Seq<char>)
    ensures
        text_before(a, b) <==> exists|n: int|
            {
                &&& 0 <= n <= a.len()
                &&& n < b.len()
                &&& #[trigger] a.take(n) == b.take(n)
                &&& n < a.len() ==> (a[n] as int) < (b[n] as int)
            },
    decreases a.len(),
{
    if a.len() == 0 || b.len() == 0 {
        if b.len() > 0 {
            assert(a.take(0) =~= b.take(0));
        }
    } else if a[0] != b[0] {
        if (a[0] as int) < (b[0] as int) {
            assert(a.take(0) =~= b.take(0));
        }
        if exists|n: int|
            {
                &&& 0 <= n <= a.len()
                &&& n < b.len()
                &&& #[trigger] a.take(n) == b.take(n)
                &&& n < a.len() ==> (a[n] as int) < (b[n] as int)
            } {
            let n = choose|n: int|
                {
                    &&& 0 <= n <= a.len()
                    &&& n < b.len()
                    &&& #[trigger] a.take(n) == b.take(n)
                    &&& n < a.len() ==> (a[n] as int) < (b[n] as int)
                };
            if n > 0 {
                assert(a.take(n)[0] == b.take(n)[0]);
            }
        }
    } else {
        let c = a.drop_first();
        let e = b.drop_first();
        texts_are_ordered_by_the_first_difference(c, e);
        if text_before(a, b) {
            let n = choose|n: int|
                {
                    &&& 0 <= n <= c.len()
                    &&& n < e.len()
                    &&& #[trigger] c.take(n) == e.take(n)
                    &&& n < c.len() ==> (c[n] as int) < (e[n] as int)
                };
            assert forall|i: int| 0 <= i < n + 1 implies a[i] == b[i] by {
                if i > 0 {
                    assert(c.take(n)[i - 1] == e.take(n)[i - 1]);
                }
            }
            assert(a.take(n + 1) =~= b.take(n + 1));
        }
        if exists|n: int|
            {
                &&& 0 <= n <= a.len()
                &&& n < b.len()
                &&& #[trigger] a.take(n) == b.take(n)
                &&& n < a.len() ==> (a[n] as int) < (b[n] as int)
            } {
            let n = choose|n: int|
                {
                    &&& 0 <= n <= a.len()
                    &&& n < b.len()
                    &&& #[trigger] a.take(n) == b.take(n)
                    &&& n < a.len() ==> (a[n] as int) < (b[n] as int)
                };
            assert(n > 0);
            assert forall|i: int| 0 <= i < n - 1 implies c[i] == e[i] by {
                assert(a.take(n)[i + 1] == b.take(n)[i + 1]);
            }
            assert(c.take(n - 1) =~= e.take(n - 1));
        }
    }
}

} // verus!
