//! Slash-separated paths: their components, joining a library folder with a
//! relative key, taking the key back off, file names and extensions.
use vstd::prelude::*;
use vstd::string::*;

use crate::text::{chars_of, same, string_of};

verus! {

/// The position of the first `/` of `s` at or behind `i`, or its length.
pub open spec fn next_separator(s: Seq<char>, i: int) -> int
    decreases s.len() - i,
{
    if i < 0 || i >= s.len() {
        s.len() as int
    } else if s[i] == '/' {
        i
    } else {
        next_separator(s, i + 1)
    }
}

/// Whether the text between two separators is a component: neither empty nor a
/// single dot.
pub open spec fn is_component(piece: Seq<char>) -> bool {
    piece.len() > 0 && piece != seq!['.']
}

/// Where the components of `s` lie from position `i` on, as start and end
/// positions.
pub open spec fn body_spans(s: Seq<char>, i: int) -> Seq<(int, int)>
    decreases s.len() + 1 - i,
{
    if i < 0 || i >= s.len() {
        Seq::empty()
    } else {
        proof {
            next_separator_bounds(s, i);
        }
        let j = next_separator(s, i);
        let rest = body_spans(s, j + 1);
        if is_component(s.subrange(i, j)) {
            seq![(i, j)] + rest
        } else {
            rest
        }
    }
}

/// Whether a path begins with the component `.`.
pub open spec fn begins_with_dot(s: Seq<char>) -> bool {
    s.len() > 0 && s[0] == '.' && (s.len() == 1 || s[1] == '/')
}

/// Where the components of a path lie: the root `/` or a leading `.` first,
/// then the non-empty pieces between separators other than `.`.
pub open spec fn spans(s: Seq<char>) -> Seq<(int, int)> {
    if s.len() > 0 && s[0] == '/' || begins_with_dot(s) {
        seq![(0int, 1int)] + body_spans(s, 1)
    } else {
        body_spans(s, 0)
    }
}

/// The text of component `k` of a path.
pub open spec fn component(s: Seq<char>, k: int) -> Seq<char> {
    s.subrange(spans(s)[k].0, spans(s)[k].1)
}

/// Whether a path starts at the root.
pub open spec fn rooted(s: Seq<char>) -> bool {
    s.len() > 0 && s[0] == '/'
}

/// A library folder joined with a path: the path itself where it is rooted.
pub open spec fn joined(library: Seq<char>, path: Seq<char>) -> Seq<char> {
    if rooted(path) {
        path
    } else if library.len() == 0 || library.last() == '/' {
        library + path
    } else {
        library.push('/') + path
    }
}

/// Whether the components of `library` are the leading components of `path`.
pub open spec fn lies_under(library: Seq<char>, path: Seq<char>) -> bool {
    &&& spans(library).len() <= spans(path).len()
    &&& forall|k: int|
        0 <= k < spans(library).len() ==> #[trigger] component(library, k) == component(path, k)
}

/// The part of a path from its component `k` on, up to the end of its last
/// component.
pub open spec fn from_component(path: Seq<char>, k: int) -> Seq<char> {
    if 0 <= k < spans(path).len() {
        path.subrange(spans(path)[k].0, spans(path).last().1)
    } else {
        Seq::empty()
    }
}

/// What is left of `path` behind the components of `library`, if they are its
/// leading components.
pub open spec fn stripped(library: Seq<char>, path: Seq<char>) -> Option<Seq<char>> {
    if lies_under(library, path) {
        Some(from_component(path, spans(library).len() as int))
    } else {
        None
    }
}

/// The position of the next separator lies at or behind the start.
pub proof fn next_separator_bounds(s: Seq<char>, i: int)
    requires
        0 <= i <= s.len(),
    ensures
        i <= next_separator(s, i) <= s.len(),
        forall|j: int| i <= j < next_separator(s, i) ==> s[j] != '/',
        next_separator(s, i) < s.len() ==> s[next_separator(s, i)] == '/',
    decreases s.len() - i,
{
    if i < s.len() && s[i] != '/' {
        next_separator_bounds(s, i + 1);
    }
}

/// Spans are in bounds, non-empty, and in order.
proof fn body_spans_bounds(s: Seq<char>, i: int)
    requires
        0 <= i,
    ensures
        forall|k: int|
            0 <= k < body_spans(s, i).len() ==> i <= (#[trigger] body_spans(s, i)[k]).0
                < body_spans(s, i)[k].1 <= s.len(),
        forall|k: int, l: int|
            0 <= k < l < body_spans(s, i).len() ==> (#[trigger] body_spans(s, i)[k]).1 < (
            #[trigger] body_spans(s, i)[l]).0,
    decreases s.len() + 1 - i,
{
    if i < s.len() {
        next_separator_bounds(s, i);
        let j = next_separator(s, i);
        body_spans_bounds(s, j + 1);
        let rest = body_spans(s, j + 1);
        if is_component(s.subrange(i, j)) {
            assert(body_spans(s, i) =~= seq![(i, j)] + rest);
            assert forall|k: int, l: int| 0 <= k < l < body_spans(s, i).len() implies (
            #[trigger] body_spans(s, i)[k]).1 < (#[trigger] body_spans(s, i)[l]).0 by {
                assert(body_spans(s, i)[l] == rest[l - 1]);
                if k > 0 {
                    assert(body_spans(s, i)[k] == rest[k - 1]);
                }
            }
            assert forall|k: int| 0 <= k < body_spans(s, i).len() implies i <= (
            #[trigger] body_spans(s, i)[k]).0 < body_spans(s, i)[k].1 <= s.len() by {
                if k > 0 {
                    assert(body_spans(s, i)[k] == rest[k - 1]);
                }
            }
        }
    }
}

/// The components of a path are in bounds, non-empty, and in order.
pub proof fn spans_bounds(s: Seq<char>)
    ensures
        forall|k: int|
            0 <= k < spans(s).len() ==> 0 <= (#[trigger] spans(s)[k]).0 < spans(s)[k].1 <= s.len(),
        forall|k: int, l: int|
            0 <= k < l < spans(s).len() ==> (#[trigger] spans(s)[k]).1 <= (
            #[trigger] spans(s)[l]).0,
{
    body_spans_bounds(s, 0);
    body_spans_bounds(s, 1);
    if s.len() > 0 && s[0] == '/' || begins_with_dot(s) {
        let rest = body_spans(s, 1);
        assert forall|k: int| 0 <= k < spans(s).len() implies 0 <= (#[trigger] spans(s)[k]).0
            < spans(s)[k].1 <= s.len() by {
            if k > 0 {
                assert(spans(s)[k] == rest[k - 1]);
            }
        }
        assert forall|k: int, l: int| 0 <= k < l < spans(s).len() implies (
        #[trigger] spans(s)[k]).1 <= (#[trigger] spans(s)[l]).0 by {
            assert(spans(s)[l] == rest[l - 1]);
            if k > 0 {
                assert(spans(s)[k] == rest[k - 1]);
            }
        }
    }
}

/// Whether executable spans are the spans of a path.
spec fn spans_are(v: Seq<(usize, usize)>, t: Seq<(int, int)>) -> bool {
    v.len() == t.len() && forall|k: int|
        0 <= k < v.len() ==> (#[trigger] v[k]).0 == t[k].0 && v[k].1 == t[k].1
}

/// The components of a path, as start and end positions.
fn spans_of(s: &Vec<char>) -> (out: Vec<(usize, usize)>)
    ensures
        spans_are(out@, spans(s@)),
        forall|k: int| 0 <= k < out@.len() ==> (#[trigger] out@[k]).0 < out@[k].1 <= s@.len(),
        forall|k: int, l: int|
            0 <= k < l < out@.len() ==> (#[trigger] out@[k]).1 <= (#[trigger] out@[l]).0,
{
    let mut out: Vec<(usize, usize)> = Vec::new();
    let mut i: usize = 0;
    let n: usize = s.len();
    if n > 0 && (s[0] == '/' || (s[0] == '.' && (n == 1 || s[1] == '/'))) {
        out.push((0, 1));
        i = 1;
    }
    let ghost mut done: Seq<(int, int)> = if i == 1 {
        seq![(0int, 1int)]
    } else {
        Seq::empty()
    };
    assert(spans(s@) =~= done + body_spans(s@, i as int));
    while i < n
        invariant
            n == s@.len(),
            i <= n,
            spans_are(out@, done),
            spans(s@) == done + body_spans(s@, i as int),
        decreases n - i,
    {
        let mut j: usize = i;
        proof {
            next_separator_bounds(s@, i as int);
        }
        while j < n && s[j] != '/'
            invariant
                i <= j <= n,
                n == s@.len(),
                next_separator(s@, i as int) == next_separator(s@, j as int),
            decreases n - j,
        {
            j += 1;
        }
        let ghost piece = s@.subrange(i as int, j as int);
        let wanted = j > i && !(j == i + 1 && s[i] == '.');
        proof {
            assert(j == next_separator(s@, i as int));
            if wanted {
                if piece == seq!['.'] {
                    assert(piece[0] == '.');
                    assert(piece.len() == 1);
                    assert(s@[i as int] == '.');
                }
                assert(is_component(piece));
                assert(done + body_spans(s@, i as int) =~= done.push((i as int, j as int))
                    + body_spans(s@, j + 1));
                done = done.push((i as int, j as int));
            } else {
                if j > i {
                    assert(piece =~= seq!['.']);
                }
                assert(!is_component(piece));
            }
        }
        if wanted {
            out.push((i, j));
        }
        assert(body_spans(s@, n as int) =~= body_spans(s@, n + 1));
        i = if j < n {
            j + 1
        } else {
            n
        };
    }
    assert(body_spans(s@, i as int) =~= Seq::empty());
    assert(spans(s@) =~= done);
    proof {
        spans_bounds(s@);
        assert forall|k: int| 0 <= k < out@.len() implies (#[trigger] out@[k]).0 < out@[k].1
            <= s@.len() by {
            assert(spans(s@)[k].0 < spans(s@)[k].1);
        }
        assert forall|k: int, l: int| 0 <= k < l < out@.len() implies (#[trigger] out@[k]).1 <= (
        #[trigger] out@[l]).0 by {
            assert(spans(s@)[k].1 <= spans(s@)[l].0);
        }
    }
    out
}

/// Whether a path starts at the root.
pub fn is_absolute(path: &str) -> (r: bool)
    ensures
        r == rooted(path@),
{
    let s = chars_of(path);
    s.len() > 0 && s[0] == '/'
}

/// The absolute path of a recording stored library-relative under `library`.
pub fn absolute(library: &str, relative: &str) -> (r: String)
    ensures
        r@ == joined(library@, relative@),
{
    if is_absolute(relative) {
        return relative.to_owned();
    }
    let l = chars_of(library);
    let mut out = library.to_owned();
    if l.len() > 0 && l[l.len() - 1] != '/' {
        out.push('/');
    }
    out.append(relative);
    out
}

/// The path of `absolute` relative to `library`, or `None` when it does not lie
/// under the library folder.
pub fn relative(library: &str, absolute: &str) -> (r: Option<String>)
    ensures
        r.deep_view() == stripped(library@, absolute@),
{
    let l = chars_of(library);
    let a = chars_of(absolute);
    let ls = spans_of(&l);
    let asp = spans_of(&a);
    if ls.len() > asp.len() {
        return None;
    }
    let mut k: usize = 0;
    while k < ls.len()
        invariant
            k <= ls@.len() <= asp@.len(),
            l@ == library@,
            a@ == absolute@,
            spans_are(ls@, spans(l@)),
            spans_are(asp@, spans(a@)),
            forall|i: int| 0 <= i < ls@.len() ==> (#[trigger] ls@[i]).0 < ls@[i].1 <= l@.len(),
            forall|i: int| 0 <= i < asp@.len() ==> (#[trigger] asp@[i]).0 < asp@[i].1 <= a@.len(),
            forall|i: int| 0 <= i < k ==> #[trigger] component(l@, i) == component(a@, i),
        decreases ls@.len() - k,
    {
        let x = string_of(&l, ls[k].0, ls[k].1);
        let y = string_of(&a, asp[k].0, asp[k].1);
        assert(x@ == component(l@, k as int));
        assert(y@ == component(a@, k as int));
        if !same(&x, &y) {
            return None;
        }
        k += 1;
    }
    if k < asp.len() {
        let last: usize = asp.len() - 1;
        assert(asp@[k as int].0 < asp@[k as int].1);
        assert(k < last ==> asp@[k as int].1 <= asp@[last as int].0);
        assert(asp@[last as int].0 < asp@[last as int].1);
        Some(string_of(&a, asp[k].0, asp[last].1))
    } else {
        Some(String::new())
    }
}

/// The file name of a path: its last component, unless that is the root, a
/// leading `.` or a `..`.
pub open spec fn file_name_of(s: Seq<char>) -> Option<Seq<char>> {
    let n = spans(s).len() as int;
    if n == 0 {
        None
    } else {
        let name = component(s, n - 1);
        if name == seq!['/'] || name == seq!['.'] || name == seq!['.', '.'] {
            None
        } else {
            Some(name)
        }
    }
}

/// The position of the last dot of `s`, or `-1`.
pub open spec fn last_dot(s: Seq<char>) -> int
    decreases s.len(),
{
    if s.len() == 0 {
        -1
    } else if s.last() == '.' {
        s.len() - 1
    } else {
        last_dot(s.drop_last())
    }
}

/// The extension of a path: what follows the last dot of its file name, unless
/// that dot is its first character.
pub open spec fn extension_of(s: Seq<char>) -> Option<Seq<char>> {
    match file_name_of(s) {
        Some(name) => if last_dot(name) > 0 {
            Some(name.skip(last_dot(name) + 1))
        } else {
            None
        },
        None => None,
    }
}

/// The file name of a path.
pub fn file_name(path: &str) -> (r: Option<String>)
    ensures
        r.deep_view() == file_name_of(path@),
{
    let s = chars_of(path);
    let sp = spans_of(&s);
    if sp.len() == 0 {
        return None;
    }
    let k: usize = sp.len() - 1;
    let name = string_of(&s, sp[k].0, sp[k].1);
    assert(name@ == component(s@, k as int));
    proof {
        reveal_strlit("/");
        reveal_strlit(".");
        reveal_strlit("..");
        assert("/"@ =~= seq!['/']);
        assert("."@ =~= seq!['.']);
        assert(".."@ =~= seq!['.', '.']);
    }
    if same(&name, "/") || same(&name, ".") || same(&name, "..") {
        None
    } else {
        Some(name)
    }
}

/// The extension of a path.
pub fn extension(path: &str) -> (r: Option<String>)
    ensures
        r.deep_view() == extension_of(path@),
{
    let name = match file_name(path) {
        Some(n) => n,
        None => {
            return None;
        },
    };
    let s = chars_of(&name);
    let mut i: usize = s.len();
    assert(s@.take(s@.len() as int) =~= s@);
    while i > 0 && s[i - 1] != '.'
        invariant
            i <= s@.len(),
            last_dot(s@) == last_dot(s@.take(i as int)),
        ensures
            last_dot(s@) == i - 1,
        decreases i,
    {
        assert(s@.take(i as int).drop_last() =~= s@.take(i - 1));
        i -= 1;
    }
    if i > 1 {
        let out = string_of(&s, i, s.len());
        assert(out@ =~= s@.skip(i as int));
        Some(out)
    } else {
        None
    }
}

} // verus!
