//! Tables: sequences of rows, with the selections, updates, deletions and
//! orderings that every query is built from.
use vstd::prelude::*;

verus! {

/// A row of a table: a value that can be copied field by field.
pub trait Row: DeepView + Sized {
    /// A copy of the row.
    fn dup(&self) -> (r: Self)
        ensures
            r.deep_view() == self.deep_view(),
    ;
}

impl Row for String {
    fn dup(&self) -> (r: Self) {
        self.clone()
    }
}

impl Row for i64 {
    fn dup(&self) -> (r: Self) {
        *self
    }
}

/// The first element of `s` that `p` holds of, if any.
pub open spec fn first<A>(s: Seq<A>, p: spec_fn(A) -> bool) -> Option<A>
    decreases s.len(),
{
    if s.len() == 0 {
        None
    } else {
        match first(s.drop_last(), p) {
            Some(x) => Some(x),
            None => if p(s.last()) {
                Some(s.last())
            } else {
                None
            },
        }
    }
}

/// Whether `p` holds of some element of `s`.
pub open spec fn any<A>(s: Seq<A>, p: spec_fn(A) -> bool) -> bool {
    exists|i: int| 0 <= i < s.len() && p(#[trigger] s[i])
}

/// `s` with every element that `p` holds of rewritten by `f`.
pub open spec fn rewrite<A>(s: Seq<A>, p: spec_fn(A) -> bool, f: spec_fn(A) -> A) -> Seq<A> {
    s.map_values(|x: A| if p(x) { f(x) } else { x })
}

/// `x` placed into `s` behind every element that it does not come before, from
/// the back.
pub open spec fn insert_by<A>(s: Seq<A>, x: A, before: spec_fn(A, A) -> bool) -> Seq<A>
    decreases s.len(),
{
    if s.len() > 0 && before(x, s.last()) {
        insert_by(s.drop_last(), x, before).push(s.last())
    } else {
        s.push(x)
    }
}

/// `s` in the order `before`, equal elements in the order they had.
pub open spec fn sort_by<A>(s: Seq<A>, before: spec_fn(A, A) -> bool) -> Seq<A>
    decreases s.len(),
{
    if s.len() == 0 {
        s
    } else {
        insert_by(sort_by(s.drop_last(), before), s.last(), before)
    }
}

/// What `first` returns satisfies the predicate and occurs in the sequence; it
/// returns nothing exactly when the predicate holds nowhere.
pub proof fn first_found<A>(s: Seq<A>, p: spec_fn(A) -> bool)
    ensures
        first(s, p) is None <==> !any(s, p),
        first(s, p) matches Some(x) ==> p(x) && s.contains(x),
    decreases s.len(),
{
    if s.len() > 0 {
        let d = s.drop_last();
        first_found(d, p);
        assert(s =~= d.push(s.last()));
        assert(p(s.last()) ==> any(s, p)) by {
            if p(s.last()) {
                assert(p(s[s.len() - 1]));
            }
        }
        if any(d, p) {
            let i = choose|i: int| 0 <= i < d.len() && p(#[trigger] d[i]);
            assert(p(s[i]));
            let x = first(d, p)->0;
            let j = choose|j: int| 0 <= j < d.len() && d[j] == x;
            assert(s[j] == x);
        }
        if any(s, p) {
            let i = choose|i: int| 0 <= i < s.len() && p(#[trigger] s[i]);
            if i < d.len() {
                assert(p(d[i]));
            }
        }
    }
}

/// Where at most one element can satisfy the predicate, `first` returns it.
pub proof fn first_is<A>(s: Seq<A>, p: spec_fn(A) -> bool, i: int)
    requires
        0 <= i < s.len(),
        p(s[i]),
        forall|j: int| 0 <= j < i ==> !p(#[trigger] s[j]),
    ensures
        first(s, p) == Some(s[i]),
    decreases s.len(),
{
    let d = s.drop_last();
    if i < d.len() {
        first_is(d, p, i);
    } else {
        first_found(d, p);
        if any(d, p) {
            let k = choose|k: int| 0 <= k < d.len() && p(#[trigger] d[k]);
            assert(!p(s[k]));
        }
    }
}

/// Filtering the first `i + 1` elements adds the element at `i` where the
/// predicate holds of it.
pub proof fn filter_step<A>(s: Seq<A>, p: spec_fn(A) -> bool, i: int)
    requires
        0 <= i < s.len(),
    ensures
        s.take(i + 1).filter(p) == (if p(s[i]) {
            s.take(i).filter(p).push(s[i])
        } else {
            s.take(i).filter(p)
        }),
{
    reveal(Seq::filter);
    assert(s.take(i + 1).drop_last() =~= s.take(i));
    assert(s.take(i + 1).last() == s[i]);
}

/// The elements of a filtered sequence, and how it sits in the whole.
pub proof fn filter_elements<A>(s: Seq<A>, p: spec_fn(A) -> bool)
    ensures
        s.filter(p).len() <= s.len(),
        forall|i: int| 0 <= i < s.filter(p).len() ==> p(#[trigger] s.filter(p)[i]) && s.contains(
            s.filter(p)[i],
        ),
        forall|i: int| 0 <= i < s.len() && p(#[trigger] s[i]) ==> s.filter(p).contains(s[i]),
    decreases s.len(),
{
    reveal(Seq::filter);
    if s.len() > 0 {
        let d = s.drop_last();
        filter_elements(d, p);
        assert forall|i: int| 0 <= i < s.filter(p).len() implies p(#[trigger] s.filter(p)[i])
            && s.contains(s.filter(p)[i]) by {
            if i < d.filter(p).len() {
                assert(d.contains(d.filter(p)[i]));
                let k = choose|k: int| 0 <= k < d.len() && d[k] == d.filter(p)[i];
                assert(s[k] == s.filter(p)[i]);
            } else {
                assert(s[s.len() - 1] == s.filter(p)[i]);
            }
        }
        assert forall|i: int| 0 <= i < s.len() && p(#[trigger] s[i]) implies s.filter(p).contains(
            s[i],
        ) by {
            if i < d.len() {
                assert(d[i] == s[i]);
                let k = choose|k: int| 0 <= k < d.filter(p).len() && d.filter(p)[k] == d[i];
                assert(s.filter(p)[k] == s[i]);
            } else {
                assert(s.filter(p).last() == s[i]);
                assert(s.filter(p)[s.filter(p).len() - 1] == s[i]);
            }
        }
    }
}

/// What holds between the elements of a sequence and the later ones holds between
/// those that a filter keeps.
pub proof fn filter_ordered<A>(s: Seq<A>, p: spec_fn(A) -> bool, r: spec_fn(A, A) -> bool)
    requires
        forall|i: int, j: int| 0 <= i < j < s.len() ==> r(#[trigger] s[i], #[trigger] s[j]),
    ensures
        forall|i: int, j: int|
            0 <= i < j < s.filter(p).len() ==> r(
                #[trigger] s.filter(p)[i],
                #[trigger] s.filter(p)[j],
            ),
    decreases s.len(),
{
    reveal(Seq::filter);
    if s.len() > 0 {
        let d = s.drop_last();
        assert forall|i: int, j: int| 0 <= i < j < d.len() implies r(
            #[trigger] d[i],
            #[trigger] d[j],
        ) by {
            assert(r(s[i], s[j]));
        }
        filter_ordered(d, p, r);
        filter_elements(d, p);
        let t = s.filter(p);
        let u = d.filter(p);
        assert forall|i: int, j: int| 0 <= i < j < t.len() implies r(
            #[trigger] t[i],
            #[trigger] t[j],
        ) by {
            if j < u.len() {
                assert(r(u[i], u[j]));
            } else {
                assert(d.contains(u[i]));
                let k = choose|k: int| 0 <= k < d.len() && d[k] == u[i];
                assert(r(s[k], s[s.len() - 1]));
            }
        }
    }
}

/// A rewrite that a predicate does not notice keeps whether it holds somewhere.
pub proof fn any_rewritten<A>(
    s: Seq<A>,
    p: spec_fn(A) -> bool,
    f: spec_fn(A) -> A,
    q: spec_fn(A) -> bool,
)
    requires
        forall|x: A| q(x) ==> q(#[trigger] f(x)),
    ensures
        any(s, q) ==> any(rewrite(s, p, f), q),
{
    if any(s, q) {
        let i = choose|i: int| 0 <= i < s.len() && q(#[trigger] s[i]);
        let t = rewrite(s, p, f);
        assert(q(f(s[i])));
        assert(q(t[i]));
    }
}

/// Pushing an element keeps what holds somewhere.
pub proof fn any_pushed<A>(s: Seq<A>, x: A, p: spec_fn(A) -> bool)
    ensures
        any(s.push(x), p) <==> any(s, p) || p(x),
{
    let t = s.push(x);
    if any(s, p) {
        let i = choose|i: int| 0 <= i < s.len() && p(#[trigger] s[i]);
        assert(p(t[i]));
    }
    if p(x) {
        assert(p(t[s.len() as int]));
    }
    if any(t, p) {
        let i = choose|i: int| 0 <= i < t.len() && p(#[trigger] t[i]);
        if i < s.len() {
            assert(p(s[i]));
        }
    }
}

/// A filter keeps what holds somewhere of an element that it keeps.
pub proof fn any_filtered<A>(s: Seq<A>, p: spec_fn(A) -> bool, q: spec_fn(A) -> bool)
    ensures
        any(s.filter(p), q) <==> exists|i: int|
            0 <= i < s.len() && p(s[i]) && q(#[trigger] s[i]),
{
    filter_elements(s, p);
    let t = s.filter(p);
    if any(t, q) {
        let i = choose|i: int| 0 <= i < t.len() && q(#[trigger] t[i]);
        let k = choose|k: int| 0 <= k < s.len() && s[k] == t[i];
        assert(p(s[k]) && q(s[k]));
    }
    if exists|i: int| 0 <= i < s.len() && p(s[i]) && q(#[trigger] s[i]) {
        let i = choose|i: int| 0 <= i < s.len() && p(s[i]) && q(#[trigger] s[i]);
        let k = choose|k: int| 0 <= k < t.len() && t[k] == s[i];
        assert(q(t[k]));
    }
}

/// A copy of a table.
pub fn copy_rows<T: Row>(v: &Vec<T>) -> (out: Vec<T>)
    ensures
        out.deep_view() == v.deep_view(),
{
    let mut out: Vec<T> = Vec::new();
    let mut i: usize = 0;
    while i < v.len()
        invariant
            i <= v@.len(),
            out@.len() == i,
            forall|j: int| 0 <= j < i ==> (#[trigger] out@[j]).deep_view() == v@[j].deep_view(),
        decreases v@.len() - i,
    {
        out.push(v[i].dup());
        i += 1;
    }
    assert(out.deep_view() =~= v.deep_view());
    out
}

/// The rows that `f` accepts, in order.
pub(crate) fn keep<T: Row, F: Fn(&T) -> bool>(
    v: &Vec<T>,
    f: F,
    Ghost(p): Ghost<spec_fn(T::V) -> bool>,
) -> (out: Vec<T>)
    requires
        forall|x: &T| call_requires(f, (x,)),
        forall|x: &T, b: bool| call_ensures(f, (x,), b) ==> b == p(x.deep_view()),
    ensures
        out.deep_view() == v.deep_view().filter(p),
{
    let mut out: Vec<T> = Vec::new();
    let mut i: usize = 0;
    let ghost s = v.deep_view();
    proof {
        reveal(Seq::filter);
        assert(out.deep_view() =~= s.take(0).filter(p));
    }
    while i < v.len()
        invariant
            i <= v@.len(),
            s == v.deep_view(),
            out.deep_view() == s.take(i as int).filter(p),
            forall|x: &T| call_requires(f, (x,)),
            forall|x: &T, b: bool| call_ensures(f, (x,), b) ==> b == p(x.deep_view()),
        decreases v@.len() - i,
    {
        proof {
            filter_step(s, p, i as int);
        }
        if f(&v[i]) {
            let ghost before = out;
            out.push(v[i].dup());
            assert(out.deep_view() =~= before.deep_view().push(s[i as int]));
        }
        i += 1;
    }
    assert(s.take(s.len() as int) =~= s);
    out
}

/// The position of the first row that `f` accepts.
pub(crate) fn position<T: DeepView, F: Fn(&T) -> bool>(
    v: &Vec<T>,
    f: F,
    Ghost(p): Ghost<spec_fn(T::V) -> bool>,
) -> (r: Option<usize>)
    requires
        forall|x: &T| call_requires(f, (x,)),
        forall|x: &T, b: bool| call_ensures(f, (x,), b) ==> b == p(x.deep_view()),
    ensures
        match r {
            Some(i) => i < v@.len() && any(v.deep_view(), p) && p(v@[i as int].deep_view())
                && first(v.deep_view(), p)
                == Some(v@[i as int].deep_view()) && forall|j: int|
                0 <= j < i ==> !p(#[trigger] v@[j].deep_view()),
            None => first(v.deep_view(), p) is None && !any(v.deep_view(), p),
        },
{
    let mut i: usize = 0;
    let ghost s = v.deep_view();
    while i < v.len()
        invariant
            i <= v@.len(),
            s == v.deep_view(),
            forall|j: int| 0 <= j < i ==> !p(#[trigger] v@[j].deep_view()),
            forall|x: &T| call_requires(f, (x,)),
            forall|x: &T, b: bool| call_ensures(f, (x,), b) ==> b == p(x.deep_view()),
        decreases v@.len() - i,
    {
        if f(&v[i]) {
            proof {
                assert(s[i as int] == v@[i as int].deep_view());
                assert forall|j: int| 0 <= j < i implies !p(#[trigger] s[j]) by {
                    assert(s[j] == v@[j].deep_view());
                }
                first_is(s, p, i as int);
            }
            return Some(i);
        }
        i += 1;
    }
    proof {
        first_found(s, p);
        assert(!any(s, p)) by {
            if any(s, p) {
                let k = choose|k: int| 0 <= k < s.len() && p(#[trigger] s[k]);
                assert(s[k] == v@[k].deep_view());
            }
        }
    }
    None
}

/// What `f` makes of every row, in order.
pub(crate) fn each<T: DeepView, U: DeepView, F: Fn(&T) -> U>(
    v: &Vec<T>,
    f: F,
    Ghost(g): Ghost<spec_fn(T::V) -> U::V>,
) -> (out: Vec<U>)
    requires
        forall|x: &T| call_requires(f, (x,)),
        forall|x: &T, y: U| call_ensures(f, (x,), y) ==> y.deep_view() == g(x.deep_view()),
    ensures
        out.deep_view() == v.deep_view().map_values(g),
{
    let mut out: Vec<U> = Vec::new();
    let mut i: usize = 0;
    while i < v.len()
        invariant
            i <= v@.len(),
            out@.len() == i,
            forall|j: int| 0 <= j < i ==> (#[trigger] out@[j]).deep_view() == g(v@[j].deep_view()),
            forall|x: &T| call_requires(f, (x,)),
            forall|x: &T, y: U| call_ensures(f, (x,), y) ==> y.deep_view() == g(x.deep_view()),
        decreases v@.len() - i,
    {
        out.push(f(&v[i]));
        i += 1;
    }
    assert(out.deep_view() =~= v.deep_view().map_values(g));
    out
}

/// Inserting at the position that the scan from the back stops at.
proof fn insert_by_position<A>(s: Seq<A>, x: A, before: spec_fn(A, A) -> bool, k: int)
    requires
        0 <= k <= s.len(),
        forall|j: int| k <= j < s.len() ==> before(x, #[trigger] s[j]),
        k > 0 ==> !before(x, s[k - 1]),
    ensures
        insert_by(s, x, before) == s.insert(k, x),
    decreases s.len(),
{
    if k < s.len() {
        assert(before(x, s[s.len() - 1]));
        insert_by_position(s.drop_last(), x, before, k);
        assert(s.drop_last().insert(k, x).push(s.last()) =~= s.insert(k, x));
    } else {
        assert(s.insert(k, x) =~= s.push(x));
    }
}

/// Sorting keeps the number of elements.
pub proof fn sort_by_len<A>(s: Seq<A>, before: spec_fn(A, A) -> bool)
    ensures
        sort_by(s, before).len() == s.len(),
    decreases s.len(),
{
    if s.len() > 0 {
        sort_by_len(s.drop_last(), before);
        insert_by_len(sort_by(s.drop_last(), before), s.last(), before);
    }
}

/// Inserting adds one element.
proof fn insert_by_len<A>(s: Seq<A>, x: A, before: spec_fn(A, A) -> bool)
    ensures
        insert_by(s, x, before).len() == s.len() + 1,
    decreases s.len(),
{
    if s.len() > 0 && before(x, s.last()) {
        insert_by_len(s.drop_last(), x, before);
    }
}

/// Whether `before` is an order in which elements can tie.
pub open spec fn is_order<A>(before: spec_fn(A, A) -> bool) -> bool {
    &&& forall|x: A, y: A| #[trigger] before(x, y) ==> !before(y, x)
    &&& forall|x: A, y: A, z: A|
        !#[trigger] before(x, y) && !#[trigger] before(y, z) ==> !before(x, z)
}

/// Whether no element comes before an earlier one.
pub open spec fn is_sorted<A>(s: Seq<A>, before: spec_fn(A, A) -> bool) -> bool {
    forall|i: int, j: int| 0 <= i < j < s.len() ==> !before(#[trigger] s[j], #[trigger] s[i])
}

/// Where an insertion puts its element.
proof fn insert_by_at<A>(s: Seq<A>, x: A, before: spec_fn(A, A) -> bool) -> (k: int)
    ensures
        0 <= k <= s.len(),
        insert_by(s, x, before) == s.insert(k, x),
        forall|j: int| k <= j < s.len() ==> before(x, #[trigger] s[j]),
        k > 0 ==> !before(x, s[k - 1]),
    decreases s.len(),
{
    if s.len() > 0 && before(x, s.last()) {
        let t = s.drop_last();
        let k = insert_by_at(t, x, before);
        assert(t.insert(k, x).push(s.last()) =~= s.insert(k, x));
        assert forall|j: int| k <= j < s.len() implies before(x, #[trigger] s[j]) by {
            if j < t.len() {
                assert(t[j] == s[j]);
            }
        }
        k
    } else {
        assert(s.insert(s.len() as int, x) =~= s.push(x));
        s.len() as int
    }
}

/// What comes out of a sort is sorted.
pub proof fn sort_by_sorted<A>(s: Seq<A>, before: spec_fn(A, A) -> bool)
    requires
        is_order(before),
    ensures
        is_sorted(sort_by(s, before), before),
    decreases s.len(),
{
    if s.len() > 0 {
        sort_by_sorted(s.drop_last(), before);
        let t = sort_by(s.drop_last(), before);
        let x = s.last();
        let k = insert_by_at(t, x, before);
        let r = t.insert(k, x);
        assert forall|i: int, j: int| 0 <= i < j < r.len() implies !before(
            #[trigger] r[j],
            #[trigger] r[i],
        ) by {
            let a = if i < k {
                i
            } else {
                i - 1
            };
            let b = if j < k {
                j
            } else {
                j - 1
            };
            if i == k {
                assert(before(x, t[b]));
            } else if j == k {
                if i < k - 1 {
                    assert(!before(t[k - 1], t[i]));
                    assert(!before(x, t[k - 1]));
                }
            } else {
                assert(!before(t[b], t[a]));
            }
        }
    }
}

/// A sort yields exactly the elements that went in.
pub proof fn sort_by_elements<A>(s: Seq<A>, before: spec_fn(A, A) -> bool)
    ensures
        forall|x: A| sort_by(s, before).contains(x) <==> #[trigger] s.contains(x),
    decreases s.len(),
{
    if s.len() > 0 {
        let d = s.drop_last();
        sort_by_elements(d, before);
        let t = sort_by(d, before);
        let k = insert_by_at(t, s.last(), before);
        let r = t.insert(k, s.last());
        assert forall|x: A| r.contains(x) <==> #[trigger] s.contains(x) by {
            if r.contains(x) {
                let i = choose|i: int| 0 <= i < r.len() && r[i] == x;
                if i < k {
                    assert(t[i] == x);
                    assert(t.contains(x));
                    assert(d.contains(x));
                    let j = choose|j: int| 0 <= j < d.len() && d[j] == x;
                    assert(s[j] == x);
                } else if i > k {
                    assert(t[i - 1] == x);
                    assert(t.contains(x));
                    assert(d.contains(x));
                    let j = choose|j: int| 0 <= j < d.len() && d[j] == x;
                    assert(s[j] == x);
                } else {
                    assert(s[s.len() - 1] == x);
                }
            }
            if s.contains(x) {
                let j = choose|j: int| 0 <= j < s.len() && s[j] == x;
                if j < d.len() {
                    assert(d[j] == x);
                    assert(d.contains(x));
                    assert(t.contains(x));
                    let i = choose|i: int| 0 <= i < t.len() && t[i] == x;
                    if i < k {
                        assert(r[i] == x);
                    } else {
                        assert(r[i + 1] == x);
                    }
                } else {
                    assert(r[k] == x);
                }
            }
        }
    }
}

/// What comes out of a sort is what went in.
pub proof fn sort_by_permutes<A>(s: Seq<A>, before: spec_fn(A, A) -> bool)
    ensures
        sort_by(s, before).to_multiset() == s.to_multiset(),
    decreases s.len(),
{
    broadcast use vstd::seq_lib::group_to_multiset_ensures;

    if s.len() > 0 {
        let d = s.drop_last();
        sort_by_permutes(d, before);
        let t = sort_by(d, before);
        let k = insert_by_at(t, s.last(), before);
        assert(s =~= d.push(s.last()));
        assert(t.insert(k, s.last()).to_multiset() == t.to_multiset().insert(s.last()));
    }
}

/// The rows in the order `f`, equal rows in the order they had.
pub(crate) fn sorted<T: Row, F: Fn(&T, &T) -> bool>(
    v: &Vec<T>,
    f: F,
    Ghost(before): Ghost<spec_fn(T::V, T::V) -> bool>,
) -> (out: Vec<T>)
    requires
        forall|x: &T, y: &T| call_requires(f, (x, y)),
        forall|x: &T, y: &T, b: bool|
            call_ensures(f, (x, y), b) ==> b == before(x.deep_view(), y.deep_view()),
    ensures
        out.deep_view() == sort_by(v.deep_view(), before),
{
    let mut out: Vec<T> = Vec::new();
    let mut i: usize = 0;
    let ghost s = v.deep_view();
    assert(out.deep_view() =~= sort_by(s.take(0), before));
    while i < v.len()
        invariant
            i <= v@.len(),
            s == v.deep_view(),
            out.deep_view() == sort_by(s.take(i as int), before),
            forall|x: &T, y: &T| call_requires(f, (x, y)),
            forall|x: &T, y: &T, b: bool|
                call_ensures(f, (x, y), b) ==> b == before(x.deep_view(), y.deep_view()),
        decreases v@.len() - i,
    {
        let mut k: usize = out.len();
        while k > 0 && f(&v[i], &out[k - 1])
            invariant
                i < v@.len(),
                k <= out@.len(),
                forall|j: int|
                    k <= j < out@.len() ==> before(
                        v@[i as int].deep_view(),
                        (#[trigger] out@[j]).deep_view(),
                    ),
                forall|x: &T, y: &T| call_requires(f, (x, y)),
                forall|x: &T, y: &T, b: bool|
                    call_ensures(f, (x, y), b) ==> b == before(x.deep_view(), y.deep_view()),
            ensures
                k > 0 ==> !before(v@[i as int].deep_view(), out@[k - 1].deep_view()),
            decreases k,
        {
            k -= 1;
        }
        let ghost prev = out;
        out.insert(k, v[i].dup());
        proof {
            let x = v@[i as int].deep_view();
            assert forall|j: int| k <= j < prev.deep_view().len() implies before(
                x,
                #[trigger] prev.deep_view()[j],
            ) by {
                assert(prev@[j].deep_view() == prev.deep_view()[j]);
            }
            insert_by_position(prev.deep_view(), x, before, k as int);
            assert(out.deep_view() =~= prev.deep_view().insert(k as int, x));
            assert(s.take(i + 1).drop_last() =~= s.take(i as int));
            assert(s.take(i + 1).last() == s[i as int]);
        }
        i += 1;
    }
    assert(s.take(s.len() as int) =~= s);
    out
}

/// Filtering twice, where the second filter keeps only what the first does.
pub proof fn filter_within<A>(s: Seq<A>, p: spec_fn(A) -> bool, q: spec_fn(A) -> bool)
    requires
        forall|i: int| 0 <= i < s.len() && q(#[trigger] s[i]) ==> p(s[i]),
    ensures
        s.filter(p).filter(q) == s.filter(q),
    decreases s.len(),
{
    reveal(Seq::filter);
    if s.len() > 0 {
        let d = s.drop_last();
        assert forall|i: int| 0 <= i < d.len() && q(#[trigger] d[i]) implies p(d[i]) by {
            assert(d[i] == s[i]);
        }
        filter_within(d, p, q);
        let x = s.last();
        assert(x == s[s.len() - 1]);
        if p(x) {
            let t = d.filter(p);
            assert(s.filter(p) == t.push(x));
            assert(t.push(x).drop_last() =~= t);
            assert(t.push(x).last() == x);
        }
    }
}

/// Filtering twice, where the second filter keeps nothing that the first does.
pub proof fn filter_apart<A>(s: Seq<A>, p: spec_fn(A) -> bool, q: spec_fn(A) -> bool)
    requires
        forall|i: int| 0 <= i < s.len() && p(#[trigger] s[i]) ==> !q(s[i]),
    ensures
        s.filter(p).filter(q) == Seq::<A>::empty(),
{
    filter_elements(s, p);
    let t = s.filter(p);
    filter_elements(t, q);
    if t.filter(q).len() > 0 {
        let x = t.filter(q)[0];
        assert(q(x) && t.contains(x));
        let j = choose|j: int| 0 <= j < t.len() && t[j] == x;
        assert(p(t[j]) && s.contains(t[j]));
        let k = choose|k: int| 0 <= k < s.len() && s[k] == t[j];
        assert(p(s[k]));
    }
    assert(t.filter(q) =~= Seq::empty());
}

/// Filtering after a push.
pub proof fn filter_pushed<A>(s: Seq<A>, x: A, p: spec_fn(A) -> bool)
    ensures
        s.push(x).filter(p) == (if p(x) {
            s.filter(p).push(x)
        } else {
            s.filter(p)
        }),
{
    reveal(Seq::filter);
    assert(s.push(x).drop_last() =~= s);
}

/// A filter that keeps everything keeps the sequence.
pub proof fn filter_keeps_all<A>(s: Seq<A>, p: spec_fn(A) -> bool)
    requires
        forall|i: int| 0 <= i < s.len() ==> p(#[trigger] s[i]),
    ensures
        s.filter(p) == s,
    decreases s.len(),
{
    reveal(Seq::filter);
    if s.len() > 0 {
        let d = s.drop_last();
        assert forall|i: int| 0 <= i < d.len() implies p(#[trigger] d[i]) by {
            assert(d[i] == s[i]);
        }
        filter_keeps_all(d, p);
        assert(s.last() == s[s.len() - 1]);
        assert(d.push(s.last()) =~= s);
    } else {
        assert(s.filter(p) =~= s);
    }
}

/// Sorting what is sorted changes nothing.
pub proof fn sort_by_kept<A>(s: Seq<A>, before: spec_fn(A, A) -> bool)
    requires
        is_sorted(s, before),
    ensures
        sort_by(s, before) == s,
    decreases s.len(),
{
    if s.len() > 0 {
        let d = s.drop_last();
        assert(is_sorted(d, before)) by {
            assert forall|i: int, j: int| 0 <= i < j < d.len() implies !before(
                #[trigger] d[j],
                #[trigger] d[i],
            ) by {
                assert(!before(s[j], s[i]));
            }
        }
        sort_by_kept(d, before);
        if d.len() > 0 {
            assert(!before(s[s.len() - 1], s[s.len() - 2]));
        }
        assert(d.push(s.last()) =~= s);
    }
}

/// Inserting commutes with a map that keeps the order.
proof fn insert_by_mapped<A, B>(
    s: Seq<A>,
    x: A,
    f: spec_fn(A) -> B,
    a: spec_fn(A, A) -> bool,
    b: spec_fn(B, B) -> bool,
)
    requires
        forall|y: A, z: A| #[trigger] a(y, z) == b(f(y), f(z)),
    ensures
        insert_by(s, x, a).map_values(f) == insert_by(s.map_values(f), f(x), b),
    decreases s.len(),
{
    if s.len() > 0 {
        assert(a(x, s.last()) == b(f(x), f(s.last())));
        assert(s.map_values(f).last() == f(s.last()));
        assert(s.map_values(f).drop_last() =~= s.drop_last().map_values(f));
        if a(x, s.last()) {
            insert_by_mapped(s.drop_last(), x, f, a, b);
            let t = insert_by(s.drop_last(), x, a);
            assert(t.push(s.last()).map_values(f) =~= t.map_values(f).push(f(s.last())));
        } else {
            assert(s.push(x).map_values(f) =~= s.map_values(f).push(f(x)));
        }
    } else {
        assert(s.push(x).map_values(f) =~= s.map_values(f).push(f(x)));
    }
}

/// Sorting commutes with a map that keeps the order.
pub proof fn sort_by_mapped<A, B>(
    s: Seq<A>,
    f: spec_fn(A) -> B,
    a: spec_fn(A, A) -> bool,
    b: spec_fn(B, B) -> bool,
)
    requires
        forall|y: A, z: A| #[trigger] a(y, z) == b(f(y), f(z)),
    ensures
        sort_by(s, a).map_values(f) == sort_by(s.map_values(f), b),
    decreases s.len(),
{
    if s.len() > 0 {
        let d = s.drop_last();
        sort_by_mapped(d, f, a, b);
        insert_by_mapped(sort_by(d, a), s.last(), f, a, b);
        assert(s.map_values(f).drop_last() =~= d.map_values(f));
        assert(s.map_values(f).last() == f(s.last()));
    } else {
        assert(sort_by(s, a).map_values(f) =~= sort_by(s.map_values(f), b));
    }
}

/// A rewrite of elements that a filter drops, and keeps dropping, does not show in
/// what it keeps.
pub proof fn filter_rewritten<A>(
    s: Seq<A>,
    p: spec_fn(A) -> bool,
    f: spec_fn(A) -> A,
    q: spec_fn(A) -> bool,
)
    requires
        forall|x: A| #[trigger] p(x) ==> !q(x) && !q(f(x)),
    ensures
        rewrite(s, p, f).filter(q) == s.filter(q),
    decreases s.len(),
{
    reveal(Seq::filter);
    let t = rewrite(s, p, f);
    if s.len() > 0 {
        filter_rewritten(s.drop_last(), p, f, q);
        assert(t.drop_last() =~= rewrite(s.drop_last(), p, f));
        let x = s.last();
        assert(t.last() == (if p(x) {
            f(x)
        } else {
            x
        }));
        if p(x) {
            assert(!q(f(x)));
        }
    } else {
        assert(t =~= s);
    }
}

/// A rewrite of nothing changes nothing.
pub proof fn rewrite_nothing<A>(s: Seq<A>, p: spec_fn(A) -> bool, f: spec_fn(A) -> A)
    requires
        !any(s, p),
    ensures
        rewrite(s, p, f) == s,
{
    assert forall|i: int| 0 <= i < s.len() implies !p(#[trigger] s[i]) by {
        if p(s[i]) {
            assert(any(s, p));
        }
    }
    assert(rewrite(s, p, f) =~= s);
}

/// What holds between the elements of a sequence and the later ones holds between
/// what a partial map makes of them.
pub proof fn filter_map_ordered<A, B>(
    s: Seq<A>,
    f: spec_fn(A) -> Option<B>,
    r: spec_fn(A, A) -> bool,
    q: spec_fn(B, B) -> bool,
)
    requires
        forall|i: int, j: int| 0 <= i < j < s.len() ==> r(#[trigger] s[i], #[trigger] s[j]),
        forall|x: A, y: A|
            r(x, y) && (#[trigger] f(x)) is Some && (#[trigger] f(y)) is Some ==> q(
                f(x)->0,
                f(y)->0,
            ),
    ensures
        forall|i: int, j: int|
            0 <= i < j < s.filter_map(f).len() ==> q(
                #[trigger] s.filter_map(f)[i],
                #[trigger] s.filter_map(f)[j],
            ),
        forall|i: int|
            0 <= i < s.filter_map(f).len() ==> exists|k: int|
                0 <= k < s.len() && f(#[trigger] s[k]) == Some(#[trigger] s.filter_map(f)[i]),
    decreases s.len(),
{
    if s.len() > 0 {
        let d = s.drop_last();
        assert forall|i: int, j: int| 0 <= i < j < d.len() implies r(
            #[trigger] d[i],
            #[trigger] d[j],
        ) by {
            assert(r(s[i], s[j]));
        }
        filter_map_ordered(d, f, r, q);
        let t = s.filter_map(f);
        let u = d.filter_map(f);
        let x = s.last();
        assert(x == s[s.len() - 1]);
        assert(t =~= (match f(x) {
            Some(y) => u + seq![y],
            None => u,
        }));
        assert forall|i: int| 0 <= i < t.len() implies exists|k: int|
            0 <= k < s.len() && f(#[trigger] s[k]) == Some(#[trigger] t[i]) by {
            if i < u.len() {
                let k = choose|k: int| 0 <= k < d.len() && f(#[trigger] d[k]) == Some(u[i]);
                assert(f(s[k]) == Some(t[i]));
            } else {
                assert(f(s[s.len() - 1]) == Some(t[i]));
            }
        }
        assert forall|i: int, j: int| 0 <= i < j < t.len() implies q(
            #[trigger] t[i],
            #[trigger] t[j],
        ) by {
            if j < u.len() {
                assert(q(u[i], u[j]));
            } else {
                let k = choose|k: int| 0 <= k < d.len() && f(#[trigger] d[k]) == Some(u[i]);
                assert(r(s[k], s[s.len() - 1]));
                assert(f(s[k]) is Some && f(x) is Some);
            }
        }
    }
}

/// What a partial map makes of the elements of a sequence.
pub proof fn filter_map_elements<A, B>(s: Seq<A>, f: spec_fn(A) -> Option<B>)
    ensures
        forall|i: int|
            0 <= i < s.filter_map(f).len() ==> exists|k: int|
                0 <= k < s.len() && f(#[trigger] s[k]) == Some(#[trigger] s.filter_map(f)[i]),
        forall|k: int|
            0 <= k < s.len() && f(#[trigger] s[k]) is Some ==> s.filter_map(f).contains(f(s[k])->0),
    decreases s.len(),
{
    if s.len() > 0 {
        let d = s.drop_last();
        filter_map_elements(d, f);
        let t = s.filter_map(f);
        let u = d.filter_map(f);
        let x = s.last();
        assert(x == s[s.len() - 1]);
        assert(t =~= (match f(x) {
            Some(y) => u + seq![y],
            None => u,
        }));
        assert forall|i: int| 0 <= i < t.len() implies exists|k: int|
            0 <= k < s.len() && f(#[trigger] s[k]) == Some(#[trigger] t[i]) by {
            if i < u.len() {
                let k = choose|k: int| 0 <= k < d.len() && f(#[trigger] d[k]) == Some(u[i]);
                assert(f(s[k]) == Some(t[i]));
            } else {
                assert(f(s[s.len() - 1]) == Some(t[i]));
            }
        }
        assert forall|k: int| 0 <= k < s.len() && f(#[trigger] s[k]) is Some implies t.contains(
            f(s[k])->0,
        ) by {
            if k < d.len() {
                assert(d[k] == s[k]);
                assert(u.contains(f(d[k])->0));
                let i = choose|i: int| 0 <= i < u.len() && u[i] == f(d[k])->0;
                assert(t[i] == f(s[k])->0);
            } else {
                assert(t[t.len() - 1] == f(s[k])->0);
            }
        }
    }
}

/// The first match of a rewritten sequence, where the rewrite is not noticed by
/// the predicate.
pub proof fn first_rewritten<A>(
    s: Seq<A>,
    p: spec_fn(A) -> bool,
    f: spec_fn(A) -> A,
    q: spec_fn(A) -> bool,
)
    requires
        forall|x: A| q(#[trigger] f(x)) == q(x),
    ensures
        first(rewrite(s, p, f), q) == (match first(s, q) {
            Some(x) => Some(
                if p(x) {
                    f(x)
                } else {
                    x
                },
            ),
            None => None,
        }),
    decreases s.len(),
{
    let t = rewrite(s, p, f);
    if s.len() > 0 {
        first_rewritten(s.drop_last(), p, f, q);
        assert(t.drop_last() =~= rewrite(s.drop_last(), p, f));
        assert(q(f(s.last())) == q(s.last()));
    }
}

/// Inserting commutes with a filter.
proof fn insert_by_filtered<A>(
    t: Seq<A>,
    x: A,
    before: spec_fn(A, A) -> bool,
    p: spec_fn(A) -> bool,
)
    requires
        is_order(before),
        is_sorted(t, before),
    ensures
        insert_by(t, x, before).filter(p) == (if p(x) {
            insert_by(t.filter(p), x, before)
        } else {
            t.filter(p)
        }),
    decreases t.len(),
{
    if t.len() > 0 && before(x, t.last()) {
        let d = t.drop_last();
        let y = t.last();
        assert forall|i: int, j: int| 0 <= i < j < d.len() implies !before(
            #[trigger] d[j],
            #[trigger] d[i],
        ) by {
            assert(!before(t[j], t[i]));
        }
        insert_by_filtered(d, x, before, p);
        assert(t =~= d.push(y));
        filter_pushed(d, y, p);
        filter_pushed(insert_by(d, x, before), y, p);
        if p(y) {
            assert(d.filter(p).push(y).drop_last() =~= d.filter(p));
        }
    } else {
        filter_pushed(t, x, p);
        filter_elements(t, p);
        let f = t.filter(p);
        if f.len() > 0 {
            assert(t.contains(f[f.len() - 1]));
            let j = choose|j: int| 0 <= j < t.len() && t[j] == f[f.len() - 1];
            let n = t.len() - 1;
            if j < n {
                assert(!before(t[n], t[j]));
            }
            assert(!before(x, t[n]));
            assert(!before(x, f.last()));
        }
    }
}

/// Sorting commutes with a filter.
pub proof fn sort_by_filtered<A>(s: Seq<A>, before: spec_fn(A, A) -> bool, p: spec_fn(A) -> bool)
    requires
        is_order(before),
    ensures
        sort_by(s.filter(p), before) == sort_by(s, before).filter(p),
    decreases s.len(),
{
    reveal(Seq::filter);
    if s.len() > 0 {
        let d = s.drop_last();
        sort_by_filtered(d, before, p);
        sort_by_sorted(d, before);
        insert_by_filtered(sort_by(d, before), s.last(), before, p);
        assert(s =~= d.push(s.last()));
        filter_pushed(d, s.last(), p);
        if p(s.last()) {
            assert(d.filter(p).push(s.last()).drop_last() =~= d.filter(p));
        }
    }
}

/// A filter of a sequence in which elements changed that it then drops.
pub proof fn filter_narrowed<A>(
    s: Seq<A>,
    t: Seq<A>,
    p: spec_fn(A) -> bool,
    q: spec_fn(A) -> bool,
)
    requires
        s.len() == t.len(),
        forall|k: int| 0 <= k < t.len() && p(#[trigger] t[k]) ==> t[k] == s[k],
        forall|k: int| 0 <= k < t.len() ==> (p(#[trigger] t[k]) <==> p(s[k]) && q(s[k])),
    ensures
        t.filter(p) == s.filter(p).filter(q),
    decreases s.len(),
{
    reveal(Seq::filter);
    if s.len() > 0 {
        let a = s.drop_last();
        let b = t.drop_last();
        assert forall|k: int| 0 <= k < b.len() && p(#[trigger] b[k]) implies b[k] == a[k] by {
            assert(t[k] == b[k]);
        }
        assert forall|k: int| 0 <= k < b.len() implies (p(#[trigger] b[k]) <==> p(a[k]) && q(
            a[k],
        )) by {
            assert(t[k] == b[k]);
        }
        filter_narrowed(a, b, p, q);
        assert(t[t.len() - 1] == t.last());
        if p(s.last()) {
            filter_pushed(a.filter(p), s.last(), q);
        }
    } else {
        assert(t.filter(p) =~= s.filter(p).filter(q));
    }
}

/// Two sequences that a filter and a map cannot tell apart.
pub proof fn filter_mapped_alike<A, B>(
    s: Seq<A>,
    t: Seq<A>,
    p: spec_fn(A) -> bool,
    f: spec_fn(A) -> B,
)
    requires
        s.len() == t.len(),
        forall|k: int| 0 <= k < t.len() ==> p(#[trigger] t[k]) == p(s[k]) && f(t[k]) == f(s[k]),
    ensures
        s.filter(p).map_values(f) == t.filter(p).map_values(f),
    decreases s.len(),
{
    reveal(Seq::filter);
    if s.len() > 0 {
        let a = s.drop_last();
        let b = t.drop_last();
        assert forall|k: int| 0 <= k < b.len() implies p(#[trigger] b[k]) == p(a[k]) && f(b[k])
            == f(a[k]) by {
            assert(t[k] == b[k]);
        }
        filter_mapped_alike(a, b, p, f);
        assert(t[t.len() - 1] == t.last());
        if p(s.last()) {
            assert(s.filter(p).map_values(f) =~= a.filter(p).map_values(f).push(f(s.last())));
            assert(t.filter(p).map_values(f) =~= b.filter(p).map_values(f).push(f(t.last())));
        }
    } else {
        assert(s =~= t);
    }
}

/// What is left of a sorted sequence is sorted.
pub proof fn filter_sorted<A>(s: Seq<A>, before: spec_fn(A, A) -> bool, p: spec_fn(A) -> bool)
    requires
        is_sorted(s, before),
    ensures
        is_sorted(s.filter(p), before),
    decreases s.len(),
{
    reveal(Seq::filter);
    if s.len() > 0 {
        let d = s.drop_last();
        assert forall|i: int, j: int| 0 <= i < j < d.len() implies !before(
            #[trigger] d[j],
            #[trigger] d[i],
        ) by {
            assert(s[i] == d[i] && s[j] == d[j]);
        }
        filter_sorted(d, before, p);
        filter_elements(d, p);
        let t = d.filter(p);
        if p(s.last()) {
            assert forall|i: int| 0 <= i < t.len() implies !before(s.last(), #[trigger] t[i]) by {
                assert(d.contains(t[i]));
                let k = choose|k: int| 0 <= k < d.len() && d[k] == t[i];
                assert(!before(s[s.len() - 1], s[k]));
            }
        }
    }
}

} // verus!
