//! Libraries and keys: a key names one place, whatever folder its library is
//! mounted at, and designating a folder keeps every review.
use vstd::prelude::*;

use crate::bundle::by_path;
use crate::laws::settings::settings_are_read_back;
use crate::library::{
    adopted_key, adoption_collides, designated, left_outside, library_put, located, mounted_as,
    with_meta,
};
use crate::path::{
    begins_with_dot, body_spans, component, from_component, is_component, joined, lies_under,
    next_separator, next_separator_bounds, rooted, spans, spans_bounds, stripped,
};
use crate::scan::{appearing, listed, newest_first, session_entry, session_list, sessions_of};
use crate::store::{
    home_of, library_of, next_library, recording_at, recordings_in, LibraryView, RecordingView,
    StoreView,
};
use crate::table::{
    any, filter_elements, filter_map_elements, first, first_found, first_is, sort_by,
    sort_by_elements,
};
use crate::timeline::row_at;

verus! {

/// Whether a text is a key as scans write them: relative, and without anything
/// before its first component or behind its last.
pub open spec fn clean(key: Seq<char>) -> bool {
    &&& !rooted(key)
    &&& !begins_with_dot(key)
    &&& spans(key).len() > 0
    &&& spans(key)[0].0 == 0
    &&& spans(key).last().1 == key.len()
}

/// Spans further behind.
spec fn shifted(s: Seq<(int, int)>, n: int) -> Seq<(int, int)> {
    s.map_values(|p: (int, int)| (p.0 + n, p.1 + n))
}

/// The next separator behind a prefix.
proof fn separator_behind(p: Seq<char>, k: Seq<char>, j: int)
    requires
        0 <= j <= k.len(),
    ensures
        next_separator(p + k, p.len() + j) == p.len() + next_separator(k, j),
    decreases k.len() - j,
{
    let t = p + k;
    if j < k.len() {
        assert(t[p.len() + j] == k[j]);
        if k[j] != '/' {
            separator_behind(p, k, j + 1);
        }
    }
}

/// The components behind a prefix.
proof fn spans_behind(p: Seq<char>, k: Seq<char>, j: int)
    requires
        0 <= j,
    ensures
        body_spans(p + k, p.len() + j) == shifted(body_spans(k, j), p.len() as int),
    decreases k.len() + 1 - j,
{
    let t = p + k;
    let n = p.len() as int;
    if j < k.len() {
        separator_behind(p, k, j);
        next_separator_bounds(k, j);
        let e = next_separator(k, j);
        spans_behind(p, k, e + 1);
        assert(t.subrange(n + j, n + e) =~= k.subrange(j, e));
        assert(body_spans(t, n + j) =~= shifted(body_spans(k, j), n));
    } else {
        assert(body_spans(t, n + j) =~= shifted(body_spans(k, j), n));
    }
}

/// The components of a folder and of what lies in it.
proof fn spans_through(p: Seq<char>, k: Seq<char>, i: int)
    requires
        0 <= i <= p.len(),
        p.len() > 0,
        p.last() == '/',
    ensures
        body_spans(p + k, i) == body_spans(p, i) + shifted(body_spans(k, 0), p.len() as int),
    decreases p.len() - i,
{
    let t = p + k;
    if i == p.len() {
        spans_behind(p, k, 0);
        assert(body_spans(t, i) =~= body_spans(p, i) + shifted(body_spans(k, 0), p.len() as int));
    } else {
        next_separator_bounds(p, i);
        next_separator_bounds(t, i);
        let j = next_separator(p, i);
        assert(j < p.len()) by {
            if j == p.len() {
                assert(p[p.len() - 1] == '/');
            }
        }
        assert(next_separator(t, i) == j) by {
            assert(t[j] == p[j]);
            let e = next_separator(t, i);
            if e < j {
                assert(t[e] == p[e]);
            }
        }
        spans_through(p, k, j + 1);
        assert(t.subrange(i, j) =~= p.subrange(i, j));
        assert(body_spans(t, i) =~= body_spans(p, i) + shifted(body_spans(k, 0), p.len() as int));
    }
}

/// A trailing separator adds no component.
proof fn spans_before_separator(l: Seq<char>, i: int)
    requires
        0 <= i <= l.len(),
    ensures
        body_spans(l.push('/'), i) == body_spans(l, i),
    decreases l.len() - i,
{
    let p = l.push('/');
    next_separator_bounds(l, i);
    next_separator_bounds(p, i);
    let j = next_separator(l, i);
    assert(next_separator(p, i) == j) by {
        assert(p[j] == '/');
        let e = next_separator(p, i);
        if e < j {
            assert(p[e] == l[e]);
        }
    }
    assert(p.subrange(i, j) =~= l.subrange(i, j));
    if j < l.len() {
        spans_before_separator(l, j + 1);
    } else {
        assert(body_spans(p, j + 1) =~= Seq::empty());
        assert(body_spans(l, j + 1) =~= Seq::empty());
    }
}

/// The components of a path in a folder are those of the folder and then those of
/// the key.
proof fn spans_of_joined(l: Seq<char>, k: Seq<char>)
    requires
        l.len() > 0,
        !rooted(k),
        !begins_with_dot(k),
    ensures
        joined(l, k).len() >= l.len() + k.len(),
        joined(l, k).take(l.len() as int) == l,
        joined(l, k).skip(joined(l, k).len() - k.len()) == k,
        spans(joined(l, k)) == spans(l) + shifted(spans(k), joined(l, k).len() - k.len()),
{
    let t = joined(l, k);
    let p = if l.last() == '/' {
        l
    } else {
        l.push('/')
    };
    assert(t == p + k);
    assert(t.take(l.len() as int) =~= l);
    assert(t.skip(p.len() as int) =~= k);
    spans_before_separator(l, 0);
    if l.len() >= 1 {
        spans_before_separator(l, 1);
    }
    assert(t[0] == l[0]);
    assert(begins_with_dot(t) == begins_with_dot(l)) by {
        if l.len() > 1 {
            assert(t[1] == l[1]);
        } else if l[0] == '.' {
            assert(t[1] == '/');
        }
    }
    if rooted(l) || begins_with_dot(l) {
        spans_through(p, k, 1);
    } else {
        spans_through(p, k, 0);
    }
    assert(spans(t) =~= spans(l) + shifted(spans(k), p.len() as int));
}

/// A key names one place: joined with its library's folder and taken off it again,
/// it is the same key.
pub proof fn keys_round_trip(library: Seq<char>, key: Seq<char>)
    requires
        clean(key),
    ensures
        stripped(library, joined(library, key)) == Some(key),
{
    let l = library;
    let t = joined(l, key);
    spans_bounds(key);
    spans_bounds(l);
    if l.len() == 0 {
        assert(t =~= key);
        assert(spans(l) =~= Seq::empty());
        assert(from_component(t, 0) =~= key);
    } else {
        spans_of_joined(l, key);
        let m = spans(l).len() as int;
        let n = t.len() - key.len();
        assert forall|i: int| 0 <= i < m implies #[trigger] component(l, i) == component(t, i) by {
            assert(spans(t)[i] == spans(l)[i]);
            assert(t.subrange(spans(l)[i].0, spans(l)[i].1) =~= t.take(l.len() as int).subrange(
                spans(l)[i].0,
                spans(l)[i].1,
            ));
        }
        assert(spans(t)[m] == (spans(key)[0].0 + n, spans(key)[0].1 + n));
        assert(spans(t).last() == (spans(key).last().0 + n, spans(key).last().1 + n));
        assert(from_component(t, m) =~= t.skip(n));
    }
}

/// The components from one of them on.
proof fn spans_from(s: Seq<char>, i: int, m: int)
    requires
        0 <= i,
        0 <= m < body_spans(s, i).len(),
    ensures
        body_spans(s, body_spans(s, i)[m].0) == body_spans(s, i).skip(m),
        is_component(s.subrange(body_spans(s, i)[m].0, body_spans(s, i)[m].1)),
        body_spans(s, i)[m].1 == next_separator(s, body_spans(s, i)[m].0),
        i <= body_spans(s, i)[m].0 < s.len(),
    decreases s.len() + 1 - i,
{
    next_separator_bounds(s, i);
    let j = next_separator(s, i);
    let rest = body_spans(s, j + 1);
    if is_component(s.subrange(i, j)) {
        assert(body_spans(s, i) == seq![(i, j)] + rest);
        if m == 0 {
            assert(body_spans(s, i).skip(0) =~= body_spans(s, i));
        } else {
            spans_from(s, j + 1, m - 1);
            assert(body_spans(s, i)[m] == rest[m - 1]);
            assert(body_spans(s, i).skip(m) =~= rest.skip(m - 1));
        }
    } else {
        spans_from(s, j + 1, m);
    }
}

/// What comes behind the last component does not count.
proof fn spans_up_to(s: Seq<char>, i: int)
    requires
        0 <= i,
        body_spans(s, i).len() > 0,
    ensures
        body_spans(s.take(body_spans(s, i).last().1), i) == body_spans(s, i),
        i < body_spans(s, i).last().1 <= s.len(),
    decreases s.len() + 1 - i,
{
    let b = body_spans(s, i);
    let e = b.last().1;
    next_separator_bounds(s, i);
    let j = next_separator(s, i);
    let rest = body_spans(s, j + 1);
    if rest.len() > 0 {
        spans_up_to(s, j + 1);
        assert(b.last() == rest.last());
        let t = s.take(e);
        next_separator_bounds(t, i);
        assert(next_separator(t, i) == j) by {
            assert(t[j] == s[j]);
            let f = next_separator(t, i);
            if f < j {
                assert(t[f] == s[f]);
            }
        }
        assert(t.subrange(i, j) =~= s.subrange(i, j));
        assert(body_spans(t, i) =~= b);
    } else {
        assert(b =~= seq![(i, j)]);
        let t = s.take(j);
        next_separator_bounds(t, i);
        assert(next_separator(t, i) == j) by {
            let f = next_separator(t, i);
            if f < j {
                assert(t[f] == s[f]);
            }
        }
        assert(t.subrange(i, j) =~= s.subrange(i, j));
        assert(body_spans(t, j + 1) =~= Seq::empty());
        assert(body_spans(t, i) =~= b);
    }
}

/// A path that is not empty has a component, and the first one starts it.
proof fn first_component(s: Seq<char>)
    requires
        s.len() > 0,
    ensures
        spans(s).len() > 0,
        spans(s)[0].0 == 0,
{
    if !rooted(s) && !begins_with_dot(s) {
        next_separator_bounds(s, 0);
        let j = next_separator(s, 0);
        let piece = s.subrange(0, j);
        if piece == seq!['.'] {
            assert(piece[0] == s[0]);
            assert(piece.len() == 1);
        }
        assert(is_component(piece));
    }
}

/// The keys that a scan takes off its library's folder are clean.
pub proof fn stripped_keys_are_clean(library: Seq<char>, path: Seq<char>)
    requires
        library.len() > 0,
    ensures
        stripped(library, path) matches Some(key) ==> key.len() > 0 ==> clean(key),
{
    let m = spans(library).len() as int;
    if lies_under(library, path) && m < spans(path).len() {
        let start = if rooted(path) || begins_with_dot(path) {
            1int
        } else {
            0int
        };
        let b = body_spans(path, start);
        first_component(library);
        let i = m - start;
        assert(spans(path)[m] == b[i]);
        assert(spans(path).last() == b.last());
        spans_from(path, start, i);
        let a = b[i].0;
        let rest = b.skip(i);
        assert(body_spans(path, a) == rest);
        assert(rest.last() == b.last());
        spans_up_to(path, a);
        let e = b.last().1;
        let cut = path.take(e);
        let key = path.subrange(a, e);
        assert(cut =~= cut.take(a) + key);
        spans_behind(cut.take(a), key, 0);
        let k = body_spans(key, 0);
        assert(shifted(k, a) == rest);
        assert(k.len() == rest.len());
        assert(rest[0] == b[i]);
        assert(shifted(k, a)[0] == (k[0].0 + a, k[0].1 + a));
        assert(shifted(k, a).last() == (k.last().0 + a, k.last().1 + a));
        next_separator_bounds(path, a);
        assert(key[0] == path[a]);
        assert(!rooted(key)) by {
            assert(path.subrange(a, b[i].1).len() > 0);
        }
        assert(!begins_with_dot(key)) by {
            if begins_with_dot(key) {
                spans_bounds(path);
                if m < spans(path).len() - 1 {
                    assert(spans(path)[m].1 <= spans(path)[spans(path).len() - 1].0);
                }
                if key.len() > 1 {
                    assert(key[1] == path[a + 1]);
                }
                assert(b[i].1 == a + 1);
                assert(path.subrange(a, b[i].1) =~= seq!['.']);
            }
        }
        assert(key == from_component(path, m));
    }
}

/// A recording is found again by the path that it is listed under.
pub proof fn listed_paths_are_found(d: StoreView, library: Seq<char>, k: int)
    requires
        d.wf(),
        d.library_path_of(d.active_kind()) == Some(library),
        0 <= k < d.recordings.len(),
        d.recordings[k].library == d.active_kind(),
        clean(d.recordings[k].path),
    ensures
        row_at(d, joined(library, d.recordings[k].path)) == Some(d.recordings[k]),
{
    let r = d.recordings[k];
    keys_round_trip(library, r.path);
    let p = recording_at(r.library, r.path);
    assert forall|j: int| 0 <= j < k implies !p(#[trigger] d.recordings[j]) by {
        assert(!(d.recordings[j].library == d.recordings[k].library && d.recordings[j].path
            == d.recordings[k].path));
    }
    first_is(d.recordings, p, k);
}

/// Designating a folder keeps every review: rallies, annotations and sessions are
/// untouched, recordings of the other library entirely, and those of the library
/// itself but for where they lie. The library is then the active one, at that folder.
pub proof fn designating_keeps_reviews(
    d: StoreView,
    kind: Seq<char>,
    folder: Seq<char>,
    mount: Seq<char>,
)
    ensures
        ({
            let n = designated(d, kind, folder, mount);
            &&& n.rallies == d.rallies
            &&& n.annotations == d.annotations
            &&& n.sessions == d.sessions
            &&& n.recordings.len() == d.recordings.len()
            &&& forall|i: int|
                0 <= i < d.recordings.len() ==> (#[trigger] n.recordings[i]) == (RecordingView {
                    path: n.recordings[i].path,
                    outside: n.recordings[i].outside,
                    ..d.recordings[i]
                }) && (d.recordings[i].library != kind ==> n.recordings[i] == d.recordings[i])
            &&& n.active_kind() == kind
            &&& n.library_path_of(kind) == Some(folder)
        }),
{
    let n = designated(d, kind, folder, mount);
    settings_are_read_back(d, "active_library"@, kind, "active_library"@);
    assert(n.meta == with_meta(d, "active_library"@, kind).meta);
    assert(n.meta_value("active_library"@) == Some(kind));
    library_is_put(d.libraries, kind, folder, mounted_as(kind, mount));
}

/// A designated library is found at its folder.
proof fn library_is_put(s: Seq<LibraryView>, kind: Seq<char>, folder: Seq<char>, mount: Seq<char>)
    ensures
        first(library_put(s, kind, folder, mount), library_of(kind)) matches Some(l) && l.path
            == folder,
{
    let t = library_put(s, kind, folder, mount);
    if any(s, library_of(kind)) {
        let i = choose|i: int| 0 <= i < s.len() && library_of(kind)(#[trigger] s[i]);
        assert(library_of(kind)(t[i]));
    } else {
        assert(library_of(kind)(t[s.len() as int]));
    }
    first_found(t, library_of(kind));
    let l = first(t, library_of(kind))->0;
    let k = choose|k: int| 0 <= k < t.len() && t[k] == l;
    if k < s.len() && !any(s, library_of(kind)) {
        assert(library_of(kind)(s[k]));
    }
}

/// Whether the keys of a library are settled once a folder is designated.
pub open spec fn keys_settle(d: StoreView, kind: Seq<char>, folder: Seq<char>) -> bool {
    forall|i: int|
        0 <= i < d.recordings.len() && (#[trigger] d.recordings[i]).library == kind ==> settles(
            d.library_path_of(kind),
            folder,
            d.recordings[i].path,
        )
}

/// Whether a key is settled once a folder is designated: an absolute path, a key as
/// scans write them, or that of a recording that lies under the folder.
pub open spec fn settles(
    previous: Option<Seq<char>>,
    folder: Seq<char>,
    stored: Seq<char>,
) -> bool {
    ||| clean(stored)
    ||| rooted(stored)
    ||| stored.len() == 0
    ||| stripped(folder, located(previous, stored)) is Some
}

/// The folder joined with nothing has the components of the folder.
proof fn folder_spans(folder: Seq<char>)
    requires
        folder.len() > 0,
    ensures
        spans(joined(folder, Seq::empty())) == spans(folder),
{
    let p = joined(folder, Seq::empty());
    if folder.last() == '/' {
        assert(p =~= folder);
    } else {
        assert(p =~= folder.push('/'));
        spans_before_separator(folder, 0);
        spans_before_separator(folder, 1);
        assert(p[0] == folder[0]);
        if folder.len() > 1 {
            assert(p[1] == folder[1]);
        }
    }
}

/// A path that is the folder itself leaves the empty key.
proof fn folder_itself(folder: Seq<char>)
    requires
        folder.len() > 0,
    ensures
        lies_under(folder, joined(folder, Seq::empty())),
        stripped(folder, joined(folder, Seq::empty())) == Some(Seq::<char>::empty()),
{
    let p = joined(folder, Seq::empty());
    folder_spans(folder);
    spans_bounds(folder);
    assert forall|k: int| 0 <= k < spans(folder).len() implies #[trigger] component(folder, k)
        == component(p, k) by {
        assert(p.subrange(spans(p)[k].0, spans(p)[k].1) =~= folder.subrange(
            spans(p)[k].0,
            spans(p)[k].1,
        ));
    }
}

/// A path without what comes behind its last component has the same components.
proof fn trimmed_spans(path: Seq<char>)
    requires
        path.len() > 0,
    ensures
        from_component(path, 0) == path.take(spans(path).last().1),
        spans(from_component(path, 0)) == spans(path),
{
    let key = from_component(path, 0);
    first_component(path);
    spans_bounds(path);
    let e = spans(path).last().1;
    assert(key =~= path.take(e));
    if rooted(path) || begins_with_dot(path) {
        let b = body_spans(path, 1);
        if b.len() > 0 {
            assert(spans(path).last() == b.last());
            spans_up_to(path, 1);
            assert(key[0] == path[0]);
            assert(key[1] == path[1]);
        } else {
            assert(key =~= path.take(1));
            assert(body_spans(key, 1) =~= Seq::empty());
        }
    } else {
        spans_up_to(path, 0);
        assert(key[0] == path[0]);
        assert(!begins_with_dot(key)) by {
            if begins_with_dot(key) {
                next_separator_bounds(path, 0);
                assert(spans(path)[0].1 <= e);
                let j = next_separator(path, 0);
                if key.len() > 1 {
                    assert(key[1] == path[1]);
                } else {
                    assert(e == 1);
                    assert(spans(path)[0] == (0int, 1int));
                }
            }
        }
    }
    assert(spans(key) =~= spans(path));
}

/// Taking nothing off a path twice is taking it off once.
proof fn trimmed_again(path: Seq<char>)
    ensures
        from_component(from_component(path, 0), 0) == from_component(path, 0),
{
    if path.len() > 0 {
        first_component(path);
        spans_bounds(path);
        trimmed_spans(path);
        let key = from_component(path, 0);
        assert(key.take(spans(path).last().1) =~= key);
        trimmed_spans(key);
    }
}

/// The key under a folder designated a second time.
proof fn adopted_again(previous: Option<Seq<char>>, folder: Seq<char>, stored: Seq<char>)
    requires
        settles(previous, folder, stored),
    ensures
        adopted_key(Some(folder), folder, adopted_key(previous, folder, stored)) == adopted_key(
            previous,
            folder,
            stored,
        ),
        !left_outside(Some(folder), folder, adopted_key(previous, folder, stored)),
{
    let at = located(previous, stored);
    let key = adopted_key(previous, folder, stored);
    if folder.len() == 0 {
        assert(spans(folder) =~= Seq::empty());
        trimmed_again(at);
        assert(joined(folder, key) =~= key);
    } else {
        stripped_keys_are_clean(folder, at);
        if let Some(rel) = stripped(folder, at) {
            if rel.len() > 0 {
                keys_round_trip(folder, rel);
            } else {
                assert(rel =~= Seq::empty());
                folder_itself(folder);
            }
        } else if clean(stored) {
            keys_round_trip(folder, stored);
        } else if stored.len() == 0 {
            assert(stored =~= Seq::empty());
            folder_itself(folder);
        }
    }
}

/// Designating the same folder again changes nothing. Left out are keys that no scan
/// writes, such as `./a`, on recordings from outside of the folder.
pub proof fn designating_again_changes_nothing(
    d: StoreView,
    kind: Seq<char>,
    folder: Seq<char>,
    mount: Seq<char>,
)
    requires
        keys_settle(d, kind, folder),
    ensures
        designated(designated(d, kind, folder, mount), kind, folder, mount) == designated(
            d,
            kind,
            folder,
            mount,
        ),
{
    let n = designated(d, kind, folder, mount);
    designating_keeps_reviews(d, kind, folder, mount);
    let again = designated(n, kind, folder, mount);
    crate::laws::settings::last_setting_stays(d, "active_library"@, kind, kind);
    assert(again.meta == with_meta(
        with_meta(d, "active_library"@, kind),
        "active_library"@,
        kind,
    ).meta);
    assert(again.recordings =~= n.recordings) by {
        assert forall|i: int| 0 <= i < d.recordings.len() implies #[trigger] again.recordings[i]
            == n.recordings[i] by {
            if d.recordings[i].library == kind {
                adopted_again(d.library_path_of(kind), folder, d.recordings[i].path);
            }
        }
    }
    assert(again.libraries =~= n.libraries) by {
        let s = d.libraries;
        let t = n.libraries;
        if any(s, library_of(kind)) {
            let i = choose|i: int| 0 <= i < s.len() && library_of(kind)(#[trigger] s[i]);
            assert(library_of(kind)(t[i]));
        } else {
            assert(library_of(kind)(t[s.len() as int]));
            assert forall|i: int| 0 <= i < s.len() implies (#[trigger] s[i]).kind != kind by {
                if s[i].kind == kind {
                    assert(library_of(kind)(s[i]));
                }
            }
        }
    }
}

/// Whether a recording appears: some session of the active library lists it.
pub open spec fn appears(d: StoreView, id: i64) -> bool {
    exists|i: int, j: int|
        0 <= i < session_list(d).len() && 0 <= j < session_list(d)[i].recordings.len() && (
        #[trigger] session_list(d)[i].recordings[j]).id == id
}

/// A recording appears exactly where it belongs to the active library, which is
/// designated, and lies in it.
pub proof fn recordings_in_the_library_appear(d: StoreView, k: int)
    requires
        d.wf(),
        0 <= k < d.recordings.len(),
    ensures
        appears(d, d.recordings[k].id) <==> {
            &&& d.library_path_of(d.active_kind()) is Some
            &&& d.recordings[k].library == d.active_kind()
            &&& appearing()(d.recordings[k])
        },
{
    let row = d.recordings[k];
    let kind = d.active_kind();
    if let Some(library) = d.library_path_of(kind) {
        let f = session_entry(d, library);
        let own = d.sessions.filter(sessions_of(kind));
        let rows = sort_by(own, newest_first());
        let list = session_list(d);
        filter_map_elements(rows, f);
        filter_elements(d.sessions, sessions_of(kind));
        sort_by_elements(own, newest_first());
        if appears(d, row.id) {
            let (i, j) = choose|i: int, j: int|
                0 <= i < list.len() && 0 <= j < list[i].recordings.len() && (
                #[trigger] list[i].recordings[j]).id == row.id;
            let s = choose|s: int| 0 <= s < rows.len() && f(#[trigger] rows[s]) == Some(list[i]);
            let session = rows[s];
            listed_rows(d, library, session.id);
            let r = choose|r: int|
                0 <= r < d.recordings.len() && appearing()(#[trigger] d.recordings[r])
                    && d.recordings[r].session_id == session.id && d.recordings[r].id == row.id;
            if r < k {
                assert(d.recordings[r].id < d.recordings[k].id);
            } else if k < r {
                assert(d.recordings[k].id < d.recordings[r].id);
            }
            assert(own.contains(session));
            assert(d.sessions.contains(session) && sessions_of(kind)(session));
            let a = choose|a: int| 0 <= a < d.sessions.len() && d.sessions[a] == session;
            assert(any(d.sessions, home_of(row)));
            let b = choose|b: int| 0 <= b < d.sessions.len() && home_of(row)(#[trigger] d.sessions[b]);
            if a < b {
                assert(d.sessions[a].id < d.sessions[b].id);
            } else if b < a {
                assert(d.sessions[b].id < d.sessions[a].id);
            }
        }
        if row.library == kind && appearing()(row) {
            assert(any(d.sessions, home_of(row)));
            let b = choose|b: int| 0 <= b < d.sessions.len() && home_of(row)(#[trigger] d.sessions[b]);
            let session = d.sessions[b];
            assert(own.contains(session));
            assert(rows.contains(session));
            let s = choose|s: int| 0 <= s < rows.len() && rows[s] == session;
            listed_rows(d, library, session.id);
            assert(d.recordings[k].session_id == session.id);
            let j = choose|j: int|
                0 <= j < listed(d, library, session.id).len() && (#[trigger] listed(
                    d,
                    library,
                    session.id,
                )[j]).id == row.id;
            let e = f(rows[s])->0;
            assert(list.contains(e));
            let i = choose|i: int| 0 <= i < list.len() && list[i] == e;
            assert(list[i].recordings[j].id == row.id);
        }
    }
}

/// What a session lists are its recordings that lie in the library.
proof fn listed_rows(d: StoreView, library: Seq<char>, session: i64)
    ensures
        forall|j: int|
            0 <= j < listed(d, library, session).len() ==> exists|r: int|
                0 <= r < d.recordings.len() && appearing()(#[trigger] d.recordings[r])
                    && d.recordings[r].session_id == session && d.recordings[r].id == (
                #[trigger] listed(d, library, session)[j]).id,
        forall|r: int|
            0 <= r < d.recordings.len() && appearing()(#[trigger] d.recordings[r])
                && d.recordings[r].session_id == session ==> exists|j: int|
                0 <= j < listed(d, library, session).len() && (#[trigger] listed(
                    d,
                    library,
                    session,
                )[j]).id == d.recordings[r].id,
{
    let own = d.recordings.filter(recordings_in(session));
    let sorted = sort_by(own, by_path());
    let rows = sorted.filter(appearing());
    let list = listed(d, library, session);
    filter_elements(d.recordings, recordings_in(session));
    sort_by_elements(own, by_path());
    filter_elements(sorted, appearing());
    assert forall|j: int| 0 <= j < list.len() implies exists|r: int|
        0 <= r < d.recordings.len() && appearing()(#[trigger] d.recordings[r])
            && d.recordings[r].session_id == session && d.recordings[r].id == (
        #[trigger] list[j]).id by {
        let x = rows[j];
        assert(appearing()(x) && sorted.contains(x));
        assert(own.contains(x));
        let a = choose|a: int| 0 <= a < own.len() && own[a] == x;
        assert(d.recordings.contains(own[a]) && recordings_in(session)(own[a]));
        let r = choose|r: int| 0 <= r < d.recordings.len() && d.recordings[r] == x;
        assert(appearing()(d.recordings[r]));
    }
    assert forall|r: int|
        0 <= r < d.recordings.len() && appearing()(#[trigger] d.recordings[r])
            && d.recordings[r].session_id == session implies exists|j: int|
        0 <= j < list.len() && (#[trigger] list[j]).id == d.recordings[r].id by {
        let x = d.recordings[r];
        assert(own.contains(x));
        assert(sorted.contains(x));
        assert(rows.contains(x));
        let j = choose|j: int| 0 <= j < rows.len() && rows[j] == x;
        assert(list[j].id == x.id);
    }
}

/// A recording that lies outside of a newly designated folder keeps its key and
/// stops appearing.
pub proof fn outsiders_stop_appearing(
    d: StoreView,
    kind: Seq<char>,
    folder: Seq<char>,
    mount: Seq<char>,
    k: int,
)
    requires
        d.wf(),
        next_library(d.libraries) <= i64::MAX,
        !adoption_collides(d.recordings, kind, d.library_path_of(kind), folder),
        0 <= k < d.recordings.len(),
        d.recordings[k].library == kind,
        d.library_path_of(kind) is Some || rooted(d.recordings[k].path),
        stripped(folder, located(d.library_path_of(kind), d.recordings[k].path)) is None,
    ensures
        ({
            let n = designated(d, kind, folder, mount);
            &&& n.recordings[k].path == d.recordings[k].path
            &&& !appears(n, d.recordings[k].id)
        }),
{
    let n = designated(d, kind, folder, mount);
    crate::upkeep::designated_wf(d, kind, folder, mount);
    recordings_in_the_library_appear(n, k);
}

/// The components of a path that was taken off a folder are the last ones of the
/// path.
proof fn stripped_components(library: Seq<char>, path: Seq<char>)
    requires
        library.len() > 0,
        lies_under(library, path),
        spans(library).len() < spans(path).len(),
    ensures
        ({
            let m = spans(library).len() as int;
            let key = from_component(path, m);
            &&& clean(key)
            &&& spans(key).len() == spans(path).len() - m
            &&& forall|j: int|
                0 <= j < spans(key).len() ==> #[trigger] component(key, j) == component(path, m + j)
        }),
{
    let m = spans(library).len() as int;
    stripped_keys_are_clean(library, path);
    first_component(library);
    let start = if rooted(path) || begins_with_dot(path) {
        1int
    } else {
        0int
    };
    let b = body_spans(path, start);
    let i = m - start;
    assert(spans(path)[m] == b[i]);
    assert(spans(path).last() == b.last());
    spans_from(path, start, i);
    let a = b[i].0;
    let rest = b.skip(i);
    assert(body_spans(path, a) == rest);
    spans_up_to(path, a);
    let e = b.last().1;
    let cut = path.take(e);
    let key = path.subrange(a, e);
    assert(cut =~= cut.take(a) + key);
    spans_behind(cut.take(a), key, 0);
    let k = body_spans(key, 0);
    assert(shifted(k, a) == rest);
    assert(key == from_component(path, m));
    spans_bounds(path);
    spans_bounds(key);
    assert(key.len() > 0);
    assert(spans(key) == k);
    assert(k.len() == rest.len());
    assert forall|j: int| 0 <= j < spans(key).len() implies #[trigger] component(key, j)
        == component(path, m + j) by {
        assert(shifted(k, a)[j] == (k[j].0 + a, k[j].1 + a));
        assert(rest[j] == b[i + j]);
        assert(spans(path)[m + j] == b[i + j]);
        assert(0 <= k[j].0 < k[j].1 <= key.len());
        assert(key.subrange(k[j].0, k[j].1) =~= path.subrange(k[j].0 + a, k[j].1 + a));
    }
}

/// Making a key absolute again names the place that it was taken off: the path has
/// the same components.
pub proof fn stripped_keys_lead_back(library: Seq<char>, path: Seq<char>, key: Seq<char>)
    requires
        stripped(library, path) == Some(key),
    ensures
        spans(joined(library, key)).len() == spans(path).len(),
        forall|k: int|
            0 <= k < spans(path).len() ==> #[trigger] component(joined(library, key), k)
                == component(path, k),
{
    let m = spans(library).len() as int;
    let t = joined(library, key);
    spans_bounds(path);
    spans_bounds(library);
    if library.len() == 0 {
        assert(spans(library) =~= Seq::empty());
        assert(t =~= key);
        if path.len() > 0 {
            trimmed_again(path);
            let e = spans(path).last().1;
            first_component(path);
            assert(key =~= path.take(e));
            trimmed_spans(path);
            assert forall|k: int| 0 <= k < spans(path).len() implies #[trigger] component(t, k)
                == component(path, k) by {
                let last = spans(path).len() - 1;
                assert(k < last ==> spans(path)[k].1 <= spans(path)[last].0);
                assert(t.subrange(spans(path)[k].0, spans(path)[k].1) =~= path.subrange(
                    spans(path)[k].0,
                    spans(path)[k].1,
                ));
            }
        }
    } else if m < spans(path).len() {
        stripped_components(library, path);
        spans_of_joined(library, key);
        spans_bounds(key);
        let n = t.len() - key.len();
        assert forall|k: int| 0 <= k < spans(path).len() implies #[trigger] component(t, k)
            == component(path, k) by {
            if k < m {
                assert(spans(t)[k] == spans(library)[k]);
                assert(t.subrange(spans(library)[k].0, spans(library)[k].1) =~= t.take(
                    library.len() as int,
                ).subrange(spans(library)[k].0, spans(library)[k].1));
                assert(component(library, k) == component(path, k));
            } else {
                let j = k - m;
                assert(spans(t)[k] == (spans(key)[j].0 + n, spans(key)[j].1 + n));
                assert(t.subrange(spans(key)[j].0 + n, spans(key)[j].1 + n) =~= t.skip(n).subrange(
                    spans(key)[j].0,
                    spans(key)[j].1,
                ));
                assert(component(key, j) == component(path, m + j));
            }
        }
    } else {
        assert(key =~= Seq::empty());
        folder_itself(library);
        assert(lies_under(library, t));
        folder_spans(library);
        assert forall|k: int| 0 <= k < spans(path).len() implies #[trigger] component(t, k)
            == component(path, k) by {
            assert(component(library, k) == component(t, k));
            assert(component(library, k) == component(path, k));
        }
    }
}

} // verus!
