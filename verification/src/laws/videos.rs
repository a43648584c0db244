//! What counts as a video, by the end of its name, and that scans take every such file
//! in.
use vstd::prelude::*;

use crate::disk::DiskEntryView;
use crate::path::{
    body_spans, component, extension_of, is_component, last_dot, next_separator,
    next_separator_bounds, rooted, spans, spans_bounds, stripped,
};
use crate::scan::{entry_met, lost, lost_elsewhere, walked};
use crate::schema::video_path;
use crate::store::{recording_at, LibraryView, StoreView};
use crate::table::{any, filter_elements, first_found};
use crate::text::{ascii_lower, lowered};

verus! {

/// Whether a text is a word in letters of either case.
pub open spec fn in_either_case(e: Seq<char>, word: Seq<char>) -> bool {
    e.len() == word.len() && forall|i: int|
        0 <= i < e.len() ==> #[trigger] e[i] == word[i] || ('A' <= e[i] <= 'Z' && e[i] as int + 32
            == word[i] as int)
}

/// Whether a text is one of the endings of a camera's or a phone's files.
pub open spec fn film_ending(e: Seq<char>) -> bool {
    ||| in_either_case(e, "mp4"@)
    ||| in_either_case(e, "mov"@)
    ||| in_either_case(e, "m4v"@)
    ||| in_either_case(e, "avi"@)
    ||| in_either_case(e, "mkv"@)
    ||| in_either_case(e, "mts"@)
    ||| in_either_case(e, "m2ts"@)
    ||| in_either_case(e, "ts"@)
    ||| in_either_case(e, "webm"@)
}

/// Lower case is what a word in either case comes down to.
proof fn lowered_words(e: Seq<char>, word: Seq<char>)
    requires
        forall|i: int| 0 <= i < word.len() ==> !('A' <= #[trigger] word[i] <= 'Z'),
    ensures
        in_either_case(e, word) <==> lowered(e) == word,
{
    let l = lowered(e);
    if in_either_case(e, word) {
        assert forall|i: int| 0 <= i < e.len() implies #[trigger] l[i] == word[i] by {
            assert(l[i] == ascii_lower(e[i]));
            assert(e[i] == word[i] || ('A' <= e[i] <= 'Z' && e[i] as int + 32 == word[i] as int));
            assert(!('A' <= word[i] <= 'Z'));
        }
        assert(l =~= word);
    }
    if l == word {
        assert forall|i: int| 0 <= i < e.len() implies #[trigger] e[i] == word[i] || ('A' <= e[i]
            <= 'Z' && e[i] as int + 32 == word[i] as int) by {
            assert(l[i] == ascii_lower(e[i]));
            assert(l[i] == word[i]);
        }
    }
}

/// The endings of videos in lower case.
proof fn endings_lowered(e: Seq<char>)
    ensures
        film_ending(e) <==> crate::schema::video_extension(lowered(e)),
        film_ending(e) ==> e.len() > 0 && forall|i: int|
            0 <= i < e.len() ==> #[trigger] e[i] != '.' && e[i] != '/',
{
    reveal_strlit("mp4");
    reveal_strlit("mov");
    reveal_strlit("m4v");
    reveal_strlit("avi");
    reveal_strlit("mkv");
    reveal_strlit("mts");
    reveal_strlit("m2ts");
    reveal_strlit("ts");
    reveal_strlit("webm");
    lowered_words(e, "mp4"@);
    lowered_words(e, "mov"@);
    lowered_words(e, "m4v"@);
    lowered_words(e, "avi"@);
    lowered_words(e, "mkv"@);
    lowered_words(e, "mts"@);
    lowered_words(e, "m2ts"@);
    lowered_words(e, "ts"@);
    lowered_words(e, "webm"@);
}

/// The last component of a path that ends in one.
pub proof fn last_body_span(s: Seq<char>, i: int, p: int)
    requires
        0 <= i <= p < s.len(),
        p == i || s[p - 1] == '/',
        forall|j: int| p <= j < s.len() ==> s[j] != '/',
        is_component(s.subrange(p, s.len() as int)),
    ensures
        body_spans(s, i).len() > 0,
        body_spans(s, i).last() == (p, s.len() as int),
    decreases p - i,
{
    next_separator_bounds(s, i);
    let j = next_separator(s, i);
    if p == i {
        assert(j == s.len());
        assert(body_spans(s, j + 1) =~= Seq::empty());
        assert(body_spans(s, i) =~= seq![(p, s.len() as int)]);
    } else {
        assert(j <= p - 1) by {
            if j > p - 1 {
                assert(s[p - 1] != '/');
            }
        }
        last_body_span(s, j + 1, p);
    }
}

/// Where the name before a position starts.
proof fn name_start(s: Seq<char>, k: int) -> (p: int)
    requires
        0 <= k <= s.len(),
    ensures
        0 <= p <= k,
        p == 0 || s[p - 1] == '/',
        forall|j: int| p <= j < k ==> s[j] != '/',
    decreases k,
{
    if k == 0 || s[k - 1] == '/' {
        k
    } else {
        name_start(s, k - 1)
    }
}

/// The last dot of a text is where no dot follows.
proof fn dot_is_last(s: Seq<char>, k: int)
    requires
        0 <= k < s.len(),
        s[k] == '.',
        forall|j: int| k < j < s.len() ==> s[j] != '.',
    ensures
        last_dot(s) == k,
    decreases s.len(),
{
    if s.len() > k + 1 {
        assert(s.last() == s[s.len() - 1]);
        dot_is_last(s.drop_last(), k);
    }
}

/// What stands behind the last dot of a file name is the extension of its path.
pub proof fn extension_behind_dot(s: Seq<char>, k: int)
    requires
        0 < k < s.len() - 1,
        s[k] == '.',
        s[k - 1] != '/',
        forall|j: int| k < j < s.len() ==> s[j] != '.' && s[j] != '/',
    ensures
        extension_of(s) == Some(s.skip(k + 1)),
{
    let p = name_start(s, k);
    let n = s.len() as int;
    let name = s.subrange(p, n);
    assert(p < k);
    assert forall|j: int| p <= j < n implies s[j] != '/' by {}
    assert(name.len() >= 3);
    let first = if rooted(s) || crate::path::begins_with_dot(s) {
        1int
    } else {
        0int
    };
    assert(first <= p) by {
        if p == 0 && first == 1 {
            if rooted(s) {
                assert(s[0] == '/');
            } else {
                assert(s[1] == '/');
            }
        }
    }
    if p > first || first == 0 || rooted(s) {
        assert(p == first || s[p - 1] == '/');
    } else {
        assert(s[1] == '/');
    }
    last_body_span(s, first, p);
    let b = body_spans(s, first);
    assert(spans(s).last() == b.last());
    assert(component(s, spans(s).len() - 1) =~= name);
    assert(name.last() == s[n - 1]);
    dot_is_last(name, k - p);
    assert(name.skip(k - p + 1) =~= s.skip(k + 1));
}

/// A path that ends in a dot and any of the nine endings, in letters of either case,
/// behind a file name that is not empty, is that of a video.
pub proof fn nine_endings_are_videos(front: Seq<char>, ending: Seq<char>)
    requires
        front.len() > 0,
        front.last() != '/',
    ensures
        in_either_case(ending, "mp4"@) ==> video_path(front + "."@ + ending),
        in_either_case(ending, "mov"@) ==> video_path(front + "."@ + ending),
        in_either_case(ending, "m4v"@) ==> video_path(front + "."@ + ending),
        in_either_case(ending, "avi"@) ==> video_path(front + "."@ + ending),
        in_either_case(ending, "mkv"@) ==> video_path(front + "."@ + ending),
        in_either_case(ending, "mts"@) ==> video_path(front + "."@ + ending),
        in_either_case(ending, "m2ts"@) ==> video_path(front + "."@ + ending),
        in_either_case(ending, "ts"@) ==> video_path(front + "."@ + ending),
        in_either_case(ending, "webm"@) ==> video_path(front + "."@ + ending),
{
    reveal_strlit(".");
    let s = front + "."@ + ending;
    endings_lowered(ending);
    if film_ending(ending) {
        let k = front.len() as int;
        assert(s[k] == '.');
        assert(s[k - 1] == front.last());
        assert forall|j: int| k < j < s.len() implies s[j] != '.' && s[j] != '/' by {
            assert(s[j] == ending[j - k - 1]);
        }
        extension_behind_dot(s, k);
        assert(s.skip(k + 1) =~= ending);
    }
}

/// Components hold no separators, and nothing but separators and dots follows the last.
proof fn body_spans_are_names(s: Seq<char>, i: int)
    requires
        0 <= i,
    ensures
        forall|k: int, j: int|
            0 <= k < body_spans(s, i).len() && (#[trigger] body_spans(s, i)[k]).0 <= j
                < body_spans(s, i)[k].1 ==> #[trigger] s[j] != '/',
        body_spans(s, i).len() > 0 ==> forall|j: int|
            body_spans(s, i).last().1 <= j < s.len() ==> #[trigger] s[j] == '/' || s[j] == '.',
        body_spans(s, i).len() == 0 ==> forall|j: int|
            i <= j < s.len() ==> #[trigger] s[j] == '/' || s[j] == '.',
    decreases s.len() + 1 - i,
{
    if i < s.len() {
        next_separator_bounds(s, i);
        let j = next_separator(s, i);
        body_spans_are_names(s, j + 1);
        let rest = body_spans(s, j + 1);
        let piece = s.subrange(i, j);
        if is_component(piece) {
            assert(body_spans(s, i) =~= seq![(i, j)] + rest);
            assert forall|k: int, m: int|
                0 <= k < body_spans(s, i).len() && (#[trigger] body_spans(s, i)[k]).0 <= m
                    < body_spans(s, i)[k].1 implies #[trigger] s[m] != '/' by {
                if k > 0 {
                    assert(body_spans(s, i)[k] == rest[k - 1]);
                }
            }
            if rest.len() > 0 {
                assert(body_spans(s, i).last() == rest.last());
            }
        } else if piece.len() > 0 {
            assert(piece[0] == s[i]);
            assert(piece.len() == 1);
        }
    }
}

/// Whether a path has the name of a video: a name that is not empty, a dot and one of the
/// nine endings, with nothing behind it but separators and dots.
pub open spec fn named_as_video(s: Seq<char>) -> bool {
    exists|k: int, q: int|
        {
            &&& 0 < k < q <= s.len()
            &&& #[trigger] s[k] == '.'
            &&& s[k - 1] != '/'
            &&& film_ending(#[trigger] s.subrange(k + 1, q))
            &&& forall|j: int| q <= j < s.len() ==> #[trigger] s[j] == '/' || s[j] == '.'
        }
}

/// Nothing but a path with one of the nine endings is that of a video.
pub proof fn videos_have_one_of_nine_endings(s: Seq<char>)
    requires
        video_path(s),
    ensures
        named_as_video(s),
{
    let n = spans(s).len() as int;
    spans_bounds(s);
    let (p, q) = spans(s)[n - 1];
    let name = component(s, n - 1);
    let d = last_dot(name);
    last_dot_is_dot(name);
    let e = name.skip(d + 1);
    endings_lowered(e);
    let k = p + d;
    assert(name[d] == '.');
    assert(s[k] == '.');
    assert(s.subrange(k + 1, q) =~= e);
    let first = if rooted(s) || crate::path::begins_with_dot(s) {
        1int
    } else {
        0int
    };
    body_spans_are_names(s, first);
    let b = body_spans(s, first);
    if first == 1 && b.len() == 0 {
        assert(name.len() == 1);
    } else {
        assert(spans(s).last() == b.last());
        assert(b[b.len() - 1].0 <= k - 1 < b[b.len() - 1].1);
        assert(s[k - 1] != '/');
    }
}

/// Where there is a last dot, it is a dot.
proof fn last_dot_is_dot(s: Seq<char>)
    ensures
        -1 <= last_dot(s) < s.len(),
        last_dot(s) >= 0 ==> s[last_dot(s)] == '.',
    decreases s.len(),
{
    if s.len() > 0 && s.last() != '.' {
        last_dot_is_dot(s.drop_last());
    }
}

/// Whether an entry of a walk is a readable file with the name of a video, under a key
/// of its own.
pub open spec fn fresh_videos(folder: Seq<char>, walk: Seq<DiskEntryView>) -> bool {
    &&& forall|i: int|
        0 <= i < walk.len() ==> {
            let e = #[trigger] walk[i];
            &&& e.is_file
            &&& e.meta is Some
            &&& stripped(folder, e.path) is Some
            &&& exists|front: Seq<char>, ending: Seq<char>|
                #![trigger front + "."@ + ending]
                e.path == front + "."@ + ending && front.len() > 0 && front.last() != '/'
                    && film_ending(ending)
        }
    &&& forall|i: int, j: int|
        0 <= i < j < walk.len() ==> stripped(folder, (#[trigger] walk[i]).path) != stripped(
            folder,
            (#[trigger] walk[j]).path,
        )
}

/// A first scan registers every file with one of the nine endings: as many recordings as
/// files, each under its key, with nothing skipped, re-linked or missed.
pub proof fn first_scans_register_every_video(
    d: StoreView,
    kind: Seq<char>,
    folder: Seq<char>,
    disk: Seq<DiskEntryView>,
    walk: Seq<DiskEntryView>,
)
    requires
        d.recordings.len() == 0,
        fresh_videos(folder, walk),
    ensures
        ({
            let s = walked(d, kind, folder, disk, walk);
            &&& s.registered == walk.len()
            &&& s.skipped == 0
            &&& s.relocated == 0
            &&& s.missing.len() == 0
            &&& s.store.recordings.len() == walk.len()
            &&& forall|i: int|
                0 <= i < walk.len() ==> (#[trigger] s.store.recordings[i]).library == kind && Some(
                    s.store.recordings[i].path,
                ) == stripped(folder, walk[i].path)
        }),
    decreases walk.len(),
{
    first_walk(d, kind, folder, disk, walk);
}

/// The walk of a first scan.
proof fn first_walk(
    d: StoreView,
    kind: Seq<char>,
    folder: Seq<char>,
    disk: Seq<DiskEntryView>,
    walk: Seq<DiskEntryView>,
)
    requires
        d.recordings.len() == 0,
        fresh_videos(folder, walk),
    ensures
        ({
            let s = walked(d, kind, folder, disk, walk);
            &&& s.registered == walk.len()
            &&& s.skipped == 0
            &&& s.relocated == 0
            &&& s.missing.len() == 0
            &&& s.cross.len() == 0
            &&& s.store.recordings.len() == walk.len()
            &&& forall|i: int|
                0 <= i < walk.len() ==> (#[trigger] s.store.recordings[i]).library == kind && Some(
                    s.store.recordings[i].path,
                ) == stripped(folder, walk[i].path)
        }),
    decreases walk.len(),
{
    if walk.len() == 0 {
        filter_elements(d.recordings, lost(kind, folder, disk));
        nothing_lost_elsewhere(d, d.libraries, kind, disk);
    } else {
        let less = walk.drop_last();
        assert(fresh_videos(folder, less)) by {
            assert forall|i: int| 0 <= i < less.len() implies #[trigger] less[i] == walk[i] by {}
        }
        first_walk(d, kind, folder, disk, less);
        let s = walked(d, kind, folder, disk, less);
        let e = walk.last();
        assert(e == walk[walk.len() - 1]);
        let (front, ending) = choose|front: Seq<char>, ending: Seq<char>|
            #![trigger front + "."@ + ending]
            e.path == front + "."@ + ending && front.len() > 0 && front.last() != '/'
                && film_ending(ending);
        nine_endings_are_videos(front, ending);
        let rel = stripped(folder, e.path)->0;
        assert(!any(s.store.recordings, recording_at(kind, rel))) by {
            assert forall|i: int| 0 <= i < s.store.recordings.len() implies !recording_at(
                kind,
                rel,
            )(#[trigger] s.store.recordings[i]) by {
                assert(less[i] == walk[i]);
                assert(stripped(folder, walk[i].path) != stripped(
                    folder,
                    walk[walk.len() - 1].path,
                ));
            }
        }
        let p = crate::scan::with_content(
            crate::disk::stored_size((e.meta->0).size),
            crate::scan::hash_or_none(e.meta->0),
        );
        first_found(s.missing, p);
        first_found(s.cross, p);
        let n = entry_met(s, kind, folder, e);
        assert(n.store.recordings.len() == walk.len());
        assert forall|i: int| 0 <= i < walk.len() implies (
        #[trigger] n.store.recordings[i]).library == kind && Some(n.store.recordings[i].path)
            == stripped(folder, walk[i].path) by {
            if i < less.len() {
                assert(n.store.recordings[i] == s.store.recordings[i]);
                assert(less[i] == walk[i]);
            }
        }
    }
}

/// Where there are no recordings, none is lost.
proof fn nothing_lost_elsewhere(
    d: StoreView,
    libraries: Seq<LibraryView>,
    kind: Seq<char>,
    disk: Seq<DiskEntryView>,
)
    requires
        d.recordings.len() == 0,
    ensures
        lost_elsewhere(d, libraries, kind, disk).len() == 0,
    decreases libraries.len(),
{
    if libraries.len() > 0 {
        nothing_lost_elsewhere(d, libraries.drop_last(), kind, disk);
        filter_elements(d.recordings, lost(libraries.last().kind, libraries.last().path, disk));
    }
}

} // verus!
