//! Names and states: what files are called and found by, what the switcher and the worker
//! write down, and how a reception is counted.
use vstd::prelude::*;

use crate::bundle::{bundle_name, safe_char, safe_label, BundleRecordingView};
use crate::detect::dumped;
use crate::disk::DiskEntryView;
use crate::export::{trial_args, PlanView};
use crate::harness::{path_holds, CorpusView};
use crate::laws::sharing::{matching_states_tell_the_same, tells_review};
use crate::laws::texts::bundle_stems_are_safe;
use crate::laws::videos::{extension_behind_dot, last_body_span};
use crate::ledger::{kept_map, kept_set, value_under};
use crate::library::{by_kind, library_info, LibraryInfo};
use crate::offers::ledger_name;
use crate::path::{
    begins_with_dot, body_spans, component, extension_of, file_name_of, is_component, joined,
    rooted, spans,
};
use crate::receive::{receive_all, receive_one};
use crate::store::{recordings_of, setting, LibraryView, RecordingView, StoreView};
use crate::table::{
    filter_elements, first, first_found, is_order, sort_by, sort_by_elements, sort_by_len,
    sort_by_sorted,
};
use crate::text::{
    alphanumeric, before_one_way, holds, is_char, not_before_is_carried, strip_back, strip_front,
    text_before,
};
use crate::timeline::{hand_touched, unknown_timeline};
use crate::work::{probed, segmented};
use crate::worker::probe_outcome;

verus! {

/// The last component of a path is what stands behind its last slash.
pub proof fn file_names_stand_behind_the_last_slash(folder: Seq<char>, name: Seq<char>)
    requires
        name.len() > 0,
        forall|i: int| 0 <= i < name.len() ==> name[i] != '/',
        name != seq!['.'],
        name != seq!['.', '.'],
    ensures
        file_name_of(folder.push('/') + name) == Some(name),
        ledger_name(folder.push('/') + name) == name,
{
    let s = folder.push('/') + name;
    let p = folder.len() + 1;
    let n = s.len() as int;
    assert(s.subrange(p as int, n) =~= name);
    assert(is_component(name));
    assert forall|j: int| p <= j < n implies s[j] != '/' by {
        assert(s[j] == name[j - p]);
    }
    let start = if rooted(s) || begins_with_dot(s) {
        1int
    } else {
        0int
    };
    assert(s[p - 1] == '/');
    last_body_span(s, start, p as int);
    assert(spans(s).last() == body_spans(s, start).last());
    assert(component(s, spans(s).len() - 1) =~= name);
    assert(name != seq!['/']) by {
        if name == seq!['/'] {
            assert(name[0] == '/');
        }
    }
}

/// A bundle's file is named by the day and the one who shares it, and is found as a bundle
/// wherever it is dropped.
pub proof fn shared_bundles_are_found_as_bundles(
    folder: Seq<char>,
    day: Seq<char>,
    label: Seq<char>,
)
    requires
        day.len() > 0,
        day[0] != '/',
        folder.len() > 0,
    ensures
        extension_of(joined(folder, bundle_name(day, label))) == Some("vbundle"@),
        bundle_name(day, label).take(day.len() as int) == day,
        bundle_name(day, label) == day + "__"@ + safe_label(label) + ".vbundle"@,
{
    reveal_strlit("__");
    reveal_strlit(".vbundle");
    reveal_strlit("vbundle");
    let stem = safe_label(label);
    bundle_stems_are_safe(label);
    let name = bundle_name(day, label);
    assert(name =~= day + "__"@ + (stem + ".vbundle"@));
    assert(name.take(day.len() as int) =~= day);
    let path = joined(folder, name);
    let front = path.take(path.len() - 8);
    assert(name[0] == day[0]);
    let k = path.len() - 8;
    assert(path.skip(k) =~= ".vbundle"@) by {
        assert(name.skip(name.len() - 8) =~= ".vbundle"@);
    }
    assert(path[k] == '.') by {
        assert(path[k] == path.skip(k)[0]);
    }
    assert(stem.last() != '/') by {
        bundle_stems_are_safe(label);
    }
    assert(path[k - 1] == stem.last()) by {
        assert(name[name.len() - 9] == stem.last());
    }
    assert forall|j: int| k < j < path.len() implies path[j] != '.' && path[j] != '/' by {
        assert(path[j] == path.skip(k)[j - k]);
        assert(path[j] == ".vbundle"@[j - k]);
    }
    extension_behind_dot(path, k as int);
    assert(path.skip(k + 1) =~= "vbundle"@) by {
        assert forall|j: int| 0 <= j < 7 implies path.skip(k + 1)[j] == "vbundle"@[j] by {
            assert(path.skip(k)[j + 1] == ".vbundle"@[j + 1]);
        }
    }
}

/// A name that begins and ends with a letter or a numeral keeps every letter, numeral, dash
/// and underscore in its stem, and has a dash for everything else.
pub proof fn stems_keep_letters_and_numerals(label: Seq<char>, i: int)
    requires
        label.len() > 0,
        alphanumeric(label[0]),
        alphanumeric(label.last()),
        label[0] != '-',
        label.last() != '-',
        0 <= i < label.len(),
    ensures
        safe_label(label).len() == label.len(),
        alphanumeric(label[i]) || label[i] == '-' || label[i] == '_' ==> safe_label(label)[i]
            == label[i],
        !(alphanumeric(label[i]) || label[i] == '-' || label[i] == '_') ==> safe_label(label)[i]
            == '-',
{
    let all = label.map_values(|c: char| safe_char(c));
    assert(all[0] == label[0]);
    assert(all.last() == label.last());
    assert(!is_char('-')(all[0]));
    assert(!is_char('-')(all.last()));
    assert(strip_front(all, is_char('-')) == all);
    assert(strip_back(all, is_char('-')) == all);
}

/// Without a choice the local library is active; with one, that of the choice.
pub proof fn the_local_library_is_active_at_first(d: StoreView)
    ensures
        (forall|i: int| 0 <= i < d.meta.len() ==> (#[trigger] d.meta[i]).key != "active_library"@)
            ==> d.active_kind() == "local"@,
        d.wf() ==> forall|i: int|
            0 <= i < d.meta.len() && (#[trigger] d.meta[i]).key == "active_library"@
                ==> d.active_kind() == d.meta[i].value,
{
    let p = setting("active_library"@);
    first_found(d.meta, p);
    if first(d.meta, p) is Some {
        let m = first(d.meta, p)->0;
        let k = choose|k: int| 0 <= k < d.meta.len() && d.meta[k] == m;
        assert(d.meta[k].key == "active_library"@);
        if d.wf() {
            assert forall|i: int|
                0 <= i < d.meta.len() && (#[trigger] d.meta[i]).key
                    == "active_library"@ implies d.active_kind() == d.meta[i].value by {
                if i < k {
                    assert(d.meta[i].key != d.meta[k].key);
                } else if k < i {
                    assert(d.meta[k].key != d.meta[i].key);
                }
            }
        }
    } else {
        assert forall|i: int| 0 <= i < d.meta.len() implies (#[trigger] d.meta[i]).key
            != "active_library"@ by {
            assert(!p(d.meta[i]));
        }
    }
}

/// Whether a library is told as the store has it.
pub open spec fn tells_library(t: LibraryInfo, l: LibraryView) -> bool {
    t.kind == l.kind && t.path == l.path && t.mount == l.mount
}

/// The switcher tells every designated library, in the order of their kinds.
pub proof fn every_library_is_told(d: StoreView)
    ensures
        ({
            let t = sort_by(d.libraries, by_kind()).map_values(library_info());
            &&& t.len() == d.libraries.len()
            &&& forall|i: int, j: int|
                0 <= i < j < t.len() ==> !text_before(
                    (#[trigger] t[j]).kind,
                    (#[trigger] t[i]).kind,
                )
            &&& forall|k: int|
                0 <= k < d.libraries.len() ==> library_is_told(t, #[trigger] d.libraries[k])
        }),
{
    let b = by_kind();
    let s = sort_by(d.libraries, b);
    let t = s.map_values(library_info());
    assert(is_order(b)) by {
        assert forall|x: LibraryView, y: LibraryView| #[trigger] b(x, y) implies !b(y, x) by {
            before_one_way(x.kind, y.kind);
        }
        assert forall|x: LibraryView, y: LibraryView, z: LibraryView|
            !#[trigger] b(x, y) && !#[trigger] b(y, z) implies !b(x, z) by {
            not_before_is_carried(x.kind, y.kind, z.kind);
        }
    }
    sort_by_sorted(d.libraries, b);
    sort_by_len(d.libraries, b);
    sort_by_elements(d.libraries, b);
    assert forall|i: int, j: int| 0 <= i < j < t.len() implies !text_before(
        (#[trigger] t[j]).kind,
        (#[trigger] t[i]).kind,
    ) by {
        assert(!b(s[j], s[i]));
    }
    assert forall|k: int| 0 <= k < d.libraries.len() implies library_is_told(
        t,
        #[trigger] d.libraries[k],
    ) by {
        assert(d.libraries.contains(d.libraries[k]));
        let i = choose|i: int| 0 <= i < s.len() && s[i] == d.libraries[k];
        assert(tells_library(t[i], d.libraries[k]));
    }
}

/// Whether a library is among those told.
pub open spec fn library_is_told(t: Seq<LibraryInfo>, l: LibraryView) -> bool {
    exists|i: int| 0 <= i < t.len() && tells_library(#[trigger] t[i], l)
}

/// A probe leaves a recording ready where it could be read and failed where it could not,
/// and writes nothing but that; so does a change of the segmentation state.
pub proof fn outcomes_are_written_down(r: RecordingView, state: Seq<char>)
    ensures
        probe_outcome(true) == "ready"@,
        probe_outcome(false) == "failed"@,
        probed(state)(r) == (RecordingView { probe_state: state, ..r }),
        segmented(state)(r) == (RecordingView { segment_state: state, ..r }),
        unknown_timeline().segment_state == "unknown"@,
        unknown_timeline().duration_ms is None,
        unknown_timeline().rallies.len() == 0,
        unknown_timeline().waveform.len() == 0,
{
}

/// A ledger that is not kept yet is empty, and holds under a name what was put there last.
pub proof fn ledgers_start_empty(
    m: Map<Seq<char>, Seq<char>>,
    key: Seq<char>,
    value: Seq<char>,
    other: Seq<char>,
)
    ensures
        kept_map(None) == Map::<Seq<char>, Seq<char>>::empty(),
        kept_set(None) == Set::<Seq<char>>::empty(),
        value_under(m.insert(key, value), key) == Some(value),
        other != key ==> value_under(m.insert(key, value), other) == value_under(m, other),
        value_under(Map::empty(), key) is None,
{
}

/// A trial of an encoder runs it on a made-up clip with its own arguments, its own filter
/// where it has one, and writes nothing.
pub proof fn trials_use_the_plan(plan: PlanView)
    ensures
        ({
            let t = trial_args(plan);
            let g = plan.global.len() as int;
            let c = plan.codec.len() as int;
            let f = if plan.vfilter is Some {
                2int
            } else {
                0int
            };
            &&& t.len() == 2 + g + 4 + f + c + 3
            &&& t.subrange(2, 2 + g) == plan.global
            &&& t[2 + g] == "-f"@ && t[3 + g] == "lavfi"@ && t[4 + g] == "-i"@
            &&& plan.vfilter is Some ==> t[6 + g] == "-vf"@ && t[7 + g] == plan.vfilter->0
            &&& t.subrange(6 + g + f, 6 + g + f + c) == plan.codec
            &&& t[6 + g + f + c] == "-f"@ && t[7 + g + f + c] == "null"@ && t.last() == "-"@
        }),
{
    let t = trial_args(plan);
    let g = plan.global.len() as int;
    let c = plan.codec.len() as int;
    let f = if plan.vfilter is Some {
        2int
    } else {
        0int
    };
    assert(t.subrange(2, 2 + g) =~= plan.global);
    assert(t.subrange(6 + g + f, 6 + g + f + c) =~= plan.codec);
}

/// A filter selects a recording exactly where it occurs in its path or its key.
pub proof fn filters_look_into_paths(c: CorpusView, filter: Seq<char>)
    ensures
        path_holds(filter)(c) <==> holds(c.abs_path, filter) || holds(c.rel_path, filter),
        forall|a: Seq<char>, b: Seq<char>| #[trigger] holds(a + filter + b, filter),
        forall|s: Seq<char>| #[trigger] holds(s, filter) ==> exists|a: Seq<char>, b: Seq<char>|
            s == #[trigger] (a + filter + b),
{
    assert forall|s: Seq<char>| #[trigger] holds(s, filter) implies exists|
        a: Seq<char>,
        b: Seq<char>,
    | s == #[trigger] (a + filter + b) by {
        let i = choose|i: int|
            0 <= i && i + filter.len() <= s.len() && #[trigger] s.subrange(i, i + filter.len())
                == filter;
        let a = s.take(i);
        let b = s.skip(i + filter.len());
        assert(s =~= a + filter + b) by {
            assert forall|j: int| 0 <= j < s.len() implies s[j] == (a + filter + b)[j] by {
                if i <= j < i + filter.len() {
                    assert(s.subrange(i, i + filter.len())[j - i] == s[j]);
                }
            }
        }
    }
    assert forall|a: Seq<char>, b: Seq<char>| #[trigger] holds(a + filter + b, filter) by {
        let s = a + filter + b;
        let i = a.len() as int;
        assert(s.subrange(i, i + filter.len()) =~= filter);
    }
}

/// A dump is made of a recording of the library whose key holds the filter where there is
/// one, and of none where there is no such recording or no library.
pub proof fn dumps_are_of_a_recording_of_the_library(
    d: StoreView,
    kind: Seq<char>,
    db: Seq<char>,
    filter: Option<Seq<char>>,
)
    ensures
        dumped(d, kind, db, filter) matches Ok(x) ==> d.library_path_of(kind) is Some && exists|
            k: int,
        |
            {
                &&& 0 <= k < d.recordings.len()
                &&& (#[trigger] d.recordings[k]).library == kind
                &&& x.0 == joined(d.library_path_of(kind)->0, d.recordings[k].path)
                &&& x.1 == d.recordings[k].duration_ms
                &&& filter matches Some(f) ==> holds(d.recordings[k].path, f)
            },
        dumped(d, kind, db, filter) is Err <==> d.library_path_of(kind) is None || forall|k: int|
            0 <= k < d.recordings.len() && (#[trigger] d.recordings[k]).library == kind ==> (
            filter is Some && !holds(d.recordings[k].path, filter->0)),
{
    if let Some(library) = d.library_path_of(kind) {
        let b = crate::bundle::by_path();
        let own = d.recordings.filter(recordings_of(kind));
        let rows = sort_by(own, b);
        filter_elements(d.recordings, recordings_of(kind));
        sort_by_elements(own, b);
        assert forall|i: int| 0 <= i < rows.len() implies d.recordings.contains(#[trigger] rows[i])
            && rows[i].library == kind by {
            assert(rows.contains(rows[i]));
            assert(own.contains(rows[i]));
            let o = choose|o: int| 0 <= o < own.len() && own[o] == rows[i];
            assert(recordings_of(kind)(own[o]));
        }
        assert forall|k: int|
            0 <= k < d.recordings.len() && (#[trigger] d.recordings[k]).library
                == kind implies rows.contains(d.recordings[k]) by {
            assert(recordings_of(kind)(d.recordings[k]));
            assert(own.contains(d.recordings[k]));
        }
        if rows.len() > 0 {
            assert(rows[0].library == kind);
            let k = choose|k: int| 0 <= k < d.recordings.len() && d.recordings[k] == rows[0];
            assert(d.recordings[k].library == kind);
            if let Some(f) = filter {
                let p = crate::detect::key_holds(f);
                first_found(rows, p);
                if let Some(r) = first(rows, p) {
                    let i = choose|i: int| 0 <= i < rows.len() && rows[i] == r;
                    let k = choose|k: int|
                        0 <= k < d.recordings.len() && d.recordings[k] == rows[i];
                    assert(d.recordings[k].library == kind && holds(d.recordings[k].path, f));
                } else {
                    assert forall|k: int|
                        0 <= k < d.recordings.len() && (#[trigger] d.recordings[k]).library
                            == kind implies !holds(d.recordings[k].path, f) by {
                        let i = choose|i: int| 0 <= i < rows.len() && rows[i] == d.recordings[k];
                        assert(!p(rows[i]));
                    }
                }
            }
        }
    }
}

/// One more recording of a bundle is counted once: as applied, as a conflict where a hand
/// touched what is there and nothing is changed, as refused where the file is not the one
/// described and nothing is changed, or not at all where the store tells the same already.
pub proof fn every_recording_is_counted_once(
    d: StoreView,
    library: Seq<char>,
    disk: Seq<DiskEntryView>,
    recs: Seq<BundleRecordingView>,
    rec: BundleRecordingView,
)
    ensures
        ({
            let s = receive_all(d, library, disk, recs);
            let t = receive_all(d, library, disk, recs.push(rec));
            let known = s.store.id_at("shared"@, rec.path);
            ||| {
                &&& t == s
                &&& known is Some && tells_review(s.store, known->0, rec)
            }
            ||| {
                &&& t.conflicts == s.conflicts.push(rec.path)
                &&& t.store == s.store && t.applied == s.applied && t.refused == s.refused
                &&& known is Some && hand_touched(s.store, known->0)
            }
            ||| {
                &&& t.refused.len() == s.refused.len() + 1 && t.refused.drop_last() == s.refused
                &&& t.refused.last().path == joined(library, rec.path)
                &&& t.refused.last().reason
                    == "file does not match the bundle (missing, or different content)"@
                &&& t.store == s.store && t.applied == s.applied && t.conflicts == s.conflicts
                &&& !crate::disk::file_verified(
                    disk,
                    joined(library, rec.path),
                    rec.quick_hash,
                    rec.file_size,
                )
            }
            ||| {
                &&& t.applied == s.applied + 1
                &&& t.refused == s.refused && t.conflicts == s.conflicts
                &&& known is Some ==> !hand_touched(s.store, known->0)
                &&& crate::disk::file_verified(
                    disk,
                    joined(library, rec.path),
                    rec.quick_hash,
                    rec.file_size,
                )
            }
        }),
        ({
            let none = receive_all(d, library, disk, Seq::empty());
            none.store == d && none.applied == 0 && none.refused.len() == 0 && none.conflicts.len()
                == 0
        }),
{
    let s = receive_all(d, library, disk, recs);
    let t = receive_all(d, library, disk, recs.push(rec));
    assert(recs.push(rec).drop_last() =~= recs);
    assert(t == receive_one(s, library, disk, rec));
    let known = s.store.id_at("shared"@, rec.path);
    if known is Some && crate::bundle::state_matches(s.store, known->0, rec) {
        matching_states_tell_the_same(s.store, known->0, rec);
    }
    if t.refused.len() > s.refused.len() {
        assert(t.refused.drop_last() =~= s.refused);
    }
}

} // verus!
