//! The two typed libraries: designation, the active-kind switcher, per-device
//! settings, and the seam that maps an absolute path to its stored key.
use vstd::prelude::*;

use crate::path::{absolute, is_absolute, joined, relative, rooted, stripped};
use crate::store::{
    library_of, next_library, setting, LibraryRow, LibraryView, MetaRow, MetaView, RecordingRow,
    RecordingView, Store, StoreView,
};
use crate::table::{any, each, position, rewrite, sort_by, sorted, Row};
use crate::text::{before, same, text_before};

verus! {

/// A designated library and how this device reaches it.
#[derive(Debug, Clone)]
pub struct Library {
    /// `local` or `shared`.
    pub kind: String,
    /// Where the library is mounted on this device.
    pub path: String,
    /// Declared locality of that mount: `local` or `network`.
    pub mount: String,
}

/// What a designated library holds.
#[verifier::ext_equal]
pub struct LibraryInfo {
    pub kind: Seq<char>,
    pub path: Seq<char>,
    pub mount: Seq<char>,
}

impl DeepView for Library {
    type V = LibraryInfo;

    open spec fn deep_view(&self) -> LibraryInfo {
        LibraryInfo { kind: self.kind@, path: self.path@, mount: self.mount@ }
    }
}

/// Why a change to the store was refused.
#[derive(Debug, Clone, Copy, PartialEq, Eq, Structural)]
pub enum StoreError {
    /// Two recordings of one library would have the same path.
    DuplicatePath,
    /// A row would belong to a recording that is not there.
    UnknownRecording,
    /// The active library has not been designated.
    NoLibrary,
}

impl StoreError {
    /// What a refusal reads.
    pub fn message(&self) -> (r: String)
        ensures
            r@ == (match *self {
                StoreError::DuplicatePath =>
                    "UNIQUE constraint failed: recordings.library, recordings.path"@,
                StoreError::UnknownRecording => "FOREIGN KEY constraint failed"@,
                StoreError::NoLibrary => "no library has been designated"@,
            }),
    {
        match self {
            StoreError::DuplicatePath =>
                "UNIQUE constraint failed: recordings.library, recordings.path".to_owned(),
            StoreError::UnknownRecording => "FOREIGN KEY constraint failed".to_owned(),
            StoreError::NoLibrary => "no library has been designated".to_owned(),
        }
    }
}

/// A setting with its value replaced.
pub open spec fn revalued(value: Seq<char>) -> spec_fn(MetaView) -> MetaView {
    |m: MetaView| MetaView { key: m.key, value }
}

/// The setting under `key` in `s` set to `value`, added where it was not there.
pub open spec fn meta_put(s: Seq<MetaView>, key: Seq<char>, value: Seq<char>) -> Seq<MetaView> {
    if any(s, setting(key)) {
        rewrite(s, setting(key), revalued(value))
    } else {
        s.push(MetaView { key, value })
    }
}

/// The store with the setting under `key` set to `value`.
pub open spec fn with_meta(d: StoreView, key: Seq<char>, value: Seq<char>) -> StoreView {
    StoreView { meta: meta_put(d.meta, key, value), ..d }
}

/// Read a per-device setting, or `None` when unset.
pub fn meta_get(conn: &Store, key: &str) -> (r: Option<String>)
    ensures
        r.deep_view() == conn@.meta_value(key@),
{
    match position(
        &conn.meta,
        |m: &MetaRow| -> (b: bool)
            ensures
                b == (m.key@ == key@)
            { same(&m.key, key) },
        Ghost(setting(key@)),
    ) {
        Some(i) => Some(conn.meta[i].value.clone()),
        None => None,
    }
}

/// Write a per-device setting.
pub fn meta_set(conn: &mut Store, key: &str, value: &str)
    ensures
        final(conn)@ == with_meta(old(conn)@, key@, value@),
        old(conn)@.wf() ==> final(conn)@.wf(),
{
    proof {
        if conn@.wf() {
            crate::upkeep::with_meta_wf(conn@, key@, value@);
        }
    }
    let ghost f = revalued(value@);
    let ghost g = |m: MetaView|
        if setting(key@)(m) {
            f(m)
        } else {
            m
        };
    let at = position(
        &conn.meta,
        |m: &MetaRow| -> (b: bool)
            ensures
                b == (m.key@ == key@)
            { same(&m.key, key) },
        Ghost(setting(key@)),
    );
    if at.is_some() {
        conn.meta =
        each(
            &conn.meta,
            |m: &MetaRow| -> (r: MetaRow)
                ensures
                    r.deep_view() == g(m.deep_view())
                {
                    if same(&m.key, key) {
                        MetaRow { key: m.key.clone(), value: value.to_owned() }
                    } else {
                        m.dup()
                    }
                },
            Ghost(g),
        );
        assert(conn.meta.deep_view() =~= rewrite(old(conn)@.meta, setting(key@), f));
    } else {
        conn.meta.push(MetaRow { key: key.to_owned(), value: value.to_owned() });
        assert(conn.meta.deep_view() =~= old(conn)@.meta.push(
            MetaView { key: key@, value: value@ },
        ));
    }
    assert(conn@ =~= with_meta(old(conn)@, key@, value@));
}

/// The kind of library that is currently active, `local` by default.
pub fn active_kind(conn: &Store) -> (r: String)
    ensures
        r@ == conn@.active_kind(),
{
    match meta_get(conn, "active_library") {
        Some(v) => v,
        None => "local".to_owned(),
    }
}

/// The folder of the library of `kind`, or `None` when it is not designated.
pub fn library_path_of(conn: &Store, kind: &str) -> (r: Option<String>)
    ensures
        r.deep_view() == conn@.library_path_of(kind@),
{
    match position(
        &conn.libraries,
        |l: &LibraryRow| -> (b: bool)
            ensures
                b == (l.kind@ == kind@)
            { same(&l.kind, kind) },
        Ghost(library_of(kind@)),
    ) {
        Some(i) => Some(conn.libraries[i].path.clone()),
        None => None,
    }
}

/// The folder of the active library, or `None` when it is not designated.
pub fn library_path(conn: &Store) -> (r: Option<String>)
    ensures
        r.deep_view() == conn@.library_path_of(conn@.active_kind()),
{
    library_path_of(conn, &active_kind(conn))
}

/// Libraries in the order of their kinds.
pub open spec fn by_kind() -> spec_fn(LibraryView, LibraryView) -> bool {
    |a: LibraryView, b: LibraryView| text_before(a.kind, b.kind)
}

/// What is told of a library row.
pub open spec fn library_info() -> spec_fn(LibraryView) -> LibraryInfo {
    |l: LibraryView| LibraryInfo { kind: l.kind, path: l.path, mount: l.mount }
}

/// Every designated library in the order of kinds, and which kind is active.
pub fn library_state(conn: &Store) -> (r: (Vec<Library>, String))
    ensures
        r.0.deep_view() == sort_by(conn@.libraries, by_kind()).map_values(library_info()),
        r.1@ == conn@.active_kind(),
{
    let rows = sorted(
        &conn.libraries,
        |a: &LibraryRow, b: &LibraryRow| -> (r: bool)
            ensures
                r == text_before(a.kind@, b.kind@)
            { before(&a.kind, &b.kind) },
        Ghost(by_kind()),
    );
    let libraries = each(
        &rows,
        |l: &LibraryRow| -> (r: Library)
            ensures
                r.deep_view() == library_info()(l.deep_view())
            {
                Library { kind: l.kind.clone(), path: l.path.clone(), mount: l.mount.clone() }
            },
        Ghost(library_info()),
    );
    (libraries, active_kind(conn))
}

/// Make `kind` the active library. Nothing but the switcher changes.
pub fn set_active_kind(conn: &mut Store, kind: &str)
    ensures
        final(conn)@ == with_meta(old(conn)@, "active_library"@, kind@),
        old(conn)@.wf() ==> final(conn)@.wf(),
{
    meta_set(conn, "active_library", kind);
}

/// The active library's kind and the key that a path has in it.
pub open spec fn key_of(d: StoreView, path: Seq<char>) -> Option<(Seq<char>, Seq<char>)> {
    match d.library_path_of(d.active_kind()) {
        Some(library) => match stripped(library, path) {
            Some(rel) => Some((d.active_kind(), rel)),
            None => None,
        },
        None => None,
    }
}

/// Map an absolute path to the active library's kind and the recording's stored
/// key, or `None` when there is no active library or the path lies outside it.
pub fn stored_key(conn: &Store, absolute_path: &str) -> (r: Option<(String, String)>)
    ensures
        r.deep_view() == key_of(conn@, absolute_path@),
{
    let kind = active_kind(conn);
    match library_path_of(conn, &kind) {
        Some(library) => match relative(&library, absolute_path) {
            Some(rel) => Some((kind, rel)),
            None => None,
        },
        None => None,
    }
}

/// The absolute path of a stored key under the previous folder, or the key
/// itself when there was none.
pub open spec fn located(previous: Option<Seq<char>>, stored: Seq<char>) -> Seq<char> {
    match previous {
        Some(library) => joined(library, stored),
        None => stored,
    }
}

/// The key of a recording under a newly designated folder: relative to it where
/// the recording lies under it, else its old key.
pub open spec fn adopted_key(
    previous: Option<Seq<char>>,
    folder: Seq<char>,
    stored: Seq<char>,
) -> Seq<char> {
    match stripped(folder, located(previous, stored)) {
        Some(rel) => rel,
        None => stored,
    }
}

/// Whether a recording under a relative key does not lie under a folder that its
/// library is moved to.
pub open spec fn left_outside(
    previous: Option<Seq<char>>,
    folder: Seq<char>,
    stored: Seq<char>,
) -> bool {
    previous is Some && !rooted(stored) && stripped(folder, located(previous, stored)) is None
}

/// A recording after the adoption pass of the library of `kind`.
pub open spec fn adopted(
    kind: Seq<char>,
    previous: Option<Seq<char>>,
    folder: Seq<char>,
) -> spec_fn(RecordingView) -> RecordingView {
    |r: RecordingView|
        if r.library == kind {
            RecordingView {
                path: adopted_key(previous, folder, r.path),
                outside: r.outside || left_outside(previous, folder, r.path),
                ..r
            }
        } else {
            r
        }
}

/// Whether recording `n`, taking on its new key, meets it on another recording
/// `j` of its library: recordings before it have their new keys, those behind it
/// still their old ones.
pub open spec fn key_taken(
    s: Seq<RecordingView>,
    kind: Seq<char>,
    previous: Option<Seq<char>>,
    folder: Seq<char>,
    n: int,
    j: int,
) -> bool {
    let f = adopted(kind, previous, folder);
    &&& 0 <= n < s.len()
    &&& 0 <= j < s.len()
    &&& j != n
    &&& s[n].library == kind
    &&& s[j].library == kind
    &&& f(s[n]).path != s[n].path
    &&& f(s[n]).path == (if j < n {
        f(s[j]).path
    } else {
        s[j].path
    })
}

/// Whether the adoption pass gives two recordings of the library one key.
pub open spec fn adoption_collides(
    s: Seq<RecordingView>,
    kind: Seq<char>,
    previous: Option<Seq<char>>,
    folder: Seq<char>,
) -> bool {
    exists|n: int, j: int| #[trigger] key_taken(s, kind, previous, folder, n, j)
}

/// A library row re-pointed at `folder`, mounted as `mount`.
pub open spec fn repointed(folder: Seq<char>, mount: Seq<char>) -> spec_fn(
    LibraryView,
) -> LibraryView {
    |l: LibraryView| LibraryView { path: folder, mount, ..l }
}

/// The libraries with the one of `kind` at `folder`, replaced or added.
pub open spec fn library_put(
    s: Seq<LibraryView>,
    kind: Seq<char>,
    folder: Seq<char>,
    mount: Seq<char>,
) -> Seq<LibraryView> {
    if any(s, library_of(kind)) {
        rewrite(s, library_of(kind), repointed(folder, mount))
    } else {
        s.push(LibraryView { id: next_library(s) as i64, path: folder, kind, mount })
    }
}

/// How a library counts as mounted: as declared, but always locally for the local
/// one.
pub open spec fn mounted_as(kind: Seq<char>, mount: Seq<char>) -> Seq<char> {
    if kind == "local"@ {
        "local"@
    } else {
        mount
    }
}

/// The store after `folder` is designated as the library of `kind`.
pub open spec fn designated(
    d: StoreView,
    kind: Seq<char>,
    folder: Seq<char>,
    mount: Seq<char>,
) -> StoreView {
    StoreView {
        recordings: d.recordings.map_values(adopted(kind, d.library_path_of(kind), folder)),
        libraries: library_put(d.libraries, kind, folder, mounted_as(kind, mount)),
        meta: meta_put(d.meta, "active_library"@, kind),
        ..d
    }
}

/// Designate (or re-designate) `folder` as the library of `kind`, mounted as
/// `mount` declares (the local library always locally), and make it active. Every
/// recording of that library that lies under `folder` takes on its key relative to
/// it, with its whole review. The others keep their old keys and stop appearing,
/// until a scan finds their files under the library. Refused, with nothing changed,
/// when two recordings would end up under one key.
pub fn designate_library(conn: &mut Store, kind: &str, folder: &str, mount: &str) -> (r: Result<
    (),
    StoreError,
>)
    requires
        next_library(old(conn)@.libraries) <= i64::MAX,
    ensures
        r is Err <==> adoption_collides(
            old(conn)@.recordings,
            kind@,
            old(conn)@.library_path_of(kind@),
            folder@,
        ),
        r matches Err(e) ==> e == StoreError::DuplicatePath,
        r is Ok ==> final(conn)@ == designated(old(conn)@, kind@, folder@, mount@),
        r is Err ==> final(conn)@ == old(conn)@,
        old(conn)@.wf() ==> final(conn)@.wf(),
{
    proof {
        if conn@.wf() && !adoption_collides(
            conn@.recordings,
            kind@,
            conn@.library_path_of(kind@),
            folder@,
        ) {
            crate::upkeep::designated_wf(conn@, kind@, folder@, mount@);
        }
    }
    let declared = mount;
    let mount: &str = if same(kind, "local") {
        "local"
    } else {
        declared
    };
    let previous = library_path_of(conn, kind);
    let rows = match adopt_recordings(&conn.recordings, kind, &previous, folder) {
        Ok(rows) => rows,
        Err(e) => {
            return Err(e);
        },
    };
    conn.recordings = rows;
    let at = position(
        &conn.libraries,
        |l: &LibraryRow| -> (b: bool)
            ensures
                b == (l.kind@ == kind@)
            { same(&l.kind, kind) },
        Ghost(library_of(kind@)),
    );
    let ghost f = repointed(folder@, mount@);
    let ghost g = |l: LibraryView|
        if library_of(kind@)(l) {
            f(l)
        } else {
            l
        };
    if at.is_some() {
        conn.libraries =
        each(
            &conn.libraries,
            |l: &LibraryRow| -> (r: LibraryRow)
                ensures
                    r.deep_view() == g(l.deep_view())
                {
                    if same(&l.kind, kind) {
                        LibraryRow {
                            id: l.id,
                            path: folder.to_owned(),
                            kind: l.kind.clone(),
                            mount: mount.to_owned(),
                        }
                    } else {
                        l.dup()
                    }
                },
            Ghost(g),
        );
        assert(conn.libraries.deep_view() =~= rewrite(old(conn)@.libraries, library_of(kind@), f));
    } else {
        let n: usize = conn.libraries.len();
        let id: i64 = if n == 0 {
            1
        } else {
            assert(conn@.libraries.last() == conn.libraries@[n - 1].deep_view());
            conn.libraries[n - 1].id + 1
        };
        conn.libraries.push(
            LibraryRow {
                id,
                path: folder.to_owned(),
                kind: kind.to_owned(),
                mount: mount.to_owned(),
            },
        );
        assert(conn.libraries.deep_view() =~= old(conn)@.libraries.push(
            LibraryView { id, path: folder@, kind: kind@, mount: mount@ },
        ));
    }
    assert(conn.libraries.deep_view() == library_put(
        old(conn)@.libraries,
        kind@,
        folder@,
        mount@,
    ));
    set_active_kind(conn, kind);
    assert(conn@ =~= designated(old(conn)@, kind@, folder@, declared@));
    Ok(())
}

/// The adoption pass: each recording of the library in turn takes on its key
/// under `folder`, refused when another recording of the library has that key.
fn adopt_recordings(
    recordings: &Vec<RecordingRow>,
    kind: &str,
    previous: &Option<String>,
    folder: &str,
) -> (r: Result<Vec<RecordingRow>, StoreError>)
    ensures
        r is Err <==> adoption_collides(
            recordings.deep_view(),
            kind@,
            previous.deep_view(),
            folder@,
        ),
        r matches Err(e) ==> e == StoreError::DuplicatePath,
        r matches Ok(v) ==> v.deep_view() == recordings.deep_view().map_values(
            adopted(kind@, previous.deep_view(), folder@),
        ),
{
    let ghost s = recordings.deep_view();
    let ghost prev = previous.deep_view();
    let ghost f = adopted(kind@, prev, folder@);
    let mut out: Vec<RecordingRow> = Vec::new();
    let mut n: usize = 0;
    while n < recordings.len()
        invariant
            n <= recordings@.len(),
            s == recordings.deep_view(),
            prev == previous.deep_view(),
            f == adopted(kind@, prev, folder@),
            out@.len() == n,
            forall|i: int| 0 <= i < n ==> (#[trigger] out@[i]).deep_view() == f(s[i]),
            forall|i: int, j: int| i < n ==> !#[trigger] key_taken(s, kind@, prev, folder@, i, j),
        decreases recordings@.len() - n,
    {
        let row = &recordings[n];
        assert(s[n as int] == row.deep_view());
        if !same(&row.library, kind) {
            assert(f(s[n as int]) == s[n as int]);
            out.push(row.dup());
            n += 1;
            continue;
        }
        let location = match previous {
            Some(library) => absolute(library, &row.path),
            None => row.path.clone(),
        };
        assert(location@ == located(prev, row.path@));
        let under = relative(folder, &location);
        let outside = row.outside || (previous.is_some() && !is_absolute(&row.path)
            && under.is_none());
        let rel = match under {
            Some(rel) => rel,
            None => row.path.clone(),
        };
        assert(rel@ == f(s[n as int]).path);
        if !same(&rel, &row.path) {
            let mut j: usize = 0;
            while j < recordings.len()
                invariant
                    n < recordings@.len(),
                    j <= recordings@.len(),
                    s == recordings.deep_view(),
                    prev == previous.deep_view(),
                    f == adopted(kind@, prev, folder@),
                    out@.len() == n,
                    rel@ == f(s[n as int]).path,
                    rel@ != s[n as int].path,
                    s[n as int].library == kind@,
                    forall|i: int|
                        0 <= i < n ==> (#[trigger] out@[i]).deep_view() == f(s[i]),
                    forall|i: int|
                        i < j ==> !#[trigger] key_taken(
                            s,
                            kind@,
                            prev,
                            folder@,
                            n as int,
                            i,
                        ),
                decreases recordings@.len() - j,
            {
                assert(s[j as int] == recordings@[j as int].deep_view());
                if j < n {
                    assert(out@[j as int].deep_view() == f(s[j as int]));
                }
                let key = if j < n {
                    &out[j].path
                } else {
                    &recordings[j].path
                };
                if j != n && same(&recordings[j].library, kind) && same(key, &rel) {
                    assert(key_taken(s, kind@, prev, folder@, n as int, j as int));
                    return Err(StoreError::DuplicatePath);
                }
                j += 1;
            }
        }
        let mut next = row.dup();
        next.path = rel;
        next.outside = outside;
        assert(next.deep_view() == f(s[n as int]));
        out.push(next);
        n += 1;
    }
    assert(out.deep_view() =~= s.map_values(f));
    Ok(out)
}

} // verus!
