//! Sessions as groups of recordings: finding or creating the session of a day,
//! and collecting a session that has lost its last recording.
use vstd::prelude::*;

use crate::store::{
    next_recording, next_session, recording_with, recordings_below, recordings_in, session_on,
    sessions_below, RecordingRow, RecordingView, SessionRow, SessionView, Store, StoreView,
};
use crate::table::{any, each, first, first_found, keep, position, rewrite, Row};
use crate::text::same;

verus! {

/// The sessions with one of `day` in the library of `kind`, added where it was
/// not there.
pub open spec fn with_session(
    s: Seq<SessionView>,
    kind: Seq<char>,
    day: Seq<char>,
) -> Seq<SessionView> {
    if any(s, session_on(kind, day)) {
        s
    } else {
        s.push(SessionView { id: next_session(s) as i64, capture_day: day, library: kind })
    }
}

/// The id of the session of `day` in the library of `kind`, once it is there.
pub open spec fn session_id_on(s: Seq<SessionView>, kind: Seq<char>, day: Seq<char>) -> i64 {
    match first(with_session(s, kind, day), session_on(kind, day)) {
        Some(x) => x.id,
        None => 0,
    }
}

/// Every session but the one with an id.
pub open spec fn other_sessions(id: i64) -> spec_fn(SessionView) -> bool {
    |s: SessionView| s.id != id
}

/// The sessions without the one with an id, if no recording belongs to it.
pub open spec fn without_empty(
    s: Seq<SessionView>,
    recordings: Seq<RecordingView>,
    id: i64,
) -> Seq<SessionView> {
    if any(recordings, recordings_in(id)) {
        s
    } else {
        s.filter(other_sessions(id))
    }
}

/// A session of that day is there once it is asked for.
pub proof fn session_is_there(s: Seq<SessionView>, kind: Seq<char>, day: Seq<char>)
    ensures
        first(with_session(s, kind, day), session_on(kind, day)) is Some,
        any(with_session(s, kind, day), session_on(kind, day)),
{
    let t = with_session(s, kind, day);
    if !any(s, session_on(kind, day)) {
        assert(session_on(kind, day)(t[t.len() - 1]));
    }
    first_found(t, session_on(kind, day));
}

/// Find or create the session of `day` in the library of `kind`; its id.
pub(crate) fn ensure_session(conn: &mut Store, kind: &str, day: &str) -> (id: i64)
    requires
        next_session(old(conn)@.sessions) <= i64::MAX,
    ensures
        id == session_id_on(old(conn)@.sessions, kind@, day@),
        final(conn)@ == (StoreView {
            sessions: with_session(old(conn)@.sessions, kind@, day@),
            ..old(conn)@
        }),
{
    let ghost p = session_on(kind@, day@);
    match position(
        &conn.sessions,
        |s: &SessionRow| -> (b: bool)
            ensures
                b == (s.library@ == kind@ && s.capture_day@ == day@)
            { same(&s.library, kind) && same(&s.capture_day, day) },
        Ghost(p),
    ) {
        Some(i) => conn.sessions[i].id,
        None => {
            let n: usize = conn.sessions.len();
            let id: i64 = if n == 0 {
                1
            } else {
                assert(conn@.sessions.last() == conn.sessions@[n - 1].deep_view());
                conn.sessions[n - 1].id + 1
            };
            conn.sessions.push(
                SessionRow { id, capture_day: day.to_owned(), library: kind.to_owned() },
            );
            proof {
                let old_s = old(conn)@.sessions;
                let t = with_session(old_s, kind@, day@);
                assert(conn@.sessions =~= t);
                assert(t.drop_last() =~= old_s);
                first_found(old_s, p);
                assert(first(t, p) == Some(t.last()));
                assert(conn@ =~= (StoreView { sessions: t, ..old(conn)@ }));
            }
            id
        },
    }
}

/// Collect the session with an id if no recording belongs to it.
pub(crate) fn collect_session(conn: &mut Store, id: i64)
    ensures
        final(conn)@ == (StoreView {
            sessions: without_empty(old(conn)@.sessions, old(conn)@.recordings, id),
            ..old(conn)@
        }),
{
    let used = position(
        &conn.recordings,
        |r: &RecordingRow| -> (b: bool)
            ensures
                b == (r.session_id == id)
            { r.session_id == id },
        Ghost(recordings_in(id)),
    );
    if used.is_none() {
        conn.sessions =
        keep(
            &conn.sessions,
            |s: &SessionRow| -> (b: bool)
                ensures
                    b == (s.id != id)
                { s.id != id },
            Ghost(other_sessions(id)),
        );
    }
    assert(conn@ =~= (StoreView {
        sessions: without_empty(old(conn)@.sessions, old(conn)@.recordings, id),
        ..old(conn)@
    }));
}

/// The position of the recording with an id.
pub(crate) fn find_id(conn: &Store, id: i64) -> (r: Option<usize>)
    ensures
        match r {
            Some(i) => i < conn.recordings@.len() && first(conn@.recordings, recording_with(id))
                == Some(conn.recordings@[i as int].deep_view()) && conn.recordings@[i as int].id
                == id && any(conn@.recordings, recording_with(id)),
            None => first(conn@.recordings, recording_with(id)) is None && !any(
                conn@.recordings,
                recording_with(id),
            ),
        },
{
    position(
        &conn.recordings,
        |r: &RecordingRow| -> (b: bool)
            ensures
                b == (r.id == id)
            { r.id == id },
        Ghost(recording_with(id)),
    )
}

/// Rewrite the recording with an id.
pub(crate) fn amend<F: Fn(&RecordingRow) -> RecordingRow>(
    conn: &mut Store,
    id: i64,
    f: F,
    Ghost(g): Ghost<spec_fn(RecordingView) -> RecordingView>,
)
    requires
        forall|x: &RecordingRow| call_requires(f, (x,)),
        forall|x: &RecordingRow, y: RecordingRow|
            call_ensures(f, (x,), y) ==> y.deep_view() == g(x.deep_view()),
    ensures
        final(conn)@ == (StoreView {
            recordings: rewrite(old(conn)@.recordings, recording_with(id), g),
            ..old(conn)@
        }),
{
    let ghost p = recording_with(id);
    let ghost h = |x: RecordingView|
        if p(x) {
            g(x)
        } else {
            x
        };
    conn.recordings =
    each(
        &conn.recordings,
        |r: &RecordingRow| -> (n: RecordingRow)
            ensures
                n.deep_view() == h(r.deep_view())
            {
                if r.id == id {
                    f(r)
                } else {
                    r.dup()
                }
            },
        Ghost(h),
    );
    assert(conn@.recordings =~= rewrite(old(conn)@.recordings, p, g));
    assert(conn@ =~= (StoreView { recordings: rewrite(old(conn)@.recordings, p, g), ..old(conn)@
    }));
}

/// A freshly registered recording: nothing probed, segmented or dated yet.
pub open spec fn fresh_row(
    id: i64,
    session: i64,
    kind: Seq<char>,
    path: Seq<char>,
    file_size: i64,
    quick_hash: Seq<char>,
    day: Seq<char>,
) -> RecordingView {
    RecordingView {
        id,
        session_id: session,
        path,
        library: kind,
        file_size,
        quick_hash,
        capture_day: day,
        probe_state: "unknown"@,
        segment_state: "unknown"@,
        date_state: "unknown"@,
        duration_ms: None,
        waveform: None,
        segmenter_version: None,
        outside: false,
    }
}

/// The store after a recording is registered under the session of its day in its
/// library, created if it does not exist.
pub open spec fn registered(
    d: StoreView,
    kind: Seq<char>,
    path: Seq<char>,
    file_size: i64,
    quick_hash: Seq<char>,
    day: Seq<char>,
) -> StoreView {
    StoreView {
        sessions: with_session(d.sessions, kind, day),
        recordings: d.recordings.push(
            fresh_row(
                next_recording(d.recordings) as i64,
                session_id_on(d.sessions, kind, day),
                kind,
                path,
                file_size,
                quick_hash,
                day,
            ),
        ),
        ..d
    }
}

/// Register a recording under the session of its day; its id.
pub(crate) fn register(
    conn: &mut Store,
    kind: &str,
    path: &str,
    file_size: i64,
    quick_hash: &str,
    day: &str,
) -> (id: i64)
    requires
        next_session(old(conn)@.sessions) <= i64::MAX,
        next_recording(old(conn)@.recordings) <= i64::MAX,
    ensures
        id == next_recording(old(conn)@.recordings),
        final(conn)@ == registered(
            old(conn)@,
            kind@,
            path@,
            file_size,
            quick_hash@,
            day@,
        ),
{
    let session_id = ensure_session(conn, kind, day);
    let n: usize = conn.recordings.len();
    let id: i64 = if n == 0 {
        1
    } else {
        assert(conn@.recordings.last() == conn.recordings@[n - 1].deep_view());
        conn.recordings[n - 1].id + 1
    };
    conn.recordings.push(
        RecordingRow {
            id,
            session_id,
            path: path.to_owned(),
            library: kind.to_owned(),
            file_size,
            quick_hash: quick_hash.to_owned(),
            capture_day: day.to_owned(),
            probe_state: "unknown".to_owned(),
            segment_state: "unknown".to_owned(),
            date_state: "unknown".to_owned(),
            duration_ms: None,
            waveform: None,
            segmenter_version: None,
            outside: false,
        },
    );
    assert(conn@.recordings =~= old(conn)@.recordings.push(
        fresh_row(id, session_id, kind@, path@, file_size, quick_hash@, day@),
    ));
    assert(conn@ =~= registered(old(conn)@, kind@, path@, file_size, quick_hash@, day@));
    id
}

/// Asking for a session keeps session ids below a bound raised by one.
pub proof fn with_session_below(s: Seq<SessionView>, kind: Seq<char>, day: Seq<char>, bound: int)
    requires
        sessions_below(s, bound),
        bound <= i64::MAX,
    ensures
        sessions_below(with_session(s, kind, day), bound + 1),
        next_session(s) <= bound,
{
    if s.len() > 0 {
        assert(s[s.len() - 1].id < bound);
    }
    let t = with_session(s, kind, day);
    assert forall|i: int| 0 <= i < t.len() implies (#[trigger] t[i]).id < bound + 1 by {
        if i < s.len() {
            assert(t[i] == s[i]);
        }
    }
}

/// Registering a recording keeps recording ids below a bound raised by one.
pub proof fn pushed_below(s: Seq<RecordingView>, r: RecordingView, bound: int)
    requires
        recordings_below(s, bound),
        r.id <= bound,
    ensures
        recordings_below(s.push(r), bound + 1),
        next_recording(s) <= bound,
{
    if s.len() > 0 {
        assert(s[s.len() - 1].id < bound);
    }
    let t = s.push(r);
    assert forall|i: int| 0 <= i < t.len() implies (#[trigger] t[i]).id < bound + 1 by {
        if i < s.len() {
            assert(t[i] == s[i]);
        }
    }
}

/// Rewriting rows without changing their ids keeps ids below a bound.
pub proof fn rewritten_below(
    s: Seq<RecordingView>,
    p: spec_fn(RecordingView) -> bool,
    f: spec_fn(RecordingView) -> RecordingView,
    bound: int,
)
    requires
        recordings_below(s, bound),
        forall|r: RecordingView| (#[trigger] f(r)).id == r.id,
    ensures
        recordings_below(rewrite(s, p, f), bound),
{
    let t = rewrite(s, p, f);
    assert forall|i: int| 0 <= i < t.len() implies (#[trigger] t[i]).id < bound by {
        assert(s[i].id < bound);
        assert(f(s[i]).id == s[i].id);
    }
}

} // verus!
