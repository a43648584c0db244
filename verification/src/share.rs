//! Sharing a session's review: under which name, from which library, and where
//! the bundle goes. And which links leave the application.
use vstd::prelude::*;
use vstd::string::*;

use crate::bundle::{
    build_session_bundle, bundle_file_name, bundle_name, session_bundle, SessionBundle,
};
use crate::library::{active_kind, library_path, meta_set, with_meta};
use crate::path::{absolute, joined};
use crate::store::{Store, StoreView};
use crate::text::{same, trim, trimmed};

verus! {

/// Why a session is not bundled, if so.
pub open spec fn save_error(d: StoreView, session_id: i64, label: Seq<char>) -> Option<Seq<char>> {
    if trimmed(label).len() == 0 {
        Some("please enter a name to share under"@)
    } else if session_bundle(d, session_id, trimmed(label)) is None {
        Some("session not found"@)
    } else {
        None
    }
}

/// Why a session is not shared, if so.
pub open spec fn share_error(d: StoreView, session_id: i64, label: Seq<char>) -> Option<Seq<char>> {
    if trimmed(label).len() == 0 {
        Some("please enter a name to share under"@)
    } else if d.active_kind() != "shared"@ {
        Some("switch to the shared library to share a session"@)
    } else if d.library_path_of("shared"@) is None {
        Some("the shared library is not designated"@)
    } else {
        save_error(d, session_id, label)
    }
}

/// Bundle a session to be saved anywhere, remembering the name it is shared under.
pub fn save_session_bundle_as(conn: &mut Store, session_id: i64, sharer_label: &str) -> (r: Result<
    SessionBundle,
    String,
>)
    ensures
        match (r, save_error(old(conn)@, session_id, sharer_label@)) {
            (Ok(b), None) => {
                &&& Some(b.deep_view()) == session_bundle(
                    old(conn)@,
                    session_id,
                    trimmed(sharer_label@),
                )
                &&& final(conn)@ == with_meta(
                    old(conn)@,
                    "sharer_label"@,
                    trimmed(sharer_label@),
                )
            },
            (Err(e), Some(m)) => e@ == m && final(conn)@ == old(conn)@,
            _ => false,
        },
        old(conn)@.wf() ==> final(conn)@.wf(),
{
    let label = trim(sharer_label);
    if label.as_str().is_empty() {
        return Err("please enter a name to share under".to_owned());
    }
    match build_session_bundle(conn, session_id, &label) {
        Some(bundle) => {
            meta_set(conn, "sharer_label", &label);
            Ok(bundle)
        },
        None => Err("session not found".to_owned()),
    }
}

/// Bundle a session of the shared library to be dropped into its root, and the
/// path of the file, remembering the name it is shared under.
pub fn share_session_bundle(conn: &mut Store, session_id: i64, sharer_label: &str) -> (r: Result<
    (SessionBundle, String),
    String,
>)
    ensures
        match (r, share_error(old(conn)@, session_id, sharer_label@)) {
            (Ok((b, path)), None) => {
                &&& Some(b.deep_view()) == session_bundle(
                    old(conn)@,
                    session_id,
                    trimmed(sharer_label@),
                )
                &&& path@ == joined(
                    old(conn)@.library_path_of("shared"@)->0,
                    bundle_name(b.deep_view().capture_day, trimmed(sharer_label@)),
                )
                &&& final(conn)@ == with_meta(
                    old(conn)@,
                    "sharer_label"@,
                    trimmed(sharer_label@),
                )
            },
            (Err(e), Some(m)) => e@ == m && final(conn)@ == old(conn)@,
            _ => false,
        },
        old(conn)@.wf() ==> final(conn)@.wf(),
{
    let label = trim(sharer_label);
    if label.as_str().is_empty() {
        return Err("please enter a name to share under".to_owned());
    }
    if !same(&active_kind(conn), "shared") {
        return Err("switch to the shared library to share a session".to_owned());
    }
    let root = match library_path(conn) {
        Some(l) => l,
        None => {
            return Err("the shared library is not designated".to_owned());
        },
    };
    let bundle = match save_session_bundle_as(conn, session_id, sharer_label) {
        Ok(b) => b,
        Err(e) => {
            return Err(e);
        },
    };
    let file = bundle_file_name(&bundle.capture_day, &label);
    let path = absolute(&root, &file);
    Ok((bundle, path))
}

/// What becomes of a navigation.
#[derive(Debug, Clone, Copy, PartialEq, Eq, Structural)]
pub enum Navigation {
    /// It happens inside the application.
    Inside,
    /// It is opened in the system's browser instead.
    Outside,
}

/// Whether a host is the application's own.
pub open spec fn own_host(host: Option<Seq<char>>) -> bool {
    host == Some("localhost"@) || host == Some("127.0.0.1"@) || host == Some("tauri.localhost"@)
        || host == Some("::1"@)
}

/// Whether a link of a scheme is opened in the system's browser.
pub open spec fn external_scheme(scheme: Seq<char>) -> bool {
    scheme == "http"@ || scheme == "https"@ || scheme == "mailto"@ || scheme == "tel"@
}

/// What becomes of a navigation to a scheme and host: the application's own stay
/// inside, links to the web, to mail and to telephones leave, others stay.
pub fn external_navigation(scheme: &str, host: &Option<String>) -> (r: Navigation)
    ensures
        r == (if scheme@ != "tauri"@ && !own_host(host.deep_view()) && external_scheme(scheme@) {
            Navigation::Outside
        } else {
            Navigation::Inside
        }),
{
    let own = match host {
        Some(h) => same(h, "localhost") || same(h, "127.0.0.1") || same(h, "tauri.localhost")
            || same(h, "::1"),
        None => false,
    };
    if same(scheme, "tauri") || own {
        return Navigation::Inside;
    }
    if same(scheme, "http") || same(scheme, "https") || same(scheme, "mailto") || same(
        scheme,
        "tel",
    ) {
        Navigation::Outside
    } else {
        Navigation::Inside
    }
}

} // verus!
