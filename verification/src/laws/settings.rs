//! Settings and the switch between libraries: what is written is read back, and
//! nothing else changes.
use vstd::prelude::*;

use crate::library::{meta_put, revalued, with_meta};
use crate::store::{setting, MetaView, StoreView};
use crate::table::{any, first, first_found, rewrite};

verus! {

/// A setting that is written is read back; every other one keeps its value.
pub proof fn settings_are_read_back(
    d: StoreView,
    key: Seq<char>,
    value: Seq<char>,
    other: Seq<char>,
)
    ensures
        with_meta(d, key, value).meta_value(key) == Some(value),
        other != key ==> with_meta(d, key, value).meta_value(other) == d.meta_value(other),
{
    let s = d.meta;
    let t = with_meta(d, key, value).meta;
    if any(s, setting(key)) {
        first_found(s, setting(key));
        rewritten_settings(s, key, value, key);
        rewritten_settings(s, key, value, other);
        first_found(s, setting(other));
    } else {
        first_found(s, setting(key));
        assert(t.drop_last() =~= s);
    }
}

/// The settings after one is rewritten.
proof fn rewritten_settings(
    s: Seq<MetaView>,
    key: Seq<char>,
    value: Seq<char>,
    other: Seq<char>,
)
    ensures
        first(rewrite(s, setting(key), revalued(value)), setting(other)) == (match first(
            s,
            setting(other),
        ) {
            Some(m) => Some(
                if m.key == key {
                    MetaView { key, value }
                } else {
                    m
                },
            ),
            None => None,
        }),
    decreases s.len(),
{
    let t = rewrite(s, setting(key), revalued(value));
    if s.len() > 0 {
        rewritten_settings(s.drop_last(), key, value, other);
        assert(t.drop_last() =~= rewrite(s.drop_last(), setting(key), revalued(value)));
        first_found(s.drop_last(), setting(other));
    }
}

/// Writing a setting twice leaves the second value.
pub proof fn last_setting_stays(d: StoreView, key: Seq<char>, a: Seq<char>, b: Seq<char>)
    ensures
        with_meta(with_meta(d, key, a), key, b) == with_meta(d, key, b),
{
    let s = d.meta;
    let t = meta_put(s, key, a);
    let u = meta_put(s, key, b);
    if any(s, setting(key)) {
        let i = choose|i: int| 0 <= i < s.len() && setting(key)(#[trigger] s[i]);
        assert(setting(key)(t[i]));
    } else {
        assert(setting(key)(t[s.len() as int]));
        assert forall|i: int| 0 <= i < s.len() implies (#[trigger] s[i]).key != key by {
            if s[i].key == key {
                assert(setting(key)(s[i]));
            }
        }
    }
    assert(meta_put(t, key, b) =~= u);
}

/// Switching to another library and back loses nothing: the store is as it was.
pub proof fn switching_back_restores(d: StoreView, kind: Seq<char>, other: Seq<char>)
    requires
        d.wf(),
        d.meta_value("active_library"@) == Some(kind),
    ensures
        with_meta(with_meta(d, "active_library"@, other), "active_library"@, kind) == d,
        with_meta(d, "active_library"@, other).active_kind() == other,
{
    let key = "active_library"@;
    last_setting_stays(d, key, other, kind);
    settings_are_read_back(d, key, other, key);
    let s = d.meta;
    first_found(s, setting(key));
    let m = first(s, setting(key))->0;
    let at = choose|i: int| 0 <= i < s.len() && s[i] == m;
    assert(meta_put(s, key, kind) =~= s) by {
        assert forall|i: int| 0 <= i < s.len() && (#[trigger] s[i]).key == key implies s[i].value
            == kind by {
            if i < at {
                assert(s[i].key != s[at].key);
            } else if at < i {
                assert(s[at].key != s[i].key);
            }
        }
    }
}

} // verus!
