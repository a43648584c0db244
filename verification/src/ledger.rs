//! Ledgers of what the user has dealt with, kept as JSON text in the settings.
use std::collections::{BTreeMap, BTreeSet};
use vstd::prelude::*;

use crate::text::same;

verus! {

/// The map that a list of entries stands for, a later entry replacing an earlier
/// one of its key.
pub open spec fn map_of(entries: Seq<(Seq<char>, Seq<char>)>) -> Map<Seq<char>, Seq<char>>
    decreases entries.len(),
{
    if entries.len() == 0 {
        Map::empty()
    } else {
        map_of(entries.drop_last()).insert(entries.last().0, entries.last().1)
    }
}

/// The map that an optional list of entries stands for.
pub open spec fn map_of_option(entries: Option<Seq<(Seq<char>, Seq<char>)>>) -> Option<
    Map<Seq<char>, Seq<char>>,
> {
    match entries {
        Some(s) => Some(map_of(s)),
        None => None,
    }
}

/// The map that `serde_json::from_str` reads from a JSON object whose values are
/// strings, or `None` where it fails.
pub uninterp spec fn json_map(text: Seq<char>) -> Option<Map<Seq<char>, Seq<char>>>;

/// The text that `serde_json::to_string` writes for a map from strings to strings.
pub uninterp spec fn json_map_text(m: Map<Seq<char>, Seq<char>>) -> Seq<char>;

/// The set that `serde_json::from_str` reads from a JSON array of strings, or
/// `None` where it fails.
pub uninterp spec fn json_set(text: Seq<char>) -> Option<Set<Seq<char>>>;

/// The text that `serde_json::to_string` writes for a set of strings.
pub uninterp spec fn json_set_text(s: Set<Seq<char>>) -> Seq<char>;

/// `serde_json::from_str` into a map from strings to strings reads the map that a
/// text stands for, or fails on it; which of the two depends on the text alone.
#[verifier::external_body]
fn read_map(text: &str) -> (r: Option<Vec<(String, String)>>)
    ensures
        map_of_option(r.deep_view()) == json_map(text@),
{
    let map: Option<BTreeMap<String, String>> = serde_json::from_str(text).ok();
    map.map(|m| m.into_iter().collect())
}

/// `serde_json::to_string` of a map from strings to strings depends on the map
/// alone, and `serde_json::from_str` reads the same map back from it.
#[verifier::external_body]
fn write_map(entries: &Vec<(String, String)>) -> (r: String)
    ensures
        r@ == json_map_text(map_of(entries.deep_view())),
        json_map(r@) == Some(map_of(entries.deep_view())),
{
    let map: BTreeMap<&String, &String> = entries.iter().map(|e| (&e.0, &e.1)).collect();
    serde_json::to_string(&map).unwrap_or_default()
}

/// `serde_json::from_str` into a set of strings reads the set that a text stands
/// for, or fails on it; which of the two depends on the text alone.
#[verifier::external_body]
fn read_set(text: &str) -> (r: Option<Vec<String>>)
    ensures
        match r.deep_view() {
            Some(s) => Some(s.to_set()),
            None => None,
        } == json_set(text@),
{
    let set: Option<BTreeSet<String>> = serde_json::from_str(text).ok();
    set.map(|s| s.into_iter().collect())
}

/// `serde_json::to_string` of a set of strings depends on the set alone, and
/// `serde_json::from_str` reads the same set back from it.
#[verifier::external_body]
fn write_set(items: &Vec<String>) -> (r: String)
    ensures
        r@ == json_set_text(items.deep_view().to_set()),
        json_set(r@) == Some(items.deep_view().to_set()),
{
    let set: BTreeSet<&String> = items.iter().collect();
    serde_json::to_string(&set).unwrap_or_default()
}

/// The map kept in a setting: empty when it is unset or cannot be read.
pub open spec fn kept_map(text: Option<Seq<char>>) -> Map<Seq<char>, Seq<char>> {
    match text {
        Some(t) => match json_map(t) {
            Some(m) => m,
            None => Map::empty(),
        },
        None => Map::empty(),
    }
}

/// The set kept in a setting: empty when it is unset or cannot be read.
pub open spec fn kept_set(text: Option<Seq<char>>) -> Set<Seq<char>> {
    match text {
        Some(t) => match json_set(t) {
            Some(s) => s,
            None => Set::empty(),
        },
        None => Set::empty(),
    }
}

/// The value under a key of a map, if any.
pub open spec fn value_under(m: Map<Seq<char>, Seq<char>>, key: Seq<char>) -> Option<Seq<char>> {
    if m.contains_key(key) {
        Some(m[key])
    } else {
        None
    }
}

/// The entries of the map kept in a setting.
pub fn parse_map(text: &Option<String>) -> (r: Vec<(String, String)>)
    ensures
        map_of(r.deep_view()) == kept_map(text.deep_view()),
{
    if let Some(t) = text {
        if let Some(entries) = read_map(t) {
            return entries;
        }
    }
    let out: Vec<(String, String)> = Vec::new();
    assert(out.deep_view() =~= Seq::empty());
    out
}

/// The elements of the set kept in a setting.
pub fn parse_set(text: &Option<String>) -> (r: Vec<String>)
    ensures
        r.deep_view().to_set() == kept_set(text.deep_view()),
{
    if let Some(t) = text {
        if let Some(items) = read_set(t) {
            return items;
        }
    }
    let out: Vec<String> = Vec::new();
    assert(out.deep_view().to_set() =~= Set::empty());
    out
}

/// The text of a map with one entry set.
pub fn map_with(mut entries: Vec<(String, String)>, key: String, value: String) -> (r: String)
    ensures
        r@ == json_map_text(map_of(entries.deep_view()).insert(key@, value@)),
        json_map(r@) == Some(map_of(entries.deep_view()).insert(key@, value@)),
{
    let ghost before = entries.deep_view();
    let ghost last = (key@, value@);
    entries.push((key, value));
    assert(entries.deep_view() =~= before.push(last));
    assert(before.push(last).drop_last() =~= before);
    write_map(&entries)
}

/// The text of a set with one element added.
pub fn set_with(mut items: Vec<String>, item: String) -> (r: String)
    ensures
        r@ == json_set_text(items.deep_view().to_set().insert(item@)),
        json_set(r@) == Some(items.deep_view().to_set().insert(item@)),
{
    let ghost before = items.deep_view();
    let ghost last = item@;
    items.push(item);
    proof {
        let after = items.deep_view();
        assert(after =~= before.push(last));
        assert(after.to_set() =~= before.to_set().insert(last)) by {
            assert forall|x: Seq<char>| after.contains(x) <==> before.contains(x) || x == last by {
                if after.contains(x) {
                    let i = choose|i: int| 0 <= i < after.len() && after[i] == x;
                    if i < before.len() {
                        assert(before[i] == x);
                    }
                }
                if before.contains(x) {
                    let i = choose|i: int| 0 <= i < before.len() && before[i] == x;
                    assert(after[i] == x);
                }
                assert(after[before.len() as int] == last);
            }
        }
    }
    write_set(&items)
}

/// The value under a key of the map of some entries.
pub fn look_up(entries: &Vec<(String, String)>, key: &str) -> (r: Option<String>)
    ensures
        r.deep_view() == value_under(map_of(entries.deep_view()), key@),
{
    let ghost s = entries.deep_view();
    let mut i: usize = entries.len();
    assert(s.take(i as int) =~= s);
    while i > 0
        invariant
            i <= entries@.len(),
            s == entries.deep_view(),
            value_under(map_of(s), key@) == value_under(map_of(s.take(i as int)), key@),
        decreases i,
    {
        assert(s.take(i as int).drop_last() =~= s.take(i - 1));
        assert(s.take(i as int).last() == entries@[i - 1].deep_view());
        if same(&entries[i - 1].0, key) {
            return Some(entries[i - 1].1.clone());
        }
        i -= 1;
    }
    None
}

/// Whether an element is in the set of some items.
pub fn is_member(items: &Vec<String>, item: &str) -> (r: bool)
    ensures
        r == items.deep_view().to_set().contains(item@),
{
    let ghost s = items.deep_view();
    let mut i: usize = 0;
    while i < items.len()
        invariant
            i <= items@.len(),
            s == items.deep_view(),
            forall|j: int| 0 <= j < i ==> s[j] != item@,
        decreases items@.len() - i,
    {
        if same(&items[i], item) {
            assert(s[i as int] == item@);
            return true;
        }
        assert(s[i as int] != item@);
        i += 1;
    }
    false
}

} // verus!
