//! Contents: what a fingerprint is made of, when a file is the one described, and what a
//! scan makes of a file by its content.
use vstd::prelude::*;

use crate::capture_day::day_of_moment;
use crate::disk::{exists_at, file_verified, present_at, DiskEntryView, FileMetaView};
use crate::fingerprint::{hex_digit, hex_text, le_bytes, quick_hash_of, sample_of, sha256};
use crate::grouping::session_is_there;
use crate::scan::{file_met, hash_or_none, lost, lost_elsewhere, other_than, with_content, ScanView};
use crate::store::{LibraryView, RecordingView, StoreView};
use crate::table::{any, filter_elements, first, first_found};

verus! {

/// The number that bytes stand for, the least significant first.
pub open spec fn little_endian(b: Seq<u8>) -> int
    decreases b.len(),
{
    if b.len() == 0 {
        0
    } else {
        b[0] as int + 256 * little_endian(b.skip(1))
    }
}

/// The number that a hexadecimal digit in lower case stands for.
pub open spec fn hex_read(c: char) -> int {
    if '0' <= c <= '9' {
        c as int - '0' as int
    } else if 'a' <= c <= 'f' {
        c as int - 'a' as int + 10
    } else {
        -1
    }
}

/// Whether a text tells bytes, in two hexadecimal digits each.
pub open spec fn tells_bytes(t: Seq<char>, b: Seq<u8>) -> bool {
    &&& t.len() == 2 * b.len()
    &&& forall|i: int|
        0 <= i < b.len() ==> hex_read(t[2 * i]) * 16 + hex_read(t[2 * i + 1]) == #[trigger] b[i]
            && 0 <= hex_read(t[2 * i]) < 16 && 0 <= hex_read(t[2 * i + 1]) < 16
}

/// Bytes of a number read back as it.
proof fn bytes_read_back(n: nat, k: nat, bound: nat)
    requires
        k <= 8,
        n < bound,
        k == 0 ==> bound == 1,
        k == 1 ==> bound == 0x100,
        k == 2 ==> bound == 0x1_0000,
        k == 3 ==> bound == 0x100_0000,
        k == 4 ==> bound == 0x1_0000_0000,
        k == 5 ==> bound == 0x100_0000_0000,
        k == 6 ==> bound == 0x1_0000_0000_0000,
        k == 7 ==> bound == 0x100_0000_0000_0000,
        k == 8 ==> bound == 0x1_0000_0000_0000_0000,
    ensures
        le_bytes(n, k).len() == k,
        little_endian(le_bytes(n, k)) == n,
    decreases k,
{
    if k > 0 {
        bytes_read_back(n / 256, (k - 1) as nat, bound / 256);
        let t = le_bytes(n, k);
        assert(t.skip(1) =~= le_bytes(n / 256, (k - 1) as nat));
        assert(t[0] == (n % 256) as u8);
    }
}

/// A fingerprint is the digest of eight bytes of the file's size, the least significant
/// first, and of the first 65536 bytes of its content or of all where there are fewer, in
/// hexadecimal digits.
pub proof fn fingerprints_are_made_of_size_and_head(size: u64, head: Seq<u8>)
    ensures
        exists|data: Seq<u8>|
            {
                &&& tells_bytes(quick_hash_of(size as nat, head), #[trigger] sha256(data))
                &&& data.len() == 8 + (if head.len() < 65_536 {
                    head.len()
                } else {
                    65_536
                })
                &&& little_endian(data.take(8)) == size
                &&& data.skip(8) == head.take(data.len() - 8)
            },
{
    bytes_read_back(size as nat, 8, 0x1_0000_0000_0000_0000);
    let front = le_bytes(size as nat, 8);
    let data = front + sample_of(head);
    assert(data.take(8) =~= front);
    assert(data.skip(8) =~= head.take(data.len() - 8));
    let b = sha256(data);
    let t = hex_text(b);
    assert forall|i: int| 0 <= i < b.len() implies hex_read(t[2 * i]) * 16 + hex_read(t[2 * i + 1])
        == #[trigger] b[i] && 0 <= hex_read(t[2 * i]) < 16 && 0 <= hex_read(t[2 * i + 1]) < 16 by {
        assert((2 * i) / 2 == i && (2 * i) % 2 == 0);
        assert((2 * i + 1) / 2 == i && (2 * i + 1) % 2 == 1);
        assert(t[2 * i] == hex_digit(b[i] as int / 16));
        assert(t[2 * i + 1] == hex_digit(b[i] as int % 16));
        hex_reads(b[i] as int / 16);
        hex_reads(b[i] as int % 16);
    }
}

/// A hexadecimal digit reads back.
proof fn hex_reads(d: int)
    requires
        0 <= d < 16,
    ensures
        hex_read(hex_digit(d)) == d,
{
}

/// Files of one size that start with the same 65536 bytes have one fingerprint.
pub proof fn fingerprints_ignore_what_follows(size: nat, head: Seq<u8>, a: Seq<u8>, b: Seq<u8>)
    requires
        head.len() >= 65_536,
    ensures
        quick_hash_of(size, head + a) == quick_hash_of(size, head + b),
{
    assert(sample_of(head + a) =~= sample_of(head + b));
}

/// Something is at a path exactly where an entry of the disk says so.
pub proof fn presence_is_an_entry(disk: Seq<DiskEntryView>, path: Seq<char>)
    ensures
        exists_at(disk, path) <==> exists|i: int|
            0 <= i < disk.len() && (#[trigger] disk[i]).path == path && disk[i].meta is Some,
{
    if exists_at(disk, path) {
        let i = choose|i: int| 0 <= i < disk.len() && present_at(path)(#[trigger] disk[i]);
        assert(disk[i].path == path && disk[i].meta is Some);
    }
    if exists|i: int|
        0 <= i < disk.len() && (#[trigger] disk[i]).path == path && disk[i].meta is Some {
        let i = choose|i: int|
            0 <= i < disk.len() && (#[trigger] disk[i]).path == path && disk[i].meta is Some;
        assert(present_at(path)(disk[i]));
    }
}

/// A file is the one described exactly where it is there and could be read, with the
/// very size and the very fingerprint.
pub proof fn files_are_verified_by_size_and_fingerprint(
    disk: Seq<DiskEntryView>,
    i: int,
    hash: Seq<char>,
    size: i64,
)
    requires
        0 <= i < disk.len(),
        disk[i].meta is Some,
        forall|j: int|
            0 <= j < disk.len() && j != i ==> (#[trigger] disk[j]).path != disk[i].path,
    ensures
        file_verified(disk, disk[i].path, hash, size) <==> {
            let meta = disk[i].meta->0;
            &&& meta.size as i64 == size
            &&& meta.head is Some
            &&& hash == quick_hash_of(meta.size as nat, meta.head->0)
        },
        forall|path: Seq<char>|
            (forall|j: int| 0 <= j < disk.len() ==> (#[trigger] disk[j]).path != path)
                ==> !#[trigger] file_verified(disk, path, hash, size),
{
    let path = disk[i].path;
    first_found(disk, present_at(path));
    assert(present_at(path)(disk[i]));
    let e = first(disk, present_at(path))->0;
    let k = choose|k: int| 0 <= k < disk.len() && disk[k] == e;
    assert(k == i);
    assert forall|path: Seq<char>|
        (forall|j: int| 0 <= j < disk.len() ==> (#[trigger] disk[j]).path
            != path) implies !#[trigger] file_verified(disk, path, hash, size) by {
        first_found(disk, present_at(path));
        if first(disk, present_at(path)) is Some {
            let x = first(disk, present_at(path))->0;
            let k = choose|k: int| 0 <= k < disk.len() && disk[k] == x;
            assert(disk[k].path == path);
        }
    }
}

/// Whether a recording has a content: a size and a fingerprint.
pub open spec fn has_content(r: RecordingView, size: i64, hash: Seq<char>) -> bool {
    r.file_size == size && r.quick_hash == hash
}

/// The content of a file: its fingerprint is empty where it could not be read.
pub open spec fn content_hash(meta: FileMetaView) -> Seq<char> {
    match meta.head {
        Some(head) => quick_hash_of(meta.size as nat, head),
        None => Seq::empty(),
    }
}

/// Whether one of some recordings has a content.
pub open spec fn among(s: Seq<RecordingView>, size: i64, hash: Seq<char>) -> bool {
    exists|i: int| 0 <= i < s.len() && has_content(#[trigger] s[i], size, hash)
}

/// A file that is not registered under its key and has the content of a lost recording of
/// the library re-links one such recording and no other; that one is not looked for any
/// more.
pub proof fn lost_contents_are_relinked(
    s: ScanView,
    kind: Seq<char>,
    rel: Seq<char>,
    meta: FileMetaView,
)
    requires
        among(s.missing, meta.size as i64, content_hash(meta)),
    ensures
        ({
            let n = file_met(s, kind, rel, meta);
            &&& n.relocated == s.relocated + 1
            &&& n.registered == s.registered
            &&& n.skipped == s.skipped
            &&& n.store.sessions == s.store.sessions
            &&& n.store.rallies == s.store.rallies
            &&& n.store.annotations == s.store.annotations
            &&& n.cross == s.cross
            &&& n.store.recordings.len() == s.store.recordings.len()
            &&& exists|i: int|
                {
                    &&& 0 <= i < s.missing.len()
                    &&& has_content(#[trigger] s.missing[i], meta.size as i64, content_hash(meta))
                    &&& forall|k: int|
                        0 <= k < s.store.recordings.len() ==> #[trigger] n.store.recordings[k]
                            == if s.store.recordings[k].id == s.missing[i].id {
                            RecordingView { path: rel, outside: false, ..s.store.recordings[k] }
                        } else {
                            s.store.recordings[k]
                        }
                    &&& forall|j: int|
                        0 <= j < n.missing.len() ==> (#[trigger] n.missing[j]).id
                            != s.missing[i].id && s.missing.contains(n.missing[j])
                    &&& forall|j: int|
                        0 <= j < s.missing.len() && (#[trigger] s.missing[j]).id
                            != s.missing[i].id ==> n.missing.contains(s.missing[j])
                }
        }),
{
    let p = with_content(meta.size as i64, content_hash(meta));
    assert(hash_or_none(meta) == content_hash(meta));
    let m = choose|m: int|
        0 <= m < s.missing.len() && has_content(
            #[trigger] s.missing[m],
            meta.size as i64,
            content_hash(meta),
        );
    assert(p(s.missing[m]));
    first_found(s.missing, p);
    let r = first(s.missing, p)->0;
    let i = choose|i: int| 0 <= i < s.missing.len() && s.missing[i] == r;
    let n = file_met(s, kind, rel, meta);
    filter_elements(s.missing, other_than(r.id));
    assert(has_content(s.missing[i], meta.size as i64, content_hash(meta)));
    assert forall|j: int| 0 <= j < n.missing.len() implies (#[trigger] n.missing[j]).id
        != s.missing[i].id && s.missing.contains(n.missing[j]) by {
        assert(other_than(r.id)(n.missing[j]));
    }
    assert forall|j: int|
        0 <= j < s.missing.len() && (#[trigger] s.missing[j]).id
            != s.missing[i].id implies n.missing.contains(s.missing[j]) by {
        assert(other_than(r.id)(s.missing[j]));
    }
}

/// A file that is not registered under its key and has the content of no lost recording,
/// in its library or another, is a new recording of the library: under its key, with its
/// content, in the session of the day of its modification, and nothing known of it yet.
pub proof fn new_contents_are_registered(
    s: ScanView,
    kind: Seq<char>,
    rel: Seq<char>,
    meta: FileMetaView,
)
    requires
        !among(s.missing, meta.size as i64, content_hash(meta)),
        !among(s.cross, meta.size as i64, content_hash(meta)),
    ensures
        ({
            let n = file_met(s, kind, rel, meta);
            let r = n.store.recordings.last();
            &&& n.registered == s.registered + 1
            &&& n.relocated == s.relocated
            &&& n.skipped == s.skipped
            &&& n.missing == s.missing
            &&& n.store.recordings.len() == s.store.recordings.len() + 1
            &&& n.store.recordings.drop_last() == s.store.recordings
            &&& r.path == rel
            &&& r.library == kind
            &&& has_content(r, meta.size as i64, content_hash(meta))
            &&& r.capture_day == day_of_moment(meta.modified as int)
            &&& exists|k: int|
                0 <= k < n.store.sessions.len() && (#[trigger] n.store.sessions[k]).id
                    == r.session_id && n.store.sessions[k].library == kind
                    && n.store.sessions[k].capture_day == r.capture_day
            &&& r.probe_state == "unknown"@
            &&& r.segment_state == "unknown"@
            &&& r.date_state == "unknown"@
            &&& r.duration_ms is None
            &&& r.waveform is None
            &&& r.segmenter_version is None
            &&& !r.outside
        }),
{
    let p = with_content(meta.size as i64, content_hash(meta));
    assert(hash_or_none(meta) == content_hash(meta));
    first_found(s.missing, p);
    first_found(s.cross, p);
    assert(!any(s.missing, p)) by {
        if any(s.missing, p) {
            let i = choose|i: int| 0 <= i < s.missing.len() && p(#[trigger] s.missing[i]);
            assert(has_content(s.missing[i], meta.size as i64, content_hash(meta)));
        }
    }
    assert(!any(s.cross, p)) by {
        if any(s.cross, p) {
            let i = choose|i: int| 0 <= i < s.cross.len() && p(#[trigger] s.cross[i]);
            assert(has_content(s.cross[i], meta.size as i64, content_hash(meta)));
        }
    }
    let n = file_met(s, kind, rel, meta);
    let day = day_of_moment(meta.modified as int);
    assert(n.store.recordings.drop_last() =~= s.store.recordings);
    session_is_there(s.store.sessions, kind, day);
    let q = crate::store::session_on(kind, day);
    first_found(n.store.sessions, q);
    let x = first(n.store.sessions, q)->0;
    let k = choose|k: int| 0 <= k < n.store.sessions.len() && n.store.sessions[k] == x;
    assert(n.store.sessions[k].capture_day == day);
}

/// A recording of another library counts as moved here exactly where it is kept there
/// under a relative key at which nothing is found.
pub proof fn only_lost_recordings_move_between_libraries(
    d: StoreView,
    libraries: Seq<LibraryView>,
    active: Seq<char>,
    disk: Seq<DiskEntryView>,
    r: RecordingView,
)
    ensures
        lost_elsewhere(d, libraries, active, disk).contains(r) <==> d.recordings.contains(r)
            && exists|i: int|
            0 <= i < libraries.len() && (#[trigger] libraries[i]).kind == r.library
                && libraries[i].kind != active && !crate::path::rooted(r.path) && !exists_at(
                disk,
                crate::path::joined(libraries[i].path, r.path),
            ),
    decreases libraries.len(),
{
    if libraries.len() > 0 {
        let less = libraries.drop_last();
        let l = libraries.last();
        assert(l == libraries[libraries.len() - 1]);
        only_lost_recordings_move_between_libraries(d, less, active, disk, r);
        let rest = lost_elsewhere(d, less, active, disk);
        let p = lost(l.kind, l.path, disk);
        let more = d.recordings.filter(p);
        filter_elements(d.recordings, p);
        let all = lost_elsewhere(d, libraries, active, disk);
        if all.contains(r) {
            let i = choose|i: int| 0 <= i < all.len() && all[i] == r;
            if i < rest.len() {
                assert(rest[i] == r);
                let j = choose|j: int|
                    0 <= j < less.len() && (#[trigger] less[j]).kind == r.library && less[j].kind
                        != active && !crate::path::rooted(r.path) && !exists_at(
                        disk,
                        crate::path::joined(less[j].path, r.path),
                    );
                assert(libraries[j] == less[j]);
            } else {
                assert(more[i - rest.len()] == r);
                assert(p(more[i - rest.len()]));
            }
        }
        if d.recordings.contains(r) && exists|i: int|
            0 <= i < libraries.len() && (#[trigger] libraries[i]).kind == r.library
                && libraries[i].kind != active && !crate::path::rooted(r.path) && !exists_at(
                disk,
                crate::path::joined(libraries[i].path, r.path),
            ) {
            let i = choose|i: int|
                0 <= i < libraries.len() && (#[trigger] libraries[i]).kind == r.library
                    && libraries[i].kind != active && !crate::path::rooted(r.path) && !exists_at(
                    disk,
                    crate::path::joined(libraries[i].path, r.path),
                );
            if i < less.len() {
                assert(less[i] == libraries[i]);
                let q = choose|q: int| 0 <= q < rest.len() && rest[q] == r;
                assert(all[q] == r);
            } else {
                let k = choose|k: int| 0 <= k < d.recordings.len() && d.recordings[k] == r;
                assert(p(d.recordings[k]));
                let q = choose|q: int| 0 <= q < more.len() && more[q] == r;
                assert(all[rest.len() + q] == r);
            }
        }
    }
}

} // verus!
