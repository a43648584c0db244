//! What is known of the files on disk: paths, sizes, modification times and
//! leading bytes, as read by the caller.
use vstd::prelude::*;

use crate::fingerprint::{quick_hash, quick_hash_of};
use crate::table::{any, first, position};
use crate::text::same;

verus! {

/// One entry met on disk.
pub struct DiskEntry {
    /// Absolute path.
    pub path: String,
    /// Whether it is a regular file.
    pub is_file: bool,
    /// What its metadata holds, where it could be read.
    pub meta: Option<FileMeta>,
}

/// The metadata of a file and its leading bytes.
pub struct FileMeta {
    pub size: u64,
    /// Modification time in seconds since 1970-01-01, 0 when it is not known.
    pub modified: i64,
    /// The leading bytes, where they could be read.
    pub head: Option<Vec<u8>>,
}

/// What the metadata of a file holds.
#[verifier::ext_equal]
pub struct FileMetaView {
    pub size: u64,
    pub modified: i64,
    pub head: Option<Seq<u8>>,
}

/// What an entry holds.
#[verifier::ext_equal]
pub struct DiskEntryView {
    pub path: Seq<char>,
    pub is_file: bool,
    pub meta: Option<FileMetaView>,
}

impl DeepView for FileMeta {
    type V = FileMetaView;

    open spec fn deep_view(&self) -> FileMetaView {
        FileMetaView {
            size: self.size,
            modified: self.modified,
            head: match self.head {
                Some(h) => Some(h@),
                None => None,
            },
        }
    }
}

impl DeepView for DiskEntry {
    type V = DiskEntryView;

    open spec fn deep_view(&self) -> DiskEntryView {
        DiskEntryView { path: self.path@, is_file: self.is_file, meta: self.meta.deep_view() }
    }
}

/// The entry at a path, if its metadata can be read.
pub open spec fn present_at(path: Seq<char>) -> spec_fn(DiskEntryView) -> bool {
    |e: DiskEntryView| e.path == path && e.meta is Some
}

/// Whether there is something at a path.
pub open spec fn exists_at(disk: Seq<DiskEntryView>, path: Seq<char>) -> bool {
    any(disk, present_at(path))
}

/// The position of the entry at a path.
fn find_entry(disk: &Vec<DiskEntry>, path: &str) -> (r: Option<usize>)
    ensures
        match r {
            Some(i) => i < disk@.len() && first(disk.deep_view(), present_at(path@)) == Some(
                disk@[i as int].deep_view(),
            ) && disk@[i as int].meta is Some && exists_at(disk.deep_view(), path@),
            None => first(disk.deep_view(), present_at(path@)) is None && !exists_at(
                disk.deep_view(),
                path@,
            ),
        },
{
    position(
        disk,
        |e: &DiskEntry| -> (b: bool)
            ensures
                b == (e.path@ == path@ && e.meta is Some)
            { e.meta.is_some() && same(&e.path, path) },
        Ghost(present_at(path@)),
    )
}

/// Whether there is something at a path.
pub fn is_present(disk: &Vec<DiskEntry>, path: &str) -> (r: bool)
    ensures
        r == exists_at(disk.deep_view(), path@),
{
    find_entry(disk, path).is_some()
}

/// The fingerprint of a file whose leading bytes could be read.
pub open spec fn hash_of(meta: FileMetaView) -> Option<Seq<char>> {
    match meta.head {
        Some(head) => Some(quick_hash_of(meta.size as nat, head)),
        None => None,
    }
}

/// The fingerprint of a file whose leading bytes could be read.
pub fn hash_file(meta: &FileMeta) -> (r: Option<String>)
    ensures
        r.deep_view() == hash_of(meta.deep_view()),
{
    match &meta.head {
        Some(head) => Some(quick_hash(meta.size, head)),
        None => None,
    }
}

/// A size as it is stored.
pub open spec fn stored_size(size: u64) -> i64 {
    size as i64
}

/// Whether the file at a path is the recording that a bundle describes: it is
/// there, its size matches, and its fingerprint matches.
pub open spec fn file_verified(
    disk: Seq<DiskEntryView>,
    path: Seq<char>,
    expect_hash: Seq<char>,
    file_size: i64,
) -> bool {
    match first(disk, present_at(path)) {
        Some(e) => stored_size(e.meta->0.size) == file_size && hash_of(e.meta->0) == Some(
            expect_hash,
        ),
        None => false,
    }
}

/// Verify that the file at `path` is the recording the bundle describes.
pub fn verify_bundle_file(
    disk: &Vec<DiskEntry>,
    path: &str,
    expect_hash: &str,
    file_size: i64,
) -> (r: bool)
    ensures
        r == file_verified(disk.deep_view(), path@, expect_hash@, file_size),
{
    let at = match find_entry(disk, path) {
        Some(i) => i,
        None => {
            return false;
        },
    };
    match &disk[at].meta {
        Some(meta) => {
            if meta.size as i64 != file_size {
                return false;
            }
            match hash_file(meta) {
                Some(h) => same(&h, expect_hash),
                None => false,
            }
        },
        None => false,
    }
}

} // verus!
