//! Synthetic stat-like attributes: real sizes for files, a fixed record for
//! directories, and one shared creation time and permission value for both.

use vstd::prelude::*;

use crate::listing::{has_key, key_index, FileKind};
use crate::paths::normalize_spec;

verus! {

/// The single permission value every synthesized node reports.
pub const ATTR_PERM: u16 = 0o755;

/// The single link count every synthesized node reports.
pub const ATTR_NLINK: u32 = 2;

/// The single owning user every synthesized node reports.
pub const ATTR_UID: u32 = 501;

/// The single owning group every synthesized node reports.
pub const ATTR_GID: u32 = 20;

/// The single creation time, in whole seconds, every synthesized node
/// reports for all of its timestamps.
pub const ATTR_TIME_SEC: i64 = 1381237736;

/// A stat-like record synthesized for one virtual path.
#[derive(Clone, Copy, Debug, PartialEq, Eq, Structural)]
pub struct FileAttrData {
    pub size: u64,
    pub kind: FileKind,
    pub perm: u16,
    pub nlink: u32,
    pub uid: u32,
    pub gid: u32,
    pub time_sec: i64,
}

/// The fixed attribute record of a synthesized directory.
pub open spec fn dir_attr_spec() -> FileAttrData {
    FileAttrData {
        size: 0,
        kind: FileKind::Directory,
        perm: ATTR_PERM,
        nlink: ATTR_NLINK,
        uid: ATTR_UID,
        gid: ATTR_GID,
        time_sec: ATTR_TIME_SEC,
    }
}

/// The attribute record of a file of `size` decoded bytes.
pub open spec fn file_attr_spec(size: u64) -> FileAttrData {
    FileAttrData {
        size: size,
        kind: FileKind::File,
        perm: ATTR_PERM,
        nlink: ATTR_NLINK,
        uid: ATTR_UID,
        gid: ATTR_GID,
        time_sec: ATTR_TIME_SEC,
    }
}

/// The attributes of virtual path `path` over the archive's keys and decoded
/// sizes: a file record with the matching entry's size when the normalized
/// key matches some entry exactly, the fixed directory record otherwise.
pub open spec fn attr_of(keys: Seq<Seq<u8>>, sizes: Seq<u64>, path: Seq<u8>) -> FileAttrData {
    let k = normalize_spec(path);
    if has_key(keys, k) {
        file_attr_spec(sizes[key_index(keys, k)])
    } else {
        dir_attr_spec()
    }
}

/// Builds the fixed directory attribute record.
pub fn dir_attr() -> (r: FileAttrData)
    ensures
        r == dir_attr_spec(),
{
    FileAttrData {
        size: 0,
        kind: FileKind::Directory,
        perm: ATTR_PERM,
        nlink: ATTR_NLINK,
        uid: ATTR_UID,
        gid: ATTR_GID,
        time_sec: ATTR_TIME_SEC,
    }
}

/// Builds the attribute record of a file of `size` decoded bytes.
pub fn file_attr(size: u64) -> (r: FileAttrData)
    ensures
        r == file_attr_spec(size),
{
    FileAttrData {
        size: size,
        kind: FileKind::File,
        perm: ATTR_PERM,
        nlink: ATTR_NLINK,
        uid: ATTR_UID,
        gid: ATTR_GID,
        time_sec: ATTR_TIME_SEC,
    }
}

} // verus!
