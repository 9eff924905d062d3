//! Attribute records: what the protocol reports of one inode.

use crate::clock::Timestamp;
use vstd::prelude::*;

verus! {

/// Whether an inode shows as a directory or as a regular file.
#[derive(Clone, Copy, Debug, PartialEq, Eq, Structural)]
pub enum FileType {
    Directory,
    RegularFile,
}

/// The attributes of one inode.
#[derive(Clone, Copy, Debug, PartialEq, Eq)]
pub struct FileAttr {
    pub ino: u64,
    pub size: u64,
    pub blocks: u64,
    pub atime: Timestamp,
    pub mtime: Timestamp,
    pub ctime: Timestamp,
    pub crtime: Timestamp,
    pub kind: FileType,
    pub perm: u16,
    pub nlink: u32,
    pub uid: u32,
    pub gid: u32,
    pub rdev: u32,
    pub flags: u32,
}

/// Attributes of both inodes of an archive node.
#[derive(Clone, Copy, Debug, PartialEq, Eq)]
pub struct NodeFileAttrs {
    pub main: FileAttr,
    pub opt_data: Option<FileAttr>,
}

impl FileAttr {
    /// The record of an inode of the given size and kind: one block, the four
    /// timestamps all `time`, fixed permission bits and owner, one link.
    pub open spec fn spec_new(ino: u64, size: u64, kind: FileType, time: Timestamp) -> FileAttr {
        FileAttr {
            ino,
            size,
            blocks: 1,
            atime: time,
            mtime: time,
            ctime: time,
            crtime: time,
            kind,
            perm: 0o644,
            nlink: 1,
            uid: 501,
            gid: 20,
            rdev: 0,
            flags: 0,
        }
    }

    #[verifier::when_used_as_spec(spec_new)]
    pub fn new(ino: u64, size: u64, kind: FileType, time: Timestamp) -> (r: FileAttr)
        ensures
            r == FileAttr::spec_new(ino, size, kind, time),
    {
        FileAttr {
            ino,
            size,
            blocks: 1,
            atime: time,
            mtime: time,
            ctime: time,
            crtime: time,
            kind,
            perm: 0o644,
            nlink: 1,
            uid: 501,
            gid: 20,
            rdev: 0,
            flags: 0,
        }
    }
}

} // verus!
