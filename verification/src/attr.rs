//! The attributes the bridge reports for an inode.

use vstd::prelude::*;
use crate::inode_table::{record_of, InodeRecord};
use crate::kind::{Kind, ROOT_INODE};

verus! {

/// The attributes of one inode as the kernel is told them.
#[derive(Clone, Copy, Debug, PartialEq, Eq, Structural)]
pub struct Attributes {
    pub ino: u64,
    pub size: u64,
    pub blocks: u64,
    pub mtime: u64,
    pub kind: Kind,
    pub perm: u16,
    pub nlink: u32,
    pub uid: u32,
    pub gid: u32,
    pub rdev: u32,
    pub blksize: u32,
}

/// The attributes of an inode of the given kind, size and time. The
/// permission bits follow from the kind alone; the rest is fixed.
pub open spec fn attributes(ino: u64, kind: Kind, size: u64, mtime: u64) -> Attributes {
    Attributes {
        ino: ino,
        size: size,
        blocks: 1,
        mtime: mtime,
        kind: kind,
        perm: kind.spec_perm(),
        nlink: 2,
        uid: 0,
        gid: 0,
        rdev: 0,
        blksize: 512,
    }
}

/// The attributes of an inode according to the table: the root is an empty
/// directory as old as the epoch, any other known inode is what its record
/// says, and an unknown inode has none.
pub open spec fn attr_in(t: Seq<InodeRecord>, ino: u64) -> Option<Attributes> {
    if ino == ROOT_INODE {
        Some(attributes(ROOT_INODE, Kind::Directory, 0, 0))
    } else {
        match record_of(t, ino) {
            Some(r) => Some(attributes(ino, r.kind, r.size, r.mtime)),
            None => None,
        }
    }
}

/// Builds the attributes of an inode.
pub fn make_attributes(ino: u64, kind: Kind, size: u64, mtime: u64) -> (attr: Attributes)
    ensures
        attr == attributes(ino, kind, size, mtime),
{
    Attributes {
        ino: ino,
        size: size,
        blocks: 1,
        mtime: mtime,
        kind: kind,
        perm: kind.perm(),
        nlink: 2,
        uid: 0,
        gid: 0,
        rdev: 0,
        blksize: 512,
    }
}

} // verus!
