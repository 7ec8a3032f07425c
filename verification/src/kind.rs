//! Kinds of filesystem objects and their fixed permission bits.

use vstd::prelude::*;

verus! {

/// The inode reserved for the mount root.
pub const ROOT_INODE: u64 = 1;

/// Permission bits of every directory.
pub const DIR_PERM: u16 = 0o755;

/// Permission bits of every regular file.
pub const FILE_PERM: u16 = 0o644;

/// What an inode stands for.
#[derive(Clone, Copy, Debug, PartialEq, Eq, Structural)]
pub enum Kind {
    Directory,
    File,
}

impl Kind {
    /// The permission bits that go with a kind; no write bit is ever set for
    /// group or others, and files carry no execute bit.
    pub open spec fn spec_perm(self) -> u16 {
        match self {
            Kind::Directory => DIR_PERM,
            Kind::File => FILE_PERM,
        }
    }

    #[verifier::when_used_as_spec(spec_perm)]
    pub fn perm(self) -> (p: u16)
        ensures
            p == self.spec_perm(),
    {
        match self {
            Kind::Directory => DIR_PERM,
            Kind::File => FILE_PERM,
        }
    }
}

} // verus!
