//! The inode table: the registry that gives every remote path one inode
//! number for the lifetime of a mount.
//!
//! Inode 1 is the mount root. Every other inode is the position of its
//! record in an append-only arena, shifted by two, so a number once given
//! out is never given to another path.
//!
//! An inode stands for a path, not for what the provider keeps there. A
//! path keeps its inode while the provider replaces a file by a directory
//! of the same name, or the reverse: the record then takes the new kind. A
//! path that is renamed or moved at the provider is a removal and an
//! addition: the new path gets a new inode, and the old inode keeps its
//! record but is no longer listed. The empty path is the root of its
//! collection and is always a directory.

use vstd::prelude::*;
use crate::kind::{Kind, ROOT_INODE};
use crate::text::owned;

verus! {

/// What the table knows of one inode, as plain values.
pub struct InodeRecord {
    pub collection: Seq<char>,
    pub path: Seq<char>,
    pub kind: Kind,
    pub size: u64,
    pub mtime: u64,
}

/// Whether the record at position `i` of `t` is the one of `path` in
/// `collection`.
pub open spec fn is_at(t: Seq<InodeRecord>, i: int, collection: Seq<char>, path: Seq<char>) -> bool {
    0 <= i < t.len() && t[i].collection == collection && t[i].path == path
}

/// Whether `path` in `collection` has been given an inode.
pub open spec fn holds(t: Seq<InodeRecord>, collection: Seq<char>, path: Seq<char>) -> bool {
    exists|i: int| is_at(t, i, collection, path)
}

/// The position of the record of `path` in `collection`, where there is one.
pub open spec fn position(t: Seq<InodeRecord>, collection: Seq<char>, path: Seq<char>) -> int {
    choose|i: int| is_at(t, i, collection, path)
}

/// No two records are about the same path of the same collection.
pub open spec fn unique(t: Seq<InodeRecord>) -> bool {
    forall|i: int, j: int|
        0 <= i < j < t.len() ==> !((#[trigger] t[i]).collection == (#[trigger] t[j]).collection
            && t[i].path == t[j].path)
}

/// The inode of `path` in `collection`, if it has one.
pub open spec fn inode_of(t: Seq<InodeRecord>, collection: Seq<char>, path: Seq<char>) -> Option<u64> {
    if holds(t, collection, path) {
        Some((position(t, collection, path) + 2) as u64)
    } else {
        None
    }
}

/// The record of an inode, if the inode is known and is not the root.
pub open spec fn record_of(t: Seq<InodeRecord>, ino: u64) -> Option<InodeRecord> {
    if 2 <= ino && ino - 2 < t.len() {
        Some(t[ino - 2])
    } else {
        None
    }
}

/// Whether an inode is the root or has a record.
pub open spec fn knows(t: Seq<InodeRecord>, ino: u64) -> bool {
    ino == ROOT_INODE || record_of(t, ino).is_some()
}

/// The kind of an inode: the root is a directory, any other known inode is
/// what its record says.
pub open spec fn kind_in(t: Seq<InodeRecord>, ino: u64) -> Option<Kind> {
    if ino == ROOT_INODE {
        Some(Kind::Directory)
    } else {
        match record_of(t, ino) {
            Some(r) => Some(r.kind),
            None => None,
        }
    }
}

/// The kind recorded for `path` when the provider reports `kind` for it.
/// The empty path is the root of its collection: it is a directory
/// whatever is reported.
pub open spec fn kind_for(path: Seq<char>, kind: Kind) -> Kind {
    if path.len() == 0 {
        Kind::Directory
    } else {
        kind
    }
}

/// The table and the inode that resolving `path` in `collection` gives. A
/// path seen before keeps its inode, and the table is left as it is. A new
/// path gets the next unused number, the kind reported for it, size 0 and
/// the time of resolution.
pub open spec fn resolved(
    t: Seq<InodeRecord>,
    collection: Seq<char>,
    path: Seq<char>,
    kind: Kind,
    now: u64,
) -> (Seq<InodeRecord>, u64) {
    if holds(t, collection, path) {
        (t, (position(t, collection, path) + 2) as u64)
    } else {
        (
            t.push(
                InodeRecord {
                    collection: collection,
                    path: path,
                    kind: kind_for(path, kind),
                    size: 0,
                    mtime: now,
                },
            ),
            (t.len() + 2) as u64,
        )
    }
}

/// The table after the provider reported `kind` for an inode at `now`. A
/// record of that kind is left as it is. A record of the other kind stands
/// for something the provider has replaced: it takes the new kind, its
/// size is unknown again, and its time is that of the report. The root and
/// unknown inodes are left alone.
pub open spec fn with_kind(t: Seq<InodeRecord>, ino: u64, kind: Kind, now: u64) -> Seq<InodeRecord> {
    if record_of(t, ino) is Some && t[ino - 2].kind != kind_for(t[ino - 2].path, kind) {
        t.update(
            ino - 2,
            InodeRecord { kind: kind_for(t[ino - 2].path, kind), size: 0, mtime: now, ..t[ino - 2] },
        )
    } else {
        t
    }
}

/// The table after the size of a file became known. Only the record of a
/// file takes a size: directories, the root and unknown inodes are left
/// alone.
pub open spec fn with_size(t: Seq<InodeRecord>, ino: u64, size: u64) -> Seq<InodeRecord> {
    if record_of(t, ino) is Some && t[ino - 2].kind == Kind::File {
        t.update(ino - 2, InodeRecord { size: size, ..t[ino - 2] })
    } else {
        t
    }
}

/// Whether every root of a collection, the record of an empty path, is a
/// directory.
pub open spec fn roots_are_directories(t: Seq<InodeRecord>) -> bool {
    forall|i: int| 0 <= i < t.len() && (#[trigger] t[i]).path.len() == 0 ==> t[i].kind == Kind::Directory
}

/// Whether `later` holds every record of `earlier` under the same inode
/// and for the same path: inodes are only ever added, and none is given to
/// another path.
pub open spec fn extends(earlier: Seq<InodeRecord>, later: Seq<InodeRecord>) -> bool {
    &&& earlier.len() <= later.len()
    &&& forall|i: int|
        0 <= i < earlier.len() ==> (#[trigger] later[i]).collection == earlier[i].collection
            && later[i].path == earlier[i].path
}

/// Tables that extend one another do so in a chain.
pub proof fn lemma_extends_chain(a: Seq<InodeRecord>, b: Seq<InodeRecord>, c: Seq<InodeRecord>)
    requires
        extends(a, b),
        extends(b, c),
    ensures
        extends(a, c),
{
    assert forall|i: int| 0 <= i < a.len() implies (#[trigger] c[i]).collection == a[i].collection
        && c[i].path == a[i].path by {
        assert(b[i].collection == a[i].collection);
    }
}

/// In a table that extends another, whatever was known is still known and
/// stands for the same path.
pub proof fn lemma_extends_keeps(a: Seq<InodeRecord>, b: Seq<InodeRecord>, ino: u64)
    requires
        extends(a, b),
        knows(a, ino),
    ensures
        knows(b, ino),
        record_of(a, ino) is Some ==> record_of(b, ino) is Some && record_of(b, ino)->Some_0.collection
            == record_of(a, ino)->Some_0.collection && record_of(b, ino)->Some_0.path == record_of(
            a,
            ino,
        )->Some_0.path,
{
    if ino != ROOT_INODE {
        assert(b[ino - 2].collection == a[ino - 2].collection);
    }
}

/// Resolving a path, reporting a kind and recording a size all extend the
/// table and keep the roots of collections directories. The last two add
/// no record.
pub proof fn lemma_steps_extend(
    t: Seq<InodeRecord>,
    collection: Seq<char>,
    path: Seq<char>,
    kind: Kind,
    now: u64,
    ino: u64,
    size: u64,
)
    ensures
        extends(t, resolved(t, collection, path, kind, now).0),
        extends(t, with_kind(t, ino, kind, now)),
        extends(t, with_size(t, ino, size)),
        with_kind(t, ino, kind, now).len() == t.len(),
        with_size(t, ino, size).len() == t.len(),
        roots_are_directories(t) ==> roots_are_directories(resolved(t, collection, path, kind, now).0)
            && roots_are_directories(with_kind(t, ino, kind, now)) && roots_are_directories(
            with_size(t, ino, size),
        ),
{
    let t1 = resolved(t, collection, path, kind, now).0;
    let t2 = with_kind(t, ino, kind, now);
    let t3 = with_size(t, ino, size);
    assert forall|i: int| 0 <= i < t.len() implies (#[trigger] t1[i]).collection == t[i].collection
        && t1[i].path == t[i].path by {}
    assert forall|i: int| 0 <= i < t.len() implies (#[trigger] t2[i]).collection == t[i].collection
        && t2[i].path == t[i].path by {}
    assert forall|i: int| 0 <= i < t.len() implies (#[trigger] t3[i]).collection == t[i].collection
        && t3[i].path == t[i].path by {}
    if roots_are_directories(t) {
        assert forall|i: int| 0 <= i < t1.len() && (#[trigger] t1[i]).path.len() == 0 implies t1[i].kind
            == Kind::Directory by {
            if i < t.len() {
                assert(t1[i] == t[i]);
            }
        }
        assert forall|i: int| 0 <= i < t2.len() && (#[trigger] t2[i]).path.len() == 0 implies t2[i].kind
            == Kind::Directory by {
            assert(t2[i].path == t[i].path);
        }
        assert forall|i: int| 0 <= i < t3.len() && (#[trigger] t3[i]).path.len() == 0 implies t3[i].kind
            == Kind::Directory by {
            assert(t3[i].path == t[i].path && t3[i].kind == t[i].kind);
        }
    }
}

/// What a report does to the kinds in the table. Reporting a kind for an
/// inode gives that inode the kind reported, a directory if it is the root
/// of a collection, and leaves the kind of every other inode as it was.
/// Resolving a path and recording a size change the kind of no inode.
pub proof fn lemma_steps_kinds(
    t: Seq<InodeRecord>,
    collection: Seq<char>,
    path: Seq<char>,
    kind: Kind,
    now: u64,
    ino: u64,
    size: u64,
    other: u64,
)
    ensures
        record_of(t, ino) is Some ==> kind_in(with_kind(t, ino, kind, now), ino) == Some(
            kind_for(record_of(t, ino)->Some_0.path, kind),
        ),
        other != ino ==> kind_in(with_kind(t, ino, kind, now), other) == kind_in(t, other),
        kind_in(with_size(t, ino, size), other) == kind_in(t, other),
        knows(t, other) ==> kind_in(resolved(t, collection, path, kind, now).0, other) == kind_in(t, other),
{
}

/// Where the records are unique, a record found at `i` is at the position
/// that `position` names.
pub proof fn lemma_position_is(t: Seq<InodeRecord>, i: int, collection: Seq<char>, path: Seq<char>)
    requires
        unique(t),
        is_at(t, i, collection, path),
    ensures
        holds(t, collection, path),
        position(t, collection, path) == i,
{
    let j = position(t, collection, path);
    assert(is_at(t, j, collection, path));
    if j < i {
        assert(!(t[j].collection == t[i].collection && t[j].path == t[i].path));
    } else if i < j {
        assert(!(t[i].collection == t[j].collection && t[i].path == t[j].path));
    }
}

/// Resolving keeps the records unique.
pub proof fn lemma_resolved_unique(
    t: Seq<InodeRecord>,
    collection: Seq<char>,
    path: Seq<char>,
    kind: Kind,
    now: u64,
)
    requires
        unique(t),
    ensures
        unique(resolved(t, collection, path, kind, now).0),
        resolved(t, collection, path, kind, now).0.len() >= t.len(),
        resolved(t, collection, path, kind, now).0.len() <= t.len() + 1,
{
    let t2 = resolved(t, collection, path, kind, now).0;
    if !holds(t, collection, path) {
        assert forall|i: int, j: int| 0 <= i < j < t2.len() implies !((#[trigger] t2[i]).collection
            == (#[trigger] t2[j]).collection && t2[i].path == t2[j].path) by {
            if j == t.len() {
                assert(t2[i] == t[i]);
                if t2[i].collection == collection && t2[i].path == path {
                    assert(is_at(t, i, collection, path));
                }
            } else {
                assert(t2[i] == t[i]);
                assert(t2[j] == t[j]);
            }
        }
    }
}

/// Resolving changes nothing that was recorded: every inode that had a
/// record has the same record afterwards.
pub proof fn lemma_resolve_keeps_records(
    t: Seq<InodeRecord>,
    collection: Seq<char>,
    path: Seq<char>,
    kind: Kind,
    now: u64,
    ino: u64,
)
    requires
        record_of(t, ino) is Some,
    ensures
        record_of(resolved(t, collection, path, kind, now).0, ino) == record_of(t, ino),
{
}

/// Identity stability: resolving the same path twice gives the same inode
/// both times, whatever kind or time the two calls come with.
pub proof fn lemma_resolve_twice(
    t: Seq<InodeRecord>,
    collection: Seq<char>,
    path: Seq<char>,
    kind1: Kind,
    now1: u64,
    kind2: Kind,
    now2: u64,
)
    requires
        unique(t),
    ensures
        resolved(resolved(t, collection, path, kind1, now1).0, collection, path, kind2, now2).1
            == resolved(t, collection, path, kind1, now1).1,
        inode_of(resolved(t, collection, path, kind1, now1).0, collection, path) == Some(
            resolved(t, collection, path, kind1, now1).1,
        ),
{
    let (t1, ino1) = resolved(t, collection, path, kind1, now1);
    lemma_resolved_unique(t, collection, path, kind1, now1);
    if holds(t, collection, path) {
        let p = position(t, collection, path);
        assert(is_at(t, p, collection, path));
        assert(is_at(t1, p, collection, path));
        lemma_position_is(t1, p, collection, path);
    } else {
        let p = t.len() as int;
        assert(is_at(t1, p, collection, path));
        lemma_position_is(t1, p, collection, path);
    }
}

/// Identity stability across other resolutions: a path that has an inode
/// keeps it while any other path, or the same one, is resolved.
pub proof fn lemma_resolve_keeps_inodes(
    t: Seq<InodeRecord>,
    collection: Seq<char>,
    path: Seq<char>,
    kind: Kind,
    now: u64,
    other_collection: Seq<char>,
    other_path: Seq<char>,
)
    requires
        unique(t),
        holds(t, other_collection, other_path),
    ensures
        inode_of(resolved(t, collection, path, kind, now).0, other_collection, other_path)
            == inode_of(t, other_collection, other_path),
{
    let t1 = resolved(t, collection, path, kind, now).0;
    lemma_resolved_unique(t, collection, path, kind, now);
    let q = position(t, other_collection, other_path);
    assert(is_at(t, q, other_collection, other_path));
    if holds(t, collection, path) {
        let p = position(t, collection, path);
        assert(is_at(t, p, collection, path));
        assert(t1[q].collection == t[q].collection && t1[q].path == t[q].path);
    } else {
        assert(t1[q] == t[q]);
    }
    assert(is_at(t1, q, other_collection, other_path));
    lemma_position_is(t1, q, other_collection, other_path);
}

/// Reporting a kind and recording a size change no identity: the records
/// stay unique and every path keeps the inode it had, or keeps having
/// none.
pub proof fn lemma_updates_keep_inodes(
    t: Seq<InodeRecord>,
    ino: u64,
    kind: Kind,
    size: u64,
    now: u64,
    collection: Seq<char>,
    path: Seq<char>,
)
    requires
        unique(t),
    ensures
        unique(with_kind(t, ino, kind, now)),
        unique(with_size(t, ino, size)),
        inode_of(with_kind(t, ino, kind, now), collection, path) == inode_of(t, collection, path),
        inode_of(with_size(t, ino, size), collection, path) == inode_of(t, collection, path),
{
    lemma_same_paths_keep_inodes(t, with_kind(t, ino, kind, now), collection, path);
    lemma_same_paths_keep_inodes(t, with_size(t, ino, size), collection, path);
}

/// Two tables that hold the same paths under the same inodes give every
/// path the same inode.
pub proof fn lemma_same_paths_keep_inodes(
    t: Seq<InodeRecord>,
    t2: Seq<InodeRecord>,
    collection: Seq<char>,
    path: Seq<char>,
)
    requires
        unique(t),
        t2.len() == t.len(),
        forall|i: int|
            0 <= i < t.len() ==> (#[trigger] t2[i]).collection == t[i].collection && t2[i].path == t[i].path,
    ensures
        unique(t2),
        inode_of(t2, collection, path) == inode_of(t, collection, path),
{
    assert forall|a: int, b: int| 0 <= a < b < t2.len() implies !((#[trigger] t2[a]).collection == (
    #[trigger] t2[b]).collection && t2[a].path == t2[b].path) by {
        assert(t2[a].collection == t[a].collection && t2[a].path == t[a].path);
        assert(t2[b].collection == t[b].collection && t2[b].path == t[b].path);
    }
    if holds(t, collection, path) {
        let i = position(t, collection, path);
        assert(is_at(t, i, collection, path));
        assert(t2[i].collection == t[i].collection);
        assert(is_at(t2, i, collection, path));
        lemma_position_is(t2, i, collection, path);
    } else if holds(t2, collection, path) {
        let i = position(t2, collection, path);
        assert(is_at(t2, i, collection, path));
        assert(is_at(t, i, collection, path));
    }
}

/// No aliasing: in a table whose inode numbers fit 64 bits, two different
/// paths never share an inode.
pub proof fn lemma_inodes_differ(
    t: Seq<InodeRecord>,
    collection: Seq<char>,
    path: Seq<char>,
    other_collection: Seq<char>,
    other_path: Seq<char>,
)
    requires
        t.len() + 2 <= u64::MAX,
        holds(t, collection, path),
        holds(t, other_collection, other_path),
        collection != other_collection || path != other_path,
    ensures
        inode_of(t, collection, path) != inode_of(t, other_collection, other_path),
{
    let p = position(t, collection, path);
    let q = position(t, other_collection, other_path);
    assert(is_at(t, p, collection, path));
    assert(is_at(t, q, other_collection, other_path));
}

/// One record of the arena.
pub struct InodeEntry {
    collection: String,
    path: String,
    kind: Kind,
    size: u64,
    mtime: u64,
}

impl View for InodeEntry {
    type V = InodeRecord;

    closed spec fn view(&self) -> InodeRecord {
        InodeRecord {
            collection: self.collection@,
            path: self.path@,
            kind: self.kind,
            size: self.size,
            mtime: self.mtime,
        }
    }
}

/// The registry of inodes. Position `i` of the arena holds inode `i + 2`.
pub struct InodeTable {
    entries: Vec<InodeEntry>,
}

impl View for InodeTable {
    type V = Seq<InodeRecord>;

    closed spec fn view(&self) -> Seq<InodeRecord> {
        Seq::new(self.entries@.len(), |i: int| self.entries@[i]@)
    }
}

impl InodeTable {
    /// The invariant of the table: records are unique and every inode
    /// number fits the kernel's 64 bits.
    pub open spec fn wf(&self) -> bool {
        unique(self@) && self@.len() + 2 <= u64::MAX
    }

    /// Whether one more path can be given an inode.
    pub open spec fn has_room(&self) -> bool {
        self@.len() + 3 <= u64::MAX
    }

    /// An empty table: only the root is known.
    pub fn new() -> (table: Self)
        ensures
            table.wf(),
            table@ == Seq::<InodeRecord>::empty(),
    {
        let table = InodeTable { entries: Vec::new() };
        assert(table@ =~= Seq::<InodeRecord>::empty());
        table
    }

    /// The number of inodes given out, the root not counted.
    pub fn len(&self) -> (n: usize)
        ensures
            n == self@.len(),
    {
        self.entries.len()
    }

    /// Whether `extra` more paths can be given inodes.
    pub fn can_hold(&self, extra: usize) -> (ok: bool)
        ensures
            ok == (self@.len() + extra + 2 <= u64::MAX),
    {
        let used: u64 = self.entries.len() as u64;
        let want: u64 = extra as u64;
        used <= u64::MAX - 2 && want <= u64::MAX - 2 - used
    }

    fn find(&self, collection: &String, path: &String) -> (found: Option<usize>)
        requires
            self.wf(),
        ensures
            match found {
                Some(i) => is_at(self@, i as int, collection@, path@) && position(
                    self@,
                    collection@,
                    path@,
                ) == i,
                None => !holds(self@, collection@, path@),
            },
    {
        let mut i: usize = 0;
        while i < self.entries.len()
            invariant
                i <= self.entries@.len(),
                self.wf(),
                forall|j: int| 0 <= j < i ==> !is_at(self@, j, collection@, path@),
            decreases self.entries@.len() - i,
        {
            if self.entries[i].collection == *collection && self.entries[i].path == *path {
                proof {
                    assert(self@[i as int] == self.entries@[i as int]@);
                    lemma_position_is(self@, i as int, collection@, path@);
                }
                return Some(i);
            }
            proof {
                assert(self@[i as int] == self.entries@[i as int]@);
            }
            i = i + 1;
        }
        None
    }

    /// The inode of a path, without giving it one.
    pub fn inode_of(&self, collection: &str, path: &str) -> (ino: Option<u64>)
        requires
            self.wf(),
        ensures
            ino == inode_of(self@, collection@, path@),
    {
        let c = owned(collection);
        let p = owned(path);
        match self.find(&c, &p) {
            Some(i) => Some(i as u64 + 2),
            None => None,
        }
    }

    /// Gives the inode of `path` in `collection`: the one it already has,
    /// or else the next unused number, recorded with `kind`. For a path
    /// seen before nothing is recorded anew.
    pub fn resolve_or_create(&mut self, collection: &str, path: &str, kind: Kind, now: u64) -> (ino: u64)
        requires
            old(self).wf(),
            old(self).has_room(),
        ensures
            final(self).wf(),
            (final(self)@, ino) == resolved(old(self)@, collection@, path@, kind, now),
            inode_of(final(self)@, collection@, path@) == Some(ino),
            ino >= 2,
            old(self)@.len() <= final(self)@.len() <= old(self)@.len() + 1,
    {
        let c = owned(collection);
        let p = owned(path);
        proof {
            lemma_resolved_unique(self@, collection@, path@, kind, now);
            lemma_resolve_twice(self@, collection@, path@, kind, now, kind, now);
        }
        match self.find(&c, &p) {
            Some(i) => i as u64 + 2,
            None => {
                let ghost before = self@;
                let ino: u64 = self.entries.len() as u64 + 2;
                let recorded = if path.is_empty() {
                    Kind::Directory
                } else {
                    kind
                };
                self.entries.push(
                    InodeEntry { collection: c, path: p, kind: recorded, size: 0, mtime: now },
                );
                assert(self@ =~= before.push(
                    InodeRecord {
                        collection: collection@,
                        path: path@,
                        kind: kind_for(path@, kind),
                        size: 0,
                        mtime: now,
                    },
                ));
                ino
            },
        }
    }

    /// Records the kind the provider reports for an inode at `now`. A
    /// record of the other kind takes the new kind, with its size unknown
    /// again and `now` as its time. The root of a collection stays a
    /// directory; the mount root and unknown inodes are left alone.
    pub fn set_kind(&mut self, ino: u64, kind: Kind, now: u64)
        requires
            old(self).wf(),
        ensures
            final(self).wf(),
            final(self)@ == with_kind(old(self)@, ino, kind, now),
            final(self)@.len() == old(self)@.len(),
    {
        if ino >= 2 && ino - 2 < self.entries.len() as u64 {
            let i: usize = (ino - 2) as usize;
            let ghost before = self@;
            proof {
                assert(before[i as int] == self.entries@[i as int]@);
                lemma_updates_keep_inodes(before, ino, kind, 0, now, Seq::<char>::empty(), Seq::<char>::empty());
            }
            let recorded = if self.entries[i].path.as_str().is_empty() {
                Kind::Directory
            } else {
                kind
            };
            if self.entries[i].kind != recorded {
                let entry = InodeEntry {
                    collection: self.entries[i].collection.clone(),
                    path: self.entries[i].path.clone(),
                    kind: recorded,
                    size: 0,
                    mtime: now,
                };
                self.entries.set(i, entry);
                assert(self@ =~= with_kind(before, ino, kind, now));
            }
        }
    }

    /// Records the size of a file once it is known. A size is kept for
    /// files only: a directory, the root and unknown inodes are left alone.
    pub fn set_size(&mut self, ino: u64, size: u64)
        requires
            old(self).wf(),
        ensures
            final(self).wf(),
            final(self)@ == with_size(old(self)@, ino, size),
            final(self)@.len() == old(self)@.len(),
    {
        if ino >= 2 && ino - 2 < self.entries.len() as u64 {
            let i: usize = (ino - 2) as usize;
            let ghost before = self@;
            proof {
                assert(before[i as int] == self.entries@[i as int]@);
                lemma_updates_keep_inodes(before, ino, Kind::File, size, 0, Seq::<char>::empty(), Seq::<char>::empty());
            }
            if self.entries[i].kind == Kind::File {
                let entry = InodeEntry {
                    collection: self.entries[i].collection.clone(),
                    path: self.entries[i].path.clone(),
                    kind: Kind::File,
                    size: size,
                    mtime: self.entries[i].mtime,
                };
                self.entries.set(i, entry);
                assert(self@ =~= with_size(before, ino, size));
            }
        }
    }

    /// The collection and path behind an inode. The root stands for no
    /// remote path.
    pub fn path_of(&self, ino: u64) -> (location: Option<(String, String)>)
        ensures
            match location {
                Some((collection, path)) => record_of(self@, ino).is_some() && collection@ == record_of(
                    self@,
                    ino,
                ).unwrap().collection && path@ == record_of(self@, ino).unwrap().path,
                None => record_of(self@, ino).is_none(),
            },
    {
        if ino >= 2 && ino - 2 < self.entries.len() as u64 {
            let i: usize = (ino - 2) as usize;
            proof {
                assert(self@[i as int] == self.entries@[i as int]@);
            }
            Some((self.entries[i].collection.clone(), self.entries[i].path.clone()))
        } else {
            None
        }
    }

    /// The kind of an inode, if it is known.
    pub fn kind_of(&self, ino: u64) -> (kind: Option<Kind>)
        ensures
            kind == kind_in(self@, ino),
    {
        if ino == ROOT_INODE {
            Some(Kind::Directory)
        } else if ino >= 2 && ino - 2 < self.entries.len() as u64 {
            let i: usize = (ino - 2) as usize;
            proof {
                assert(self@[i as int] == self.entries@[i as int]@);
            }
            Some(self.entries[i].kind)
        } else {
            None
        }
    }

    /// The size and the time recorded for an inode other than the root.
    pub fn size_and_time(&self, ino: u64) -> (found: Option<(u64, u64)>)
        ensures
            match found {
                Some((size, mtime)) => record_of(self@, ino).is_some() && size == record_of(
                    self@,
                    ino,
                ).unwrap().size && mtime == record_of(self@, ino).unwrap().mtime,
                None => record_of(self@, ino).is_none(),
            },
    {
        if ino >= 2 && ino - 2 < self.entries.len() as u64 {
            let i: usize = (ino - 2) as usize;
            proof {
                assert(self@[i as int] == self.entries@[i as int]@);
            }
            Some((self.entries[i].size, self.entries[i].mtime))
        } else {
            None
        }
    }
}

} // verus!
