//! The directory cache: for each directory that has been visited, the
//! children the provider listed last, in the provider's order, and when
//! they were listed.

use vstd::prelude::*;
use std::collections::HashMap;

verus! {

/// One child of a directory: the name it is listed under and its inode.
/// What kind of thing the child is, the inode table says.
#[derive(Debug)]
pub struct DirEntry {
    pub name: String,
    pub inode: u64,
}

/// A child of a directory, as plain values.
pub struct EntryView {
    pub name: Seq<char>,
    pub inode: u64,
}

impl View for DirEntry {
    type V = EntryView;

    open spec fn view(&self) -> EntryView {
        EntryView { name: self.name@, inode: self.inode }
    }
}

/// The children held by a vector of entries, as plain values.
pub open spec fn entries_view(entries: Seq<DirEntry>) -> Seq<EntryView> {
    Seq::new(entries.len(), |i: int| entries[i]@)
}

/// A snapshot of one directory, as plain values.
pub struct ListingView {
    pub entries: Seq<EntryView>,
    pub populated_at: u64,
}

/// A snapshot of one directory: its children and the time they were listed.
pub struct Listing {
    entries: Vec<DirEntry>,
    populated_at: u64,
}

impl View for Listing {
    type V = ListingView;

    closed spec fn view(&self) -> ListingView {
        ListingView { entries: entries_view(self.entries@), populated_at: self.populated_at }
    }
}

/// The cache as plain values: the time a snapshot stays valid and the
/// snapshots by directory inode.
pub struct CacheView {
    pub ttl: u64,
    pub listings: Map<u64, ListingView>,
}

/// Whether a snapshot taken at `populated_at` is still valid at `now`: its
/// age is below the time to live. A clock that went backwards leaves it
/// valid.
pub open spec fn fresh(populated_at: u64, ttl: u64, now: u64) -> bool {
    now - populated_at < ttl
}

/// What the cache serves for a directory at `now`: its children if it has a
/// valid snapshot of them, `None` on a miss.
pub open spec fn cached(c: CacheView, dir: u64, now: u64) -> Option<Seq<EntryView>> {
    if c.listings.contains_key(dir) && fresh(c.listings[dir].populated_at, c.ttl, now) {
        Some(c.listings[dir].entries)
    } else {
        None
    }
}

/// The children last stored for a directory, valid or not.
pub open spec fn retained(c: CacheView, dir: u64) -> Option<Seq<EntryView>> {
    if c.listings.contains_key(dir) {
        Some(c.listings[dir].entries)
    } else {
        None
    }
}

/// The cache after `entries` were stored for `dir` at `now`. Every other
/// directory keeps what it had.
pub open spec fn stored(c: CacheView, dir: u64, entries: Seq<EntryView>, now: u64) -> CacheView {
    CacheView {
        ttl: c.ttl,
        listings: c.listings.insert(dir, ListingView { entries: entries, populated_at: now }),
    }
}

/// The cache after the snapshot of `dir` was dropped, if it had one. Every
/// other directory keeps what it had.
pub open spec fn forgotten(c: CacheView, dir: u64) -> CacheView {
    CacheView { ttl: c.ttl, listings: c.listings.remove(dir) }
}

/// The snapshots of the directories the bridge has visited.
pub struct DirectoryCache {
    ttl: u64,
    listings: HashMap<u64, Listing>,
}

impl View for DirectoryCache {
    type V = CacheView;

    closed spec fn view(&self) -> CacheView {
        CacheView {
            ttl: self.ttl,
            listings: Map::new(
                |dir: u64| self.listings@.contains_key(dir),
                |dir: u64| self.listings@[dir]@,
            ),
        }
    }
}

impl DirectoryCache {
    /// An empty cache whose snapshots stay valid for `ttl` units of the
    /// caller's clock.
    pub fn new(ttl: u64) -> (cache: Self)
        ensures
            cache@.ttl == ttl,
            cache@.listings == Map::<u64, ListingView>::empty(),
    {
        let cache = DirectoryCache { ttl: ttl, listings: HashMap::new() };
        assert(cache@.listings =~= Map::<u64, ListingView>::empty());
        cache
    }

    /// The time a snapshot stays valid.
    pub fn ttl(&self) -> (ttl: u64)
        ensures
            ttl == self@.ttl,
    {
        self.ttl
    }

    /// Whether a directory has a snapshot, valid or not.
    pub fn is_populated(&self, dir: u64) -> (yes: bool)
        ensures
            yes == self@.listings.contains_key(dir),
    {
        self.listings.contains_key(&dir)
    }

    /// The children of a directory if the cache holds a valid snapshot of
    /// them: a hit needs no remote call. `None` is a miss.
    pub fn children(&self, dir: u64, now: u64) -> (hit: Option<&Vec<DirEntry>>)
        ensures
            match hit {
                Some(entries) => cached(self@, dir, now) == Some(entries_view(entries@)),
                None => cached(self@, dir, now).is_none(),
            },
    {
        match self.listings.get(&dir) {
            Some(listing) => {
                if now < listing.populated_at || now - listing.populated_at < self.ttl {
                    Some(&listing.entries)
                } else {
                    None
                }
            },
            None => None,
        }
    }

    /// The children last stored for a directory, whatever their age.
    pub fn retained(&self, dir: u64) -> (found: Option<&Vec<DirEntry>>)
        ensures
            match found {
                Some(entries) => retained(self@, dir) == Some(entries_view(entries@)),
                None => retained(self@, dir).is_none(),
            },
    {
        match self.listings.get(&dir) {
            Some(listing) => Some(&listing.entries),
            None => None,
        }
    }

    /// Drops the snapshot of a directory, if there is one: what it listed
    /// is no longer served.
    pub fn forget(&mut self, dir: u64)
        ensures
            final(self)@ == forgotten(old(self)@, dir),
    {
        let ghost before = self@;
        self.listings.remove(&dir);
        assert(self@.listings =~= before.listings.remove(dir));
    }

    /// Stores the children of a directory as listed at `now`, in place of
    /// any earlier snapshot of it.
    pub fn store(&mut self, dir: u64, entries: Vec<DirEntry>, now: u64)
        ensures
            final(self)@ == stored(old(self)@, dir, entries_view(entries@), now),
    {
        let ghost before = self@;
        let ghost listed = entries_view(entries@);
        self.listings.insert(dir, Listing { entries: entries, populated_at: now });
        assert(self@.listings =~= before.listings.insert(
            dir,
            ListingView { entries: listed, populated_at: now },
        ));
    }
}

} // verus!
