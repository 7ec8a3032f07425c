//! The filesystem bridge: the state behind a mount and the four
//! operations the kernel asks of it.
//!
//! The bridge never talks to the provider itself. An operation that needs
//! a remote answer says which one; the caller makes the call without
//! holding the bridge, and hands the reply back to be committed.
//!
//! The bridge reads no clock either. Wherever a time is needed the caller
//! passes `now`, in whole seconds since the epoch; times to live are in
//! seconds too.
//!
//! What kind of thing an inode is, only the inode table says: a listing
//! holds names and inodes, and lookup, enumeration and attribute queries
//! all read the kind from the table, so they agree in every state. Each
//! commit of a listing records the kinds the provider reports now. A path
//! that the provider has replaced by something of the other kind keeps its
//! inode and takes the new kind; if it was a directory, its own listing is
//! dropped with the change. Where one answer names a path twice under two
//! kinds, the later entry decides. Two records never change kind: the root
//! of a collection, and the directory whose listing is being committed.

use vstd::prelude::*;
use crate::attr::{attr_in, make_attributes, Attributes};
use crate::content::{decode_content, decoded, describes_decoding, slice_content, window, GitHubFileContent};
use crate::dir_cache::{
    cached, entries_view, retained, stored, CacheView, DirEntry, DirectoryCache, EntryView, ListingView,
};
use crate::error::{Failure, FailureView, FsError};
use crate::inode_table::{
    extends, holds, inode_of, is_at, kind_in, knows, lemma_extends_chain, lemma_extends_keeps,
    lemma_resolve_keeps_inodes, lemma_resolve_twice, lemma_resolved_unique, lemma_steps_extend,
    lemma_steps_kinds, lemma_updates_keep_inodes, position, record_of, resolved, roots_are_directories,
    unique, with_kind, with_size, InodeRecord, InodeTable,
};
use crate::kind::{Kind, ROOT_INODE};
use crate::provider::{
    classify, contents_request, contents_url, is_request, outcome_of, repositories_request, repositories_url,
    HttpRequest, ProviderReply,
};
use crate::text::{owned, text_eq};

verus! {

/// How long a cached listing stays valid unless configured otherwise.
pub const DEFAULT_LISTING_TTL: u64 = 60;

/// How long the kernel may keep an entry or attributes it was given unless
/// configured otherwise.
pub const DEFAULT_ENTRY_TTL: u64 = 1;

/// A collection as the provider lists it: the name it is shown under and
/// the identifier it is asked for by.
#[derive(Clone, Debug)]
pub struct GitHubRepository {
    pub name: String,
    pub full_name: String,
}

/// A child of a remote directory as the provider lists it.
#[derive(Clone, Debug)]
pub struct GitHubFile {
    pub name: String,
    pub path: String,
    pub file_type: String,
    pub download_url: Option<String>,
    pub size: Option<u64>,
}

/// A remote entry as plain values: where it lives, the name it is listed
/// under, its kind and the size the provider hinted at.
pub struct Remote {
    pub collection: Seq<char>,
    pub path: Seq<char>,
    pub name: Seq<char>,
    pub kind: Kind,
    pub size: Option<u64>,
}

/// The kind behind the provider's type word: `dir` is a directory, anything
/// else is served as a regular file.
pub open spec fn kind_of_type(file_type: Seq<char>) -> Kind {
    if file_type == "dir"@ {
        Kind::Directory
    } else {
        Kind::File
    }
}

/// A listed child of a directory of `collection`, as a remote entry.
pub open spec fn file_remote(collection: Seq<char>, file: GitHubFile) -> Remote {
    Remote {
        collection: collection,
        path: file.path@,
        name: file.name@,
        kind: kind_of_type(file.file_type@),
        size: file.size,
    }
}

/// The listed children of a directory of `collection`, as remote entries.
pub open spec fn file_remotes(collection: Seq<char>, files: Seq<GitHubFile>) -> Seq<Remote> {
    Seq::new(files.len(), |i: int| file_remote(collection, files[i]))
}

/// A collection as a remote entry: a directory at the empty path of itself.
pub open spec fn repository_remote(repository: GitHubRepository) -> Remote {
    Remote {
        collection: repository.full_name@,
        path: Seq::<char>::empty(),
        name: repository.name@,
        kind: Kind::Directory,
        size: None,
    }
}

/// The collections of a listing, as remote entries.
pub open spec fn repository_remotes(repositories: Seq<GitHubRepository>) -> Seq<Remote> {
    Seq::new(repositories.len(), |i: int| repository_remote(repositories[i]))
}

/// The table and the listing after one more remote entry was taken in.
/// The entry is resolved to its inode, the kind the provider reports for it
/// now is recorded under that inode, a hinted size is recorded if it is a
/// file, and the child is appended to the listing. `keep` is the directory
/// being listed: should the answer name that very directory among its own
/// children, its record is left as it is.
pub open spec fn admitted(
    t: Seq<InodeRecord>,
    listing: Seq<EntryView>,
    remote: Remote,
    keep: u64,
    now: u64,
) -> (Seq<InodeRecord>, Seq<EntryView>) {
    let (t1, ino) = resolved(t, remote.collection, remote.path, remote.kind, now);
    let t2 = if ino == keep {
        t1
    } else {
        with_kind(t1, ino, remote.kind, now)
    };
    let t3 = match remote.size {
        Some(size) => with_size(t2, ino, size),
        None => t2,
    };
    (t3, listing.push(EntryView { name: remote.name, inode: ino }))
}

/// The table and the listing after the remote entries of one answer were
/// taken in, one after the other in the provider's order. Only these
/// entries are resolved: nothing below them is looked at. Where the answer
/// names one path twice under two kinds, the later entry decides the kind
/// of that path.
pub open spec fn absorbed(t: Seq<InodeRecord>, remotes: Seq<Remote>, keep: u64, now: u64) -> (
    Seq<InodeRecord>,
    Seq<EntryView>,
)
    decreases remotes.len(),
{
    if remotes.len() == 0 {
        (t, Seq::<EntryView>::empty())
    } else {
        let (t0, listing) = absorbed(t, remotes.drop_last(), keep, now);
        admitted(t0, listing, remotes.last(), keep, now)
    }
}

/// Whether the kind that entry `k` of an answer reports is the kind its
/// path ends up with: the path is not the root of a collection, and no
/// later entry of the answer names the same path under another kind.
pub open spec fn settles(remotes: Seq<Remote>, k: int) -> bool {
    &&& remotes[k].path.len() > 0
    &&& forall|j: int|
        k < j < remotes.len() && (#[trigger] remotes[j]).collection == remotes[k].collection
            && remotes[j].path == remotes[k].path ==> remotes[j].kind == remotes[k].kind
}

/// The state of the bridge as plain values.
pub struct FsView {
    pub username: Seq<char>,
    pub token: Seq<char>,
    pub table: Seq<InodeRecord>,
    pub cache: CacheView,
    pub entry_ttl: u64,
}

/// The invariant of the bridge. The table is well formed and the root of
/// every collection in it is a directory. Every child in every listing has
/// an inode that the table holds a record for. Whatever has a listing is a
/// directory, and its listing can be numbered by 64-bit cursors. Every
/// child of the mount root is the root of a collection, hence a directory.
pub open spec fn valid(s: FsView) -> bool {
    &&& unique(s.table)
    &&& s.table.len() + 2 <= u64::MAX
    &&& roots_are_directories(s.table)
    &&& forall|dir: u64, i: int|
        s.cache.listings.contains_key(dir) && 0 <= i < s.cache.listings[dir].entries.len() ==> record_of(
            s.table,
            (#[trigger] s.cache.listings[dir].entries[i]).inode,
        ) is Some
    &&& forall|dir: u64| #[trigger]
        s.cache.listings.contains_key(dir) ==> s.cache.listings[dir].entries.len() + 3 <= u64::MAX
            && is_directory(s, dir)
    &&& forall|i: int|
        s.cache.listings.contains_key(ROOT_INODE) && 0 <= i < s.cache.listings[ROOT_INODE].entries.len()
            ==> record_of(
            s.table,
            (#[trigger] s.cache.listings[ROOT_INODE].entries[i]).inode,
        )->Some_0.path.len() == 0
}

/// Whether an inode is a directory the bridge knows.
pub open spec fn is_directory(s: FsView, ino: u64) -> bool {
    kind_in(s.table, ino) == Some(Kind::Directory)
}

/// Whether serving the children of `dir` at `now` takes a remote call: it
/// is a known directory and the cache holds no valid listing of it.
pub open spec fn needs_fetch(s: FsView, dir: u64, now: u64) -> bool {
    is_directory(s, dir) && cached(s.cache, dir, now).is_none()
}

/// The cache without the listings of what is not a directory according to
/// the table `t`: an inode that stops being a directory loses its listing.
pub open spec fn pruned(c: CacheView, t: Seq<InodeRecord>) -> CacheView {
    CacheView {
        ttl: c.ttl,
        listings: Map::new(
            |d: u64| c.listings.contains_key(d) && kind_in(t, d) == Some(Kind::Directory),
            |d: u64| c.listings[d],
        ),
    }
}

/// Whether the listing of `d` is dropped on account of one of the first
/// `n` children of a listing: `d` is the inode of one of them, and is not
/// a directory according to `t`.
pub open spec fn dropped(t: Seq<InodeRecord>, listing: Seq<EntryView>, n: int, d: u64) -> bool
    decreases n,
{
    if n <= 0 {
        false
    } else {
        dropped(t, listing, n - 1, d) || (listing[n - 1].inode == d && kind_in(t, d) != Some(Kind::Directory))
    }
}

/// The state after the remote entries were committed as the children of
/// `dir` at `now`: the entries are taken into the table, the listings of
/// inodes that are no longer directories are dropped, and the children are
/// stored as the listing of `dir`.
pub open spec fn loaded(s: FsView, dir: u64, remotes: Seq<Remote>, now: u64) -> FsView {
    FsView {
        table: absorbed(s.table, remotes, dir, now).0,
        cache: stored(
            pruned(s.cache, absorbed(s.table, remotes, dir, now).0),
            dir,
            absorbed(s.table, remotes, dir, now).1,
            now,
        ),
        ..s
    }
}

/// A remote answer the bridge needs before it can go on.
#[derive(Debug)]
pub enum Fetch {
    /// The list of collections.
    Repositories,
    /// The children of the directory at `path` in `collection`.
    Files { collection: String, path: String },
    /// The content of the file at `path` in `collection`.
    Content { collection: String, path: String },
}

/// A needed remote answer, as plain values.
pub enum FetchView {
    Repositories,
    Files { collection: Seq<char>, path: Seq<char> },
    Content { collection: Seq<char>, path: Seq<char> },
}

impl View for Fetch {
    type V = FetchView;

    open spec fn view(&self) -> FetchView {
        match self {
            Fetch::Repositories => FetchView::Repositories,
            Fetch::Files { collection, path } => FetchView::Files { collection: collection@, path: path@ },
            Fetch::Content { collection, path } => FetchView::Content { collection: collection@, path: path@ },
        }
    }
}

/// The remote call that lists the children of a known directory: the
/// collections for the root, the directory's own path otherwise.
pub open spec fn listing_fetch(s: FsView, dir: u64) -> FetchView {
    if dir == ROOT_INODE {
        FetchView::Repositories
    } else {
        FetchView::Files {
            collection: record_of(s.table, dir).unwrap().collection,
            path: record_of(s.table, dir).unwrap().path,
        }
    }
}

/// The address a needed remote answer is asked at.
pub open spec fn fetch_url(fetch: FetchView) -> Seq<char> {
    match fetch {
        FetchView::Repositories => repositories_url(),
        FetchView::Files { collection, path } => contents_url(collection, path),
        FetchView::Content { collection, path } => contents_url(collection, path),
    }
}

/// How far an operation got.
#[derive(Debug)]
pub enum Step<T> {
    /// The operation is answered.
    Ready(T),
    /// The operation failed.
    Failed(FsError),
    /// The operation needs this remote answer first.
    Fetch(Fetch),
}

/// An entry or attributes handed to the kernel, with the time the kernel
/// may keep them.
#[derive(Clone, Copy, Debug, PartialEq, Eq, Structural)]
pub struct EntryReply {
    pub attr: Attributes,
    pub ttl: u64,
}

/// One item of a directory enumeration, with the cursor that resumes the
/// enumeration after it.
#[derive(Debug)]
pub struct DirItem {
    pub name: String,
    pub inode: u64,
    pub kind: Kind,
    pub offset: u64,
}

/// An item of a directory enumeration, as plain values.
pub struct ItemView {
    pub name: Seq<char>,
    pub inode: u64,
    pub kind: Kind,
    pub offset: u64,
}

impl View for DirItem {
    type V = ItemView;

    open spec fn view(&self) -> ItemView {
        ItemView { name: self.name@, inode: self.inode, kind: self.kind, offset: self.offset }
    }
}

/// The items held by a vector, as plain values.
pub open spec fn items_view(items: Seq<DirItem>) -> Seq<ItemView> {
    Seq::new(items.len(), |i: int| items[i]@)
}

/// The kind an enumeration or a lookup reports for a child: the kind the
/// table holds for the child's inode at the time of the answer.
pub open spec fn kind_of_child(t: Seq<InodeRecord>, inode: u64) -> Kind {
    match kind_in(t, inode) {
        Some(kind) => kind,
        None => Kind::File,
    }
}

/// The item at position `at` of the enumeration of directory `ino`: `.`,
/// then `..`, then the children in the order the provider listed them,
/// each under the kind the table holds for its inode. The cursor of an
/// item is the number of items up to and including it.
pub open spec fn item_at(t: Seq<InodeRecord>, ino: u64, entries: Seq<EntryView>, at: int) -> ItemView {
    if at == 0 {
        ItemView { name: "."@, inode: ino, kind: Kind::Directory, offset: 1 }
    } else if at == 1 {
        ItemView { name: ".."@, inode: ino, kind: Kind::Directory, offset: 2 }
    } else {
        ItemView {
            name: entries[at - 2].name,
            inode: entries[at - 2].inode,
            kind: kind_of_child(t, entries[at - 2].inode),
            offset: (at + 1) as u64,
        }
    }
}

/// The whole enumeration of directory `ino`.
pub open spec fn enumeration(t: Seq<InodeRecord>, ino: u64, entries: Seq<EntryView>) -> Seq<ItemView> {
    Seq::new(entries.len() + 2, |at: int| item_at(t, ino, entries, at))
}

/// The enumeration of directory `ino` resumed at cursor `offset`: what
/// follows the first `offset` items, and nothing once the cursor is at or
/// past the end.
pub open spec fn resumed(t: Seq<InodeRecord>, ino: u64, entries: Seq<EntryView>, offset: u64) -> Seq<
    ItemView,
> {
    let all = enumeration(t, ino, entries);
    if offset < all.len() {
        all.skip(offset as int)
    } else {
        Seq::<ItemView>::empty()
    }
}

/// Whether a child called `name` is listed.
pub open spec fn has_name(entries: Seq<EntryView>, name: Seq<char>) -> bool {
    exists|i: int| 0 <= i < entries.len() && (#[trigger] entries[i]).name == name
}

/// Whether position `i` holds the first child called `name`. Names are
/// compared exactly, case included.
pub open spec fn is_first_named(entries: Seq<EntryView>, i: int, name: Seq<char>) -> bool {
    &&& 0 <= i < entries.len()
    &&& entries[i].name == name
    &&& forall|j: int| 0 <= j < i ==> (#[trigger] entries[j]).name != name
}

/// The position of the first child called `name`, if there is one.
pub open spec fn first_named(entries: Seq<EntryView>, name: Seq<char>) -> Option<int> {
    if has_name(entries, name) {
        Some(choose|i: int| is_first_named(entries, i, name))
    } else {
        None
    }
}

/// The first child of a name is where `first_named` says.
pub proof fn lemma_first_named(entries: Seq<EntryView>, i: int, name: Seq<char>)
    requires
        is_first_named(entries, i, name),
    ensures
        first_named(entries, name) == Some(i),
{
    assert(entries[i].name == name);
    let j = choose|j: int| is_first_named(entries, j, name);
    assert(is_first_named(entries, j, name));
    if j < i {
        assert(entries[j].name != name);
    } else if i < j {
        assert(entries[i].name != name);
    }
}

/// What looking up `name` under `parent` gives from the listing the cache
/// holds, whatever its age: the attributes the table holds for the inode
/// of the first child of that name, or not-found where the parent is no
/// known directory, has no listing, or lists no such child.
pub open spec fn looked_up(s: FsView, parent: u64, name: Seq<char>) -> Result<EntryReply, FsError> {
    if !is_directory(s, parent) {
        Err(FsError::NotFound)
    } else {
        match retained(s.cache, parent) {
            None => Err(FsError::NotFound),
            Some(entries) => match first_named(entries, name) {
                None => Err(FsError::NotFound),
                Some(i) => match attr_in(s.table, entries[i].inode) {
                    Some(attr) => Ok(EntryReply { attr: attr, ttl: s.entry_ttl }),
                    None => Err(FsError::NotFound),
                },
            },
        }
    }
}

/// What enumerating directory `ino` from cursor `offset` gives from the
/// listing the cache holds, whatever its age.
pub open spec fn listed(s: FsView, ino: u64, offset: u64) -> Result<Seq<ItemView>, FsError> {
    if !is_directory(s, ino) {
        Err(FsError::NotFound)
    } else {
        match retained(s.cache, ino) {
            None => Err(FsError::NotFound),
            Some(entries) => Ok(resumed(s.table, ino, entries, offset)),
        }
    }
}

/// Finds the first child called `name`.
pub fn find_child(entries: &Vec<DirEntry>, name: &str) -> (found: Option<usize>)
    ensures
        match found {
            Some(i) => i < entries@.len() && first_named(entries_view(entries@), name@) == Some(i as int),
            None => first_named(entries_view(entries@), name@).is_none(),
        },
{
    let wanted = owned(name);
    let ghost listing = entries_view(entries@);
    let mut i: usize = 0;
    while i < entries.len()
        invariant
            i <= entries@.len(),
            listing == entries_view(entries@),
            wanted@ == name@,
            forall|j: int| 0 <= j < i ==> (#[trigger] listing[j]).name != name@,
        decreases entries@.len() - i,
    {
        if entries[i].name == wanted {
            proof {
                assert(listing[i as int] == entries@[i as int]@);
                assert(is_first_named(listing, i as int, name@));
                lemma_first_named(listing, i as int, name@);
            }
            return Some(i);
        }
        proof {
            assert(listing[i as int] == entries@[i as int]@);
        }
        i = i + 1;
    }
    None
}

/// Reads the provider's type word.
pub fn kind_from_type(file_type: &str) -> (kind: Kind)
    ensures
        kind == kind_of_type(file_type@),
{
    if text_eq(file_type, "dir") {
        Kind::Directory
    } else {
        Kind::File
    }
}

/// Takes one remote entry in: resolves it, records the kind reported for
/// it and a hinted size, and appends the child to the listing being built.
fn take_in(
    table: &mut InodeTable,
    listing: &mut Vec<DirEntry>,
    keep: u64,
    collection: &str,
    path: &str,
    name: &str,
    kind: Kind,
    size: Option<u64>,
    now: u64,
)
    requires
        old(table).wf(),
        old(table).has_room(),
    ensures
        final(table).wf(),
        old(table)@.len() <= final(table)@.len() <= old(table)@.len() + 1,
        (final(table)@, entries_view(final(listing)@)) == admitted(
            old(table)@,
            entries_view(old(listing)@),
            Remote { collection: collection@, path: path@, name: name@, kind: kind, size: size },
            keep,
            now,
        ),
{
    let ghost before = entries_view(listing@);
    let ino = table.resolve_or_create(collection, path, kind, now);
    if ino != keep {
        table.set_kind(ino, kind, now);
    }
    match size {
        Some(n) => {
            table.set_size(ino, n);
        },
        None => {},
    }
    listing.push(DirEntry { name: owned(name), inode: ino });
    assert(entries_view(listing@) =~= before.push(EntryView { name: name@, inode: ino }));
}

/// Taking one remote entry in keeps the table well formed and the roots of
/// collections directories, adds at most one record, gives the entry the
/// inode the table then holds for its path, and leaves every path that had
/// an inode with the same one.
pub proof fn lemma_admitted(
    t: Seq<InodeRecord>,
    listing: Seq<EntryView>,
    remote: Remote,
    keep: u64,
    now: u64,
    collection: Seq<char>,
    path: Seq<char>,
)
    requires
        unique(t),
    ensures
        unique(admitted(t, listing, remote, keep, now).0),
        extends(t, admitted(t, listing, remote, keep, now).0),
        roots_are_directories(t) ==> roots_are_directories(admitted(t, listing, remote, keep, now).0),
        t.len() <= admitted(t, listing, remote, keep, now).0.len() <= t.len() + 1,
        admitted(t, listing, remote, keep, now).1.last().name == remote.name,
        inode_of(admitted(t, listing, remote, keep, now).0, remote.collection, remote.path) == Some(
            admitted(t, listing, remote, keep, now).1.last().inode,
        ),
        holds(t, collection, path) ==> inode_of(admitted(t, listing, remote, keep, now).0, collection, path)
            == inode_of(t, collection, path),
{
    let (t1, ino) = resolved(t, remote.collection, remote.path, remote.kind, now);
    let t2 = if ino == keep {
        t1
    } else {
        with_kind(t1, ino, remote.kind, now)
    };
    let size = match remote.size {
        Some(size) => size,
        None => 0,
    };
    let t3 = admitted(t, listing, remote, keep, now).0;
    lemma_resolved_unique(t, remote.collection, remote.path, remote.kind, now);
    lemma_resolve_twice(t, remote.collection, remote.path, remote.kind, now, remote.kind, now);
    if holds(t, collection, path) {
        lemma_resolve_keeps_inodes(t, remote.collection, remote.path, remote.kind, now, collection, path);
    }
    lemma_updates_keep_inodes(t1, ino, remote.kind, size, now, remote.collection, remote.path);
    lemma_updates_keep_inodes(t1, ino, remote.kind, size, now, collection, path);
    lemma_updates_keep_inodes(t2, ino, remote.kind, size, now, remote.collection, remote.path);
    lemma_updates_keep_inodes(t2, ino, remote.kind, size, now, collection, path);
    lemma_steps_extend(t, remote.collection, remote.path, remote.kind, now, ino, size);
    lemma_steps_extend(t1, remote.collection, remote.path, remote.kind, now, ino, size);
    lemma_steps_extend(t2, remote.collection, remote.path, remote.kind, now, ino, size);
    lemma_extends_chain(t, t1, t1);
    lemma_extends_chain(t, t1, t2);
    lemma_extends_chain(t, t2, t3);
}

/// The child that taking one remote entry in lists has a record in the
/// table, under an inode other than the root, and that record is of the
/// entry's path.
pub proof fn lemma_admitted_known(
    t: Seq<InodeRecord>,
    listing: Seq<EntryView>,
    remote: Remote,
    keep: u64,
    now: u64,
)
    requires
        unique(t),
        t.len() + 3 <= u64::MAX,
    ensures
        admitted(t, listing, remote, keep, now).1.last().inode >= 2,
        record_of(
            admitted(t, listing, remote, keep, now).0,
            admitted(t, listing, remote, keep, now).1.last().inode,
        ) is Some,
        record_of(
            admitted(t, listing, remote, keep, now).0,
            admitted(t, listing, remote, keep, now).1.last().inode,
        )->Some_0.path == remote.path,
        record_of(
            admitted(t, listing, remote, keep, now).0,
            admitted(t, listing, remote, keep, now).1.last().inode,
        )->Some_0.collection == remote.collection,
{
    let (t1, ino) = resolved(t, remote.collection, remote.path, remote.kind, now);
    let t2 = if ino == keep {
        t1
    } else {
        with_kind(t1, ino, remote.kind, now)
    };
    let size = match remote.size {
        Some(size) => size,
        None => 0,
    };
    let t3 = admitted(t, listing, remote, keep, now).0;
    if holds(t, remote.collection, remote.path) {
        let p = position(t, remote.collection, remote.path);
        assert(is_at(t, p, remote.collection, remote.path));
        assert(record_of(t1, ino) == Some(t[p]));
    } else {
        assert(record_of(t1, ino) == Some(t1[t.len() as int]));
    }
    lemma_steps_extend(t1, remote.collection, remote.path, remote.kind, now, ino, size);
    lemma_steps_extend(t2, remote.collection, remote.path, remote.kind, now, ino, size);
    lemma_extends_chain(t1, t2, t3);
    lemma_extends_keeps(t1, t3, ino);
}

/// What taking one remote entry in does to kinds. The directory being
/// listed keeps its kind, and so does every inode other than the child's.
/// The child's inode gets the kind reported, unless it is the directory
/// being listed or the root of a collection.
pub proof fn lemma_admitted_kinds(
    t: Seq<InodeRecord>,
    listing: Seq<EntryView>,
    remote: Remote,
    keep: u64,
    now: u64,
    other: u64,
)
    requires
        unique(t),
        t.len() + 3 <= u64::MAX,
        knows(t, other),
    ensures
        other == keep || other != admitted(t, listing, remote, keep, now).1.last().inode ==> kind_in(
            admitted(t, listing, remote, keep, now).0,
            other,
        ) == kind_in(t, other),
        admitted(t, listing, remote, keep, now).1.last().inode != keep && remote.path.len() > 0 ==> kind_in(
            admitted(t, listing, remote, keep, now).0,
            admitted(t, listing, remote, keep, now).1.last().inode,
        ) == Some(remote.kind),
{
    let (t1, ino) = resolved(t, remote.collection, remote.path, remote.kind, now);
    let t2 = if ino == keep {
        t1
    } else {
        with_kind(t1, ino, remote.kind, now)
    };
    let size = match remote.size {
        Some(size) => size,
        None => 0,
    };
    lemma_admitted_known(t, listing, remote, keep, now);
    lemma_steps_kinds(t, remote.collection, remote.path, remote.kind, now, ino, size, other);
    lemma_steps_kinds(t1, remote.collection, remote.path, remote.kind, now, ino, size, other);
    lemma_steps_kinds(t2, remote.collection, remote.path, remote.kind, now, ino, size, other);
    lemma_steps_kinds(t1, remote.collection, remote.path, remote.kind, now, ino, size, ino);
    lemma_steps_kinds(t2, remote.collection, remote.path, remote.kind, now, ino, size, ino);
    if holds(t, remote.collection, remote.path) {
        let p = position(t, remote.collection, remote.path);
        assert(is_at(t, p, remote.collection, remote.path));
        assert(record_of(t1, ino) == Some(t[p]));
    } else {
        assert(record_of(t1, ino) == Some(t1[t.len() as int]));
    }
}

/// Identity stability across listings: a path that has an inode keeps it
/// however many remote entries are taken in, the same path among them or
/// not, and whatever kinds are reported.
pub proof fn lemma_absorbed_keeps_inodes(
    t: Seq<InodeRecord>,
    remotes: Seq<Remote>,
    keep: u64,
    now: u64,
    collection: Seq<char>,
    path: Seq<char>,
)
    requires
        unique(t),
        holds(t, collection, path),
    ensures
        unique(absorbed(t, remotes, keep, now).0),
        inode_of(absorbed(t, remotes, keep, now).0, collection, path) == inode_of(t, collection, path),
    decreases remotes.len(),
{
    if remotes.len() > 0 {
        lemma_absorbed_keeps_inodes(t, remotes.drop_last(), keep, now, collection, path);
        let (t0, listing0) = absorbed(t, remotes.drop_last(), keep, now);
        lemma_admitted(t0, listing0, remotes.last(), keep, now, collection, path);
    }
}

/// What taking the remote entries of one answer in does to the table and
/// what it lists. The table stays well formed, only grows, and by at most
/// one record per entry; the roots of collections stay directories; the
/// directory being listed keeps its kind. The listing has one child per
/// entry, under its name and in the same order, and every child has the
/// inode the table holds for its path.
pub proof fn lemma_absorbed(t: Seq<InodeRecord>, remotes: Seq<Remote>, keep: u64, now: u64)
    requires
        unique(t),
        t.len() + remotes.len() + 2 <= u64::MAX,
    ensures
        unique(absorbed(t, remotes, keep, now).0),
        extends(t, absorbed(t, remotes, keep, now).0),
        roots_are_directories(t) ==> roots_are_directories(absorbed(t, remotes, keep, now).0),
        t.len() <= absorbed(t, remotes, keep, now).0.len() <= t.len() + remotes.len(),
        absorbed(t, remotes, keep, now).1.len() == remotes.len(),
        knows(t, keep) ==> kind_in(absorbed(t, remotes, keep, now).0, keep) == kind_in(t, keep),
        forall|i: int|
            0 <= i < remotes.len() ==> {
                let child = #[trigger] absorbed(t, remotes, keep, now).1[i];
                let record = record_of(absorbed(t, remotes, keep, now).0, child.inode);
                &&& child.name == remotes[i].name
                &&& child.inode >= 2
                &&& record is Some
                &&& record->Some_0.collection == remotes[i].collection
                &&& record->Some_0.path == remotes[i].path
                &&& inode_of(absorbed(t, remotes, keep, now).0, remotes[i].collection, remotes[i].path)
                    == Some(child.inode)
            },
    decreases remotes.len(),
{
    if remotes.len() == 0 {
        assert forall|i: int| 0 <= i < t.len() implies (#[trigger] t[i]).collection == t[i].collection by {}
    } else {
        let front = remotes.drop_last();
        let last = remotes.last();
        lemma_absorbed(t, front, keep, now);
        let (t0, listing0) = absorbed(t, front, keep, now);
        let (t2, listing) = absorbed(t, remotes, keep, now);
        lemma_admitted(t0, listing0, last, keep, now, last.collection, last.path);
        lemma_admitted_known(t0, listing0, last, keep, now);
        lemma_extends_chain(t, t0, t2);
        if knows(t, keep) {
            lemma_extends_keeps(t, t0, keep);
            lemma_admitted_kinds(t0, listing0, last, keep, now, keep);
        }
        assert forall|i: int| 0 <= i < remotes.len() implies {
            let child = #[trigger] absorbed(t, remotes, keep, now).1[i];
            let record = record_of(absorbed(t, remotes, keep, now).0, child.inode);
            &&& child.name == remotes[i].name
            &&& child.inode >= 2
            &&& record is Some
            &&& record->Some_0.collection == remotes[i].collection
            &&& record->Some_0.path == remotes[i].path
            &&& inode_of(absorbed(t, remotes, keep, now).0, remotes[i].collection, remotes[i].path) == Some(
                child.inode,
            )
        } by {
            if i < front.len() {
                assert(listing[i] == listing0[i]);
                assert(front[i] == remotes[i]);
                assert(record_of(t0, listing0[i].inode) is Some);
                lemma_extends_keeps(t0, t2, listing0[i].inode);
                assert(holds(t0, remotes[i].collection, remotes[i].path));
                lemma_admitted(t0, listing0, last, keep, now, remotes[i].collection, remotes[i].path);
            } else {
                assert(listing[i] == listing.last());
            }
        }
    }
}

/// The kinds a commit records: a child is recorded under the kind that its
/// entry reports, where that entry settles the kind of its path and the
/// child is not the directory being listed.
pub proof fn lemma_absorbed_kinds(t: Seq<InodeRecord>, remotes: Seq<Remote>, keep: u64, now: u64, k: int)
    requires
        unique(t),
        t.len() + remotes.len() + 2 <= u64::MAX,
        0 <= k < remotes.len(),
        settles(remotes, k),
        absorbed(t, remotes, keep, now).1[k].inode != keep,
    ensures
        kind_in(absorbed(t, remotes, keep, now).0, absorbed(t, remotes, keep, now).1[k].inode) == Some(
            remotes[k].kind,
        ),
    decreases remotes.len(),
{
    let front = remotes.drop_last();
    let last = remotes.last();
    let (t0, listing0) = absorbed(t, front, keep, now);
    let (t2, listing) = absorbed(t, remotes, keep, now);
    lemma_absorbed(t, front, keep, now);
    lemma_absorbed(t, remotes, keep, now);
    if k == remotes.len() - 1 {
        assert(listing[k] == listing.last());
        lemma_admitted_kinds(t0, listing0, last, keep, now, ROOT_INODE);
    } else {
        assert(listing[k] == listing0[k]);
        assert(front[k] == remotes[k]);
        assert forall|j: int|
            k < j < front.len() && (#[trigger] front[j]).collection == front[k].collection && front[j].path
                == front[k].path implies front[j].kind == front[k].kind by {
            assert(front[j] == remotes[j]);
        }
        lemma_absorbed_kinds(t, front, keep, now, k);
        let child = listing0[k];
        let newest = listing.last();
        assert(newest == listing[remotes.len() - 1]);
        lemma_admitted_kinds(t0, listing0, last, keep, now, child.inode);
        if newest.inode == child.inode {
            assert(remotes[remotes.len() - 1].collection == remotes[k].collection);
            assert(remotes[remotes.len() - 1].path == remotes[k].path);
        }
    }
}

/// A commit changes the kind of no inode but those of the children it
/// lists.
pub proof fn lemma_kinds_change_at_children(
    t: Seq<InodeRecord>,
    remotes: Seq<Remote>,
    keep: u64,
    now: u64,
    ino: u64,
)
    requires
        unique(t),
        t.len() + remotes.len() + 2 <= u64::MAX,
        knows(t, ino),
        kind_in(absorbed(t, remotes, keep, now).0, ino) != kind_in(t, ino),
    ensures
        exists|k: int| 0 <= k < remotes.len() && (#[trigger] absorbed(t, remotes, keep, now).1[k]).inode == ino,
    decreases remotes.len(),
{
    if remotes.len() > 0 {
        let front = remotes.drop_last();
        let last = remotes.last();
        let (t0, listing0) = absorbed(t, front, keep, now);
        let (t2, listing) = absorbed(t, remotes, keep, now);
        lemma_absorbed(t, front, keep, now);
        lemma_extends_keeps(t, t0, ino);
        if kind_in(t0, ino) != kind_in(t, ino) {
            lemma_kinds_change_at_children(t, front, keep, now, ino);
            let k = choose|k: int| 0 <= k < front.len() && (#[trigger] absorbed(t, front, keep, now).1[k]).inode == ino;
            assert(listing[k] == listing0[k]);
        } else {
            lemma_admitted_kinds(t0, listing0, last, keep, now, ino);
            assert(listing[remotes.len() - 1] == listing.last());
        }
    }
}

/// What `dropped` amounts to: the listing of `d` is dropped on account of
/// the first `n` children exactly if `d` is no directory and is the inode
/// of one of them.
pub proof fn lemma_dropped(t: Seq<InodeRecord>, listing: Seq<EntryView>, n: int, d: u64)
    requires
        0 <= n <= listing.len(),
    ensures
        dropped(t, listing, n, d) <==> kind_in(t, d) != Some(Kind::Directory) && exists|k: int|
            0 <= k < n && (#[trigger] listing[k]).inode == d,
    decreases n,
{
    if n > 0 {
        lemma_dropped(t, listing, n - 1, d);
        if kind_in(t, d) != Some(Kind::Directory) {
            if exists|k: int| 0 <= k < n && (#[trigger] listing[k]).inode == d {
                let k = choose|k: int| 0 <= k < n && (#[trigger] listing[k]).inode == d;
                if k < n - 1 {
                    assert(listing[k].inode == d);
                }
            }
            if dropped(t, listing, n, d) {
                if dropped(t, listing, n - 1, d) {
                    let k = choose|k: int| 0 <= k < n - 1 && (#[trigger] listing[k]).inode == d;
                    assert(listing[k].inode == d);
                } else {
                    assert(listing[n - 1].inode == d);
                }
            }
        }
    }
}

/// The listings a commit drops are those of the inodes that are no longer
/// directories: each of them is the inode of a child the commit lists.
pub proof fn lemma_pruned_is_dropped(s: FsView, dir: u64, remotes: Seq<Remote>, now: u64, d: u64)
    requires
        valid(s),
        s.table.len() + remotes.len() + 3 <= u64::MAX,
        s.cache.listings.contains_key(d),
    ensures
        dropped(
            absorbed(s.table, remotes, dir, now).0,
            absorbed(s.table, remotes, dir, now).1,
            remotes.len() as int,
            d,
        ) <==> kind_in(absorbed(s.table, remotes, dir, now).0, d) != Some(Kind::Directory),
{
    let (t1, listing) = absorbed(s.table, remotes, dir, now);
    lemma_absorbed(s.table, remotes, dir, now);
    lemma_dropped(t1, listing, remotes.len() as int, d);
    assert(is_directory(s, d));
    if kind_in(t1, d) != Some(Kind::Directory) {
        lemma_kinds_change_at_children(s.table, remotes, dir, now, d);
    }
}

/// The state behind one mount.
pub struct GitHubFS {
    username: String,
    token: String,
    table: InodeTable,
    cache: DirectoryCache,
    entry_ttl: u64,
}

impl View for GitHubFS {
    type V = FsView;

    closed spec fn view(&self) -> FsView {
        FsView {
            username: self.username@,
            token: self.token@,
            table: self.table@,
            cache: self.cache@,
            entry_ttl: self.entry_ttl,
        }
    }
}

impl GitHubFS {
    /// The invariant every operation keeps.
    pub open spec fn wf(&self) -> bool {
        valid(self@)
    }

    /// Whether the children of `extra` more remote entries can be taken in.
    pub open spec fn has_room_for(&self, extra: nat) -> bool {
        self@.table.len() + extra + 3 <= u64::MAX
    }

    /// A bridge for `username` that knows only the root, with the default
    /// times to live.
    pub fn new(username: String, token: String) -> (fs: Self)
        ensures
            fs.wf(),
            fs@.username == username@,
            fs@.token == token@,
            fs@.table == Seq::<InodeRecord>::empty(),
            fs@.cache.listings == Map::<u64, crate::dir_cache::ListingView>::empty(),
            fs@.cache.ttl == DEFAULT_LISTING_TTL,
            fs@.entry_ttl == DEFAULT_ENTRY_TTL,
    {
        Self::with_ttl(username, token, DEFAULT_LISTING_TTL, DEFAULT_ENTRY_TTL)
    }

    /// A bridge for `username` that knows only the root. Listings stay
    /// valid for `listing_ttl`; the kernel may keep what it is given for
    /// `entry_ttl`. The two are independent.
    pub fn with_ttl(username: String, token: String, listing_ttl: u64, entry_ttl: u64) -> (fs: Self)
        ensures
            fs.wf(),
            fs@.username == username@,
            fs@.token == token@,
            fs@.table == Seq::<InodeRecord>::empty(),
            fs@.cache.listings == Map::<u64, crate::dir_cache::ListingView>::empty(),
            fs@.cache.ttl == listing_ttl,
            fs@.entry_ttl == entry_ttl,
    {
        GitHubFS {
            username: username,
            token: token,
            table: InodeTable::new(),
            cache: DirectoryCache::new(listing_ttl),
            entry_ttl: entry_ttl,
        }
    }

    /// The owner the mount was made for.
    pub fn username(&self) -> (name: &String)
        ensures
            name@ == self@.username,
    {
        &self.username
    }

    /// How long a cached listing stays valid.
    pub fn listing_ttl(&self) -> (ttl: u64)
        ensures
            ttl == self@.cache.ttl,
    {
        self.cache.ttl()
    }

    /// How long the kernel may keep what it is given.
    pub fn entry_ttl(&self) -> (ttl: u64)
        ensures
            ttl == self@.entry_ttl,
    {
        self.entry_ttl
    }

    /// The number the next new path will get.
    pub fn next_inode(&self) -> (ino: u64)
        requires
            self.wf(),
        ensures
            ino == self@.table.len() + 2,
    {
        self.table.len() as u64 + 2
    }

    /// Whether the children of `extra` more remote entries can be taken in.
    pub fn can_hold(&self, extra: usize) -> (ok: bool)
        ensures
            ok == self.has_room_for(extra as nat),
    {
        let used: u64 = self.table.len() as u64;
        let want: u64 = extra as u64;
        used <= u64::MAX - 3 && want <= u64::MAX - 3 - used
    }

    /// The attributes of an inode, if it is known. No remote call is made:
    /// the size of a file is 0 until the provider hinted at it or a read
    /// found it out.
    pub fn attr(&self, ino: u64) -> (attr: Option<Attributes>)
        ensures
            attr == attr_in(self@.table, ino),
    {
        if ino == ROOT_INODE {
            Some(make_attributes(ROOT_INODE, Kind::Directory, 0, 0))
        } else {
            match self.table.kind_of(ino) {
                Some(kind) => match self.table.size_and_time(ino) {
                    Some((size, mtime)) => Some(make_attributes(ino, kind, size, mtime)),
                    None => None,
                },
                None => None,
            }
        }
    }

    /// Whether the mount is ready: the root listing has been populated and
    /// holds at least one collection.
    pub fn init(&self) -> (ready: Result<(), FsError>)
        ensures
            ready is Ok <==> (retained(self@.cache, ROOT_INODE) is Some && retained(
                self@.cache,
                ROOT_INODE,
            )->Some_0.len() > 0),
            ready is Err ==> ready->Err_0 == FsError::NotFound,
    {
        match self.cache.retained(ROOT_INODE) {
            Some(entries) => {
                if entries.len() > 0 {
                    Ok(())
                } else {
                    Err(FsError::NotFound)
                }
            },
            None => Err(FsError::NotFound),
        }
    }

    /// The request that gets a needed remote answer, with the credential of
    /// this mount.
    pub fn request_for(&self, fetch: &Fetch) -> (request: HttpRequest)
        ensures
            is_request(request, fetch_url(fetch@), self@.token),
    {
        match fetch {
            Fetch::Repositories => repositories_request(self.token.as_str()),
            Fetch::Files { collection, path } => contents_request(
                self.token.as_str(),
                collection.as_str(),
                path.as_str(),
            ),
            Fetch::Content { collection, path } => contents_request(
                self.token.as_str(),
                collection.as_str(),
                path.as_str(),
            ),
        }
    }

    /// The remote call that lists the children of a known directory.
    fn fetch_listing(&self, dir: u64) -> (fetch: Fetch)
        requires
            is_directory(self@, dir),
        ensures
            fetch@ == listing_fetch(self@, dir),
    {
        if dir == ROOT_INODE {
            Fetch::Repositories
        } else {
            match self.table.path_of(dir) {
                Some((collection, path)) => Fetch::Files { collection: collection, path: path },
                None => Fetch::Repositories,
            }
        }
    }

    /// Reads the provider's answer to a request for the collections: the
    /// collections it lists, or the error the answer stands for.
    pub fn fetch_repositories(&self, reply: ProviderReply<Vec<GitHubRepository>>) -> (outcome: Result<
        Vec<GitHubRepository>,
        Failure,
    >)
        ensures
            match outcome {
                Ok(repositories) => outcome_of(reply) == Ok::<Vec<GitHubRepository>, FailureView>(
                    repositories,
                ),
                Err(failure) => outcome_of(reply) == Err::<Vec<GitHubRepository>, FailureView>(failure@),
            },
    {
        classify(reply)
    }

    /// Reads the provider's answer to a request for a file's content: the
    /// decoded bytes, or the error the answer stands for.
    pub fn fetch_file_content(&self, reply: ProviderReply<GitHubFileContent>) -> (outcome: Result<
        Vec<u8>,
        Failure,
    >)
        ensures
            match outcome_of(reply) {
                Ok(body) => match outcome {
                    Ok(bytes) => decoded(body.content@, body.encoding@) == Ok::<Seq<u8>, FsError>(bytes@),
                    Err(failure) => decoded(body.content@, body.encoding@) == Err::<Seq<u8>, FsError>(
                        failure.kind,
                    ) && describes_decoding(failure@, body.encoding@),
                },
                Err(reported) => outcome is Err && outcome->Err_0@ == reported,
            },
    {
        match classify(reply) {
            Ok(body) => decode_content(&body),
            Err(e) => Err(e),
        }
    }

    /// Drops the listings held for those of the given children that are
    /// not directories.
    fn forget_files(&mut self, listing: &Vec<DirEntry>)
        ensures
            final(self)@.table == old(self)@.table,
            final(self)@.username == old(self)@.username,
            final(self)@.token == old(self)@.token,
            final(self)@.entry_ttl == old(self)@.entry_ttl,
            final(self)@.cache.ttl == old(self)@.cache.ttl,
            final(self)@.cache.listings == Map::<u64, ListingView>::new(
                |d: u64|
                    old(self)@.cache.listings.contains_key(d) && !dropped(
                        old(self)@.table,
                        entries_view(listing@),
                        listing@.len() as int,
                        d,
                    ),
                |d: u64| old(self)@.cache.listings[d],
            ),
    {
        let ghost s0 = self@;
        let ghost listed = entries_view(listing@);
        let mut j: usize = 0;
        assert(self@.cache.listings =~= Map::<u64, ListingView>::new(
            |d: u64| s0.cache.listings.contains_key(d) && !dropped(s0.table, listed, 0, d),
            |d: u64| s0.cache.listings[d],
        ));
        while j < listing.len()
            invariant
                j <= listing@.len(),
                listed == entries_view(listing@),
                self@.table == s0.table,
                self@.username == s0.username,
                self@.token == s0.token,
                self@.entry_ttl == s0.entry_ttl,
                self@.cache.ttl == s0.cache.ttl,
                self@.cache.listings == Map::<u64, ListingView>::new(
                    |d: u64| s0.cache.listings.contains_key(d) && !dropped(s0.table, listed, j as int, d),
                    |d: u64| s0.cache.listings[d],
                ),
            decreases listing@.len() - j,
        {
            let ino = listing[j].inode;
            let ghost before = self@.cache.listings;
            proof {
                assert(listed[j as int] == listing@[j as int]@);
            }
            match self.table.kind_of(ino) {
                Some(Kind::Directory) => {},
                _ => {
                    self.cache.forget(ino);
                },
            }
            assert(self@.cache.listings =~= Map::<u64, ListingView>::new(
                |d: u64| s0.cache.listings.contains_key(d) && !dropped(s0.table, listed, j as int + 1, d),
                |d: u64| s0.cache.listings[d],
            ));
            j = j + 1;
        }
    }

    /// Commits the collections as the children of the root, as listed at
    /// `now`. Each collection becomes a directory; one seen before keeps
    /// its inode.
    pub fn mount_repositories(&mut self, repositories: &Vec<GitHubRepository>, now: u64)
        requires
            old(self).wf(),
            old(self).has_room_for(repositories@.len()),
        ensures
            final(self).wf(),
            final(self)@ == loaded(old(self)@, ROOT_INODE, repository_remotes(repositories@), now),
    {
        let ghost s0 = self@;
        let ghost remotes = repository_remotes(repositories@);
        let mut listing: Vec<DirEntry> = Vec::new();
        let root_path = String::new();
        let mut i: usize = 0;
        assert(remotes.take(0) =~= Seq::<Remote>::empty());
        assert(entries_view(listing@) =~= Seq::<EntryView>::empty());
        while i < repositories.len()
            invariant
                i <= repositories@.len(),
                remotes == repository_remotes(repositories@),
                root_path@ == Seq::<char>::empty(),
                self.table.wf(),
                self@.table.len() <= s0.table.len() + i,
                s0.table.len() + repositories@.len() + 3 <= u64::MAX,
                (self@.table, entries_view(listing@)) == absorbed(
                    s0.table,
                    remotes.take(i as int),
                    ROOT_INODE,
                    now,
                ),
                self@.cache == s0.cache,
                self@.username == s0.username,
                self@.token == s0.token,
                self@.entry_ttl == s0.entry_ttl,
            decreases repositories@.len() - i,
        {
            let repository = &repositories[i];
            take_in(
                &mut self.table,
                &mut listing,
                ROOT_INODE,
                repository.full_name.as_str(),
                root_path.as_str(),
                repository.name.as_str(),
                Kind::Directory,
                None,
                now,
            );
            proof {
                let upto = remotes.take(i as int + 1);
                assert(upto.drop_last() =~= remotes.take(i as int));
                assert(upto.last() == repository_remote(repositories@[i as int]));
            }
            i = i + 1;
        }
        self.forget_files(&listing);
        proof {
            assert(remotes.take(i as int) =~= remotes);
            lemma_absorbed(s0.table, remotes, ROOT_INODE, now);
            lemma_loaded_valid(s0, ROOT_INODE, remotes, now);
            let t1 = absorbed(s0.table, remotes, ROOT_INODE, now).0;
            assert forall|d: u64| s0.cache.listings.contains_key(d) implies (dropped(
                t1,
                entries_view(listing@),
                remotes.len() as int,
                d,
            ) <==> kind_in(t1, d) != Some(Kind::Directory)) by {
                lemma_pruned_is_dropped(s0, ROOT_INODE, remotes, now, d);
            }
            assert(self@.cache.listings =~= pruned(s0.cache, t1).listings);
        }
        self.cache.store(ROOT_INODE, listing, now);
    }

    /// Commits the provider's answer to a request for the children of
    /// `dir`, as listed at `now`. Only this level is taken in: each child
    /// is recorded by name, inode and the kind the provider reports now,
    /// and the children of a child stay unlisted until it is visited. A
    /// child seen before keeps its inode and takes the kind now reported.
    /// An answer that stands for a failure changes nothing, so a later call
    /// may try again.
    pub fn load_files(&mut self, dir: u64, reply: ProviderReply<Vec<GitHubFile>>, now: u64) -> (outcome: Result<
        (),
        Failure,
    >)
        requires
            old(self).wf(),
            reply matches ProviderReply::Body(files) ==> old(self).has_room_for(files@.len()),
        ensures
            final(self).wf(),
            match outcome {
                Ok(()) => {
                    &&& reply is Body
                    &&& is_directory(old(self)@, dir)
                    &&& record_of(old(self)@.table, dir) is Some
                    &&& final(self)@ == loaded(
                        old(self)@,
                        dir,
                        file_remotes(record_of(old(self)@.table, dir)->Some_0.collection, reply->Body_0@),
                        now,
                    )
                    &&& is_directory(final(self)@, dir)
                    &&& retained(final(self)@.cache, dir) is Some
                    &&& retained(final(self)@.cache, dir)->Some_0.len() == reply->Body_0@.len()
                    &&& forall|k: int|
                        0 <= k < reply->Body_0@.len() ==> {
                            let file = reply->Body_0@[k];
                            let child = #[trigger] retained(final(self)@.cache, dir)->Some_0[k];
                            &&& child.name == file.name@
                            &&& record_of(final(self)@.table, child.inode) is Some
                            &&& record_of(final(self)@.table, child.inode)->Some_0.path == file.path@
                            &&& settles(
                                file_remotes(
                                    record_of(old(self)@.table, dir)->Some_0.collection,
                                    reply->Body_0@,
                                ),
                                k,
                            ) && child.inode != dir ==> kind_in(final(self)@.table, child.inode) == Some(
                                kind_of_type(file.file_type@),
                            )
                        }
                },
                Err(failure) => {
                    &&& final(self)@ == old(self)@
                    &&& match outcome_of(reply) {
                        Err(reported) => failure@ == reported,
                        Ok(_) => failure@ == (FailureView {
                            kind: FsError::NotFound,
                            message: "Repository not found"@,
                        }) && !(is_directory(old(self)@, dir) && record_of(old(self)@.table, dir) is Some),
                    }
                },
            },
    {
        let files = match classify(reply) {
            Ok(files) => files,
            Err(e) => {
                return Err(e);
            },
        };
        match self.table.kind_of(dir) {
            Some(Kind::Directory) => {},
            _ => {
                return Err(Failure { kind: FsError::NotFound, message: owned("Repository not found") });
            },
        }
        let (collection, _) = match self.table.path_of(dir) {
            Some(location) => location,
            None => {
                return Err(Failure { kind: FsError::NotFound, message: owned("Repository not found") });
            },
        };
        let ghost s0 = self@;
        let ghost remotes = file_remotes(collection@, files@);
        let mut listing: Vec<DirEntry> = Vec::new();
        let mut i: usize = 0;
        assert(remotes.take(0) =~= Seq::<Remote>::empty());
        assert(entries_view(listing@) =~= Seq::<EntryView>::empty());
        while i < files.len()
            invariant
                i <= files@.len(),
                remotes == file_remotes(collection@, files@),
                self.table.wf(),
                self@.table.len() <= s0.table.len() + i,
                s0.table.len() + files@.len() + 3 <= u64::MAX,
                (self@.table, entries_view(listing@)) == absorbed(s0.table, remotes.take(i as int), dir, now),
                self@.cache == s0.cache,
                self@.username == s0.username,
                self@.token == s0.token,
                self@.entry_ttl == s0.entry_ttl,
            decreases files@.len() - i,
        {
            let file = &files[i];
            let kind = kind_from_type(file.file_type.as_str());
            take_in(
                &mut self.table,
                &mut listing,
                dir,
                collection.as_str(),
                file.path.as_str(),
                file.name.as_str(),
                kind,
                file.size,
                now,
            );
            proof {
                let upto = remotes.take(i as int + 1);
                assert(upto.drop_last() =~= remotes.take(i as int));
                assert(upto.last() == file_remote(collection@, files@[i as int]));
            }
            i = i + 1;
        }
        self.forget_files(&listing);
        proof {
            assert(remotes.take(i as int) =~= remotes);
            lemma_absorbed(s0.table, remotes, dir, now);
            lemma_loaded_valid(s0, dir, remotes, now);
            let t1 = absorbed(s0.table, remotes, dir, now).0;
            assert forall|d: u64| s0.cache.listings.contains_key(d) implies (dropped(
                t1,
                entries_view(listing@),
                remotes.len() as int,
                d,
            ) <==> kind_in(t1, d) != Some(Kind::Directory)) by {
                lemma_pruned_is_dropped(s0, dir, remotes, now, d);
            }
            assert(self@.cache.listings =~= pruned(s0.cache, t1).listings);
            let listed = absorbed(s0.table, remotes, dir, now).1;
            assert forall|k: int| 0 <= k < files@.len() implies {
                let child = #[trigger] listed[k];
                settles(remotes, k) && child.inode != dir ==> kind_in(
                    absorbed(s0.table, remotes, dir, now).0,
                    child.inode,
                ) == Some(kind_of_type(files@[k].file_type@))
            } by {
                if settles(remotes, k) && listed[k].inode != dir {
                    lemma_absorbed_kinds(s0.table, remotes, dir, now, k);
                }
            }
        }
        self.cache.store(dir, listing, now);
        Ok(())
    }

    /// Looks `name` up under `parent` in the listing the cache holds,
    /// whatever its age. The first child of that exact name wins, and the
    /// reply carries the attributes the table holds for that child's
    /// inode: the same inode and kind that an enumeration of `parent`
    /// reports for it, and the same attributes that a query for the inode
    /// gives.
    pub fn lookup_cached(&self, parent: u64, name: &str) -> (found: Result<EntryReply, FsError>)
        requires
            self.wf(),
        ensures
            found == looked_up(self@, parent, name@),
            found is Ok <==> is_directory(self@, parent) && retained(self@.cache, parent) is Some && has_name(
                retained(self@.cache, parent)->Some_0,
                name@,
            ),
            found matches Ok(reply) ==> attr_in(self@.table, reply.attr.ino) == Some(reply.attr),
    {
        proof {
            lemma_lookup_agrees(self@, parent, name@);
        }
        match self.table.kind_of(parent) {
            Some(Kind::Directory) => {},
            _ => {
                return Err(FsError::NotFound);
            },
        }
        match self.cache.retained(parent) {
            None => Err(FsError::NotFound),
            Some(entries) => match find_child(entries, name) {
                None => Err(FsError::NotFound),
                Some(i) => {
                    proof {
                        assert(entries_view(entries@)[i as int] == entries@[i as int]@);
                    }
                    match self.attr(entries[i].inode) {
                        Some(attr) => Ok(EntryReply { attr: attr, ttl: self.entry_ttl }),
                        None => Err(FsError::NotFound),
                    }
                },
            },
        }
    }

    /// Looks `name` up under `parent` at `now`. With a valid listing of the
    /// parent in the cache the answer comes from it without a remote call;
    /// on a miss the listing of the parent, and nothing else, is asked for.
    pub fn lookup(&self, parent: u64, name: &str, now: u64) -> (step: Step<EntryReply>)
        requires
            self.wf(),
        ensures
            step matches Step::Ready(reply) ==> attr_in(self@.table, reply.attr.ino) == Some(reply.attr),
            match step {
                Step::Fetch(fetch) => needs_fetch(self@, parent, now) && fetch@ == listing_fetch(self@, parent),
                Step::Ready(reply) => !needs_fetch(self@, parent, now) && looked_up(self@, parent, name@) == Ok::<
                    EntryReply,
                    FsError,
                >(reply),
                Step::Failed(e) => !needs_fetch(self@, parent, now) && looked_up(self@, parent, name@) == Err::<
                    EntryReply,
                    FsError,
                >(e),
            },
    {
        match self.table.kind_of(parent) {
            Some(Kind::Directory) => {},
            _ => {
                return Step::Failed(FsError::NotFound);
            },
        }
        if self.cache.children(parent, now).is_none() {
            return Step::Fetch(self.fetch_listing(parent));
        }
        match self.lookup_cached(parent, name) {
            Ok(reply) => Step::Ready(reply),
            Err(e) => Step::Failed(e),
        }
    }

    /// The attributes of an inode with the time the kernel may keep them,
    /// or not-found for an inode the table does not know. Never a remote
    /// call.
    pub fn getattr(&self, ino: u64) -> (found: Result<EntryReply, FsError>)
        ensures
            found == (match attr_in(self@.table, ino) {
                Some(attr) => Ok::<EntryReply, FsError>(EntryReply { attr: attr, ttl: self@.entry_ttl }),
                None => Err::<EntryReply, FsError>(FsError::NotFound),
            }),
    {
        match self.attr(ino) {
            Some(attr) => Ok(EntryReply { attr: attr, ttl: self.entry_ttl }),
            None => Err(FsError::NotFound),
        }
    }

    /// Enumerates directory `ino` from cursor `offset`, from the listing
    /// the cache holds, whatever its age.
    pub fn readdir_cached(&self, ino: u64, offset: u64) -> (found: Result<Vec<DirItem>, FsError>)
        requires
            self.wf(),
        ensures
            match found {
                Ok(items) => listed(self@, ino, offset) == Ok::<Seq<ItemView>, FsError>(items_view(items@)),
                Err(e) => listed(self@, ino, offset) == Err::<Seq<ItemView>, FsError>(e),
            },
    {
        match self.table.kind_of(ino) {
            Some(Kind::Directory) => {},
            _ => {
                return Err(FsError::NotFound);
            },
        }
        let entries = match self.cache.retained(ino) {
            Some(entries) => entries,
            None => {
                return Err(FsError::NotFound);
            },
        };
        let ghost listing = entries_view(entries@);
        let ghost all = enumeration(self@.table, ino, listing);
        proof {
            assert(self@.cache.listings.contains_key(ino));
            assert(listing.len() + 3 <= u64::MAX);
        }
        let total: u64 = entries.len() as u64 + 2;
        let mut items: Vec<DirItem> = Vec::new();
        if offset >= total {
            assert(items_view(items@) =~= Seq::<ItemView>::empty());
            return Ok(items);
        }
        let mut at: u64 = offset;
        assert(items_view(items@) =~= all.subrange(offset as int, at as int));
        while at < total
            invariant
                offset <= at <= total,
                total == entries@.len() + 2,
                total + 1 <= u64::MAX,
                entries@.len() <= usize::MAX,
                listing == entries_view(entries@),
                all == enumeration(self@.table, ino, listing),
                items_view(items@) == all.subrange(offset as int, at as int),
            decreases total - at,
        {
            let ghost before = items_view(items@);
            let item = if at == 0 {
                DirItem { name: owned("."), inode: ino, kind: Kind::Directory, offset: 1 }
            } else if at == 1 {
                DirItem { name: owned(".."), inode: ino, kind: Kind::Directory, offset: 2 }
            } else {
                let k: usize = (at - 2) as usize;
                let child = &entries[k];
                proof {
                    assert(listing[k as int] == entries@[k as int]@);
                }
                let kind = match self.table.kind_of(child.inode) {
                    Some(kind) => kind,
                    None => Kind::File,
                };
                DirItem { name: child.name.clone(), inode: child.inode, kind: kind, offset: at + 1 }
            };
            assert(item@ == all[at as int]);
            items.push(item);
            assert(items_view(items@) =~= before.push(all[at as int]));
            assert(before.push(all[at as int]) =~= all.subrange(offset as int, at as int + 1));
            at = at + 1;
        }
        assert(all.subrange(offset as int, total as int) =~= all.skip(offset as int));
        Ok(items)
    }

    /// Enumerates directory `ino` from cursor `offset` at `now`. With a
    /// valid listing in the cache the answer comes from it without a remote
    /// call; on a miss the listing of this directory, and nothing else, is
    /// asked for.
    pub fn readdir(&self, ino: u64, offset: u64, now: u64) -> (step: Step<Vec<DirItem>>)
        requires
            self.wf(),
        ensures
            match step {
                Step::Fetch(fetch) => needs_fetch(self@, ino, now) && fetch@ == listing_fetch(self@, ino),
                Step::Ready(items) => !needs_fetch(self@, ino, now) && listed(self@, ino, offset) == Ok::<
                    Seq<ItemView>,
                    FsError,
                >(items_view(items@)),
                Step::Failed(e) => !needs_fetch(self@, ino, now) && listed(self@, ino, offset) == Err::<
                    Seq<ItemView>,
                    FsError,
                >(e),
            },
    {
        match self.table.kind_of(ino) {
            Some(Kind::Directory) => {},
            _ => {
                return Step::Failed(FsError::NotFound);
            },
        }
        if self.cache.children(ino, now).is_none() {
            return Step::Fetch(self.fetch_listing(ino));
        }
        match self.readdir_cached(ino, offset) {
            Ok(items) => Step::Ready(items),
            Err(e) => Step::Failed(e),
        }
    }

    /// Opens a read of `ino`: a directory cannot be read, an unknown inode
    /// is not found, and a file needs its content from the provider.
    pub fn read(&self, ino: u64) -> (step: Result<Fetch, FsError>)
        ensures
            match kind_in(self@.table, ino) {
                Some(Kind::Directory) => step == Err::<Fetch, FsError>(FsError::IsADirectory),
                None => step == Err::<Fetch, FsError>(FsError::NotFound),
                Some(Kind::File) => step is Ok && step->Ok_0@ == (FetchView::Content {
                    collection: record_of(self@.table, ino)->Some_0.collection,
                    path: record_of(self@.table, ino)->Some_0.path,
                }),
            },
    {
        match self.table.kind_of(ino) {
            Some(Kind::Directory) => Err(FsError::IsADirectory),
            None => Err(FsError::NotFound),
            Some(Kind::File) => match self.table.path_of(ino) {
                Some((collection, path)) => Ok(Fetch::Content { collection: collection, path: path }),
                None => Err(FsError::NotFound),
            },
        }
    }

    /// Completes a read of `ino` with the file's decoded content: records
    /// the size now known and returns the bytes from `offset` up to
    /// `offset + length`, cut at the end of the content. An offset at or
    /// beyond the end gives an empty result, not an error. A size is
    /// recorded for a file only: where `ino` is not a file known to the
    /// table, nothing is recorded.
    pub fn complete_read(&mut self, ino: u64, content: &Vec<u8>, offset: u64, length: u32) -> (bytes: Vec<u8>)
        requires
            old(self).wf(),
        ensures
            final(self).wf(),
            bytes@ == window(content@, offset as int, length as int),
            offset >= content@.len() ==> bytes@.len() == 0,
            offset <= content@.len() ==> bytes@ == content@.subrange(
                offset as int,
                if offset + length < content@.len() { offset + length } else { content@.len() as int },
            ),
            final(self)@ == (FsView {
                table: with_size(old(self)@.table, ino, content@.len() as u64),
                ..old(self)@
            }),
            kind_in(old(self)@.table, ino) != Some(Kind::File) || ino == ROOT_INODE ==> final(self)@ == old(
                self,
            )@,
            kind_in(old(self)@.table, ino) == Some(Kind::File) ==> attr_in(final(self)@.table, ino) is Some
                && attr_in(final(self)@.table, ino)->Some_0.size == content@.len(),
    {
        proof {
            lemma_sized_valid(self@, ino, content@.len() as u64);
        }
        self.table.set_size(ino, content.len() as u64);
        slice_content(content, offset, length)
    }
}

/// Whether a listing of `remotes` may be committed for `dir`: `dir` is a
/// known directory, and what is listed for the mount root are roots of
/// collections.
pub open spec fn committable(s: FsView, dir: u64, remotes: Seq<Remote>) -> bool {
    &&& is_directory(s, dir)
    &&& dir == ROOT_INODE ==> forall|k: int| 0 <= k < remotes.len() ==> (#[trigger] remotes[k]).path.len() == 0
}

/// Committing a listing keeps the invariant of the bridge. No inode is
/// given to another path, and the directory just listed is still a
/// directory.
pub proof fn lemma_loaded_valid(s: FsView, dir: u64, remotes: Seq<Remote>, now: u64)
    requires
        valid(s),
        s.table.len() + remotes.len() + 3 <= u64::MAX,
        committable(s, dir, remotes),
    ensures
        valid(loaded(s, dir, remotes, now)),
        extends(s.table, loaded(s, dir, remotes, now).table),
        is_directory(loaded(s, dir, remotes, now), dir),
{
    lemma_absorbed(s.table, remotes, dir, now);
    let s1 = loaded(s, dir, remotes, now);
    let (t1, listing) = absorbed(s.table, remotes, dir, now);
    assert forall|d: u64, i: int|
        s1.cache.listings.contains_key(d) && 0 <= i < s1.cache.listings[d].entries.len() implies record_of(
        s1.table,
        (#[trigger] s1.cache.listings[d].entries[i]).inode,
    ) is Some by {
        if d == dir {
            assert(s1.cache.listings[d].entries[i] == listing[i]);
        } else {
            assert(s.cache.listings.contains_key(d));
            assert(record_of(s.table, s.cache.listings[d].entries[i].inode) is Some);
            lemma_extends_keeps(s.table, t1, s.cache.listings[d].entries[i].inode);
        }
    }
    assert forall|d: u64| #[trigger]
        s1.cache.listings.contains_key(d) implies s1.cache.listings[d].entries.len() + 3 <= u64::MAX
        && is_directory(s1, d) by {
        if d != dir {
            assert(s.cache.listings.contains_key(d));
        }
    }
    assert forall|i: int|
        s1.cache.listings.contains_key(ROOT_INODE) && 0 <= i < s1.cache.listings[ROOT_INODE].entries.len()
        implies record_of(
        s1.table,
        (#[trigger] s1.cache.listings[ROOT_INODE].entries[i]).inode,
    )->Some_0.path.len() == 0 by {
        if dir == ROOT_INODE {
            assert(s1.cache.listings[ROOT_INODE].entries[i] == listing[i]);
            assert(remotes[i].path.len() == 0);
        } else {
            assert(s.cache.listings.contains_key(ROOT_INODE));
            let child = s.cache.listings[ROOT_INODE].entries[i];
            assert(record_of(s.table, child.inode) is Some);
            assert(record_of(s.table, child.inode)->Some_0.path.len() == 0);
            lemma_extends_keeps(s.table, t1, child.inode);
        }
    }
}

/// Recording the size of a file keeps the invariant of the bridge.
pub proof fn lemma_sized_valid(s: FsView, ino: u64, size: u64)
    requires
        valid(s),
    ensures
        valid(FsView { table: with_size(s.table, ino, size), ..s }),
{
    let t1 = with_size(s.table, ino, size);
    let s1 = FsView { table: t1, ..s };
    let empty = Seq::<char>::empty();
    lemma_updates_keep_inodes(s.table, ino, Kind::File, size, 0, empty, empty);
    lemma_steps_extend(s.table, empty, empty, Kind::File, 0, ino, size);
    assert forall|d: u64| #[trigger]
        s1.cache.listings.contains_key(d) implies s1.cache.listings[d].entries.len() + 3 <= u64::MAX
        && is_directory(s1, d) by {
        lemma_steps_kinds(s.table, empty, empty, Kind::File, 0, ino, size, d);
    }
    assert forall|d: u64, i: int|
        s1.cache.listings.contains_key(d) && 0 <= i < s1.cache.listings[d].entries.len() implies record_of(
        s1.table,
        (#[trigger] s1.cache.listings[d].entries[i]).inode,
    ) is Some by {
        assert(record_of(s.table, s.cache.listings[d].entries[i].inode) is Some);
        lemma_extends_keeps(s.table, t1, s.cache.listings[d].entries[i].inode);
    }
    assert forall|i: int|
        s1.cache.listings.contains_key(ROOT_INODE) && 0 <= i < s1.cache.listings[ROOT_INODE].entries.len()
        implies record_of(
        s1.table,
        (#[trigger] s1.cache.listings[ROOT_INODE].entries[i]).inode,
    )->Some_0.path.len() == 0 by {
        let child = s.cache.listings[ROOT_INODE].entries[i];
        assert(record_of(s.table, child.inode) is Some);
        assert(record_of(s.table, child.inode)->Some_0.path.len() == 0);
        lemma_extends_keeps(s.table, t1, child.inode);
    }
}

/// Agreement of the operations: where `name` is listed under a directory,
/// looking it up succeeds, and the reply carries the inode and the kind
/// that the enumeration of the directory reports for the first child of
/// that name, and the attributes that a query for that inode gives. All
/// three read the kind from the table, so they agree in every state.
pub proof fn lemma_lookup_agrees(s: FsView, parent: u64, name: Seq<char>)
    requires
        valid(s),
    ensures
        looked_up(s, parent, name) is Ok <==> is_directory(s, parent) && retained(s.cache, parent) is Some
            && has_name(retained(s.cache, parent)->Some_0, name),
        looked_up(s, parent, name) matches Ok(reply) ==> {
            let entries = retained(s.cache, parent)->Some_0;
            let i = first_named(entries, name)->Some_0;
            &&& is_first_named(entries, i, name)
            &&& reply.attr.ino == entries[i].inode
            &&& enumeration(s.table, parent, entries)[i + 2].name == name
            &&& enumeration(s.table, parent, entries)[i + 2].inode == reply.attr.ino
            &&& enumeration(s.table, parent, entries)[i + 2].kind == reply.attr.kind
            &&& attr_in(s.table, reply.attr.ino) == Some(reply.attr)
        },
{
    if is_directory(s, parent) && retained(s.cache, parent) is Some {
        let entries = retained(s.cache, parent)->Some_0;
        if has_name(entries, name) {
            let k = choose|k: int| 0 <= k < entries.len() && (#[trigger] entries[k]).name == name;
            lemma_some_is_first(entries, name, k);
            let i = first_named(entries, name)->Some_0;
            assert(is_first_named(entries, i, name));
            assert(record_of(s.table, s.cache.listings[parent].entries[i].inode) is Some);
        }
    }
}

/// Where a child of a name is listed, some child of that name is the first.
pub proof fn lemma_some_is_first(entries: Seq<EntryView>, name: Seq<char>, k: int)
    requires
        0 <= k < entries.len(),
        entries[k].name == name,
    ensures
        exists|i: int| is_first_named(entries, i, name),
    decreases k,
{
    if exists|j: int| 0 <= j < k && (#[trigger] entries[j]).name == name {
        let j = choose|j: int| 0 <= j < k && (#[trigger] entries[j]).name == name;
        lemma_some_is_first(entries, name, j);
    } else {
        assert(is_first_named(entries, k, name));
    }
}

/// Every child of the mount root is a directory.
pub proof fn lemma_collections_are_directories(s: FsView, i: int)
    requires
        valid(s),
        s.cache.listings.contains_key(ROOT_INODE),
        0 <= i < s.cache.listings[ROOT_INODE].entries.len(),
    ensures
        is_directory(s, s.cache.listings[ROOT_INODE].entries[i].inode),
{
    let child = s.cache.listings[ROOT_INODE].entries[i];
    assert(record_of(s.table, child.inode) is Some);
    assert(s.table[child.inode - 2].path.len() == 0);
}

/// Lazy population: committing the listing of one directory lists that
/// directory and no other. No other inode gains a listing. What was
/// listed for any other directory is the same after the commit as before;
/// only an inode that is no longer a directory has lost its listing.
pub proof fn lemma_listing_is_lazy(s: FsView, dir: u64, remotes: Seq<Remote>, now: u64, other: u64)
    requires
        other != dir,
    ensures
        loaded(s, dir, remotes, now).cache.listings.contains_key(other) ==> s.cache.listings.contains_key(
            other,
        ),
        retained(loaded(s, dir, remotes, now).cache, other) == (if is_directory(
            loaded(s, dir, remotes, now),
            other,
        ) {
            retained(s.cache, other)
        } else {
            None
        }),
        forall|at: u64|
            cached(loaded(s, dir, remotes, now).cache, other, at) == (if is_directory(
                loaded(s, dir, remotes, now),
                other,
            ) {
                cached(s.cache, other, at)
            } else {
                None
            }),
{
}

/// Lazy population, seen from a visit: a subdirectory that a commit lists
/// is recorded as a directory and nothing more. If it was never listed
/// itself it still is not, so the first visit to it, whenever it comes,
/// asks for a listing, and for that of its own path.
pub proof fn lemma_unvisited_directory_is_fetched(
    s: FsView,
    dir: u64,
    remotes: Seq<Remote>,
    now: u64,
    i: int,
    at: u64,
)
    requires
        valid(s),
        s.table.len() + remotes.len() + 3 <= u64::MAX,
        0 <= i < remotes.len(),
        is_directory(loaded(s, dir, remotes, now), absorbed(s.table, remotes, dir, now).1[i].inode),
        absorbed(s.table, remotes, dir, now).1[i].inode != dir,
        !s.cache.listings.contains_key(absorbed(s.table, remotes, dir, now).1[i].inode),
    ensures
        needs_fetch(loaded(s, dir, remotes, now), absorbed(s.table, remotes, dir, now).1[i].inode, at),
        listing_fetch(loaded(s, dir, remotes, now), absorbed(s.table, remotes, dir, now).1[i].inode) == (
        FetchView::Files { collection: remotes[i].collection, path: remotes[i].path }),
{
    lemma_absorbed(s.table, remotes, dir, now);
    let (t1, listing) = absorbed(s.table, remotes, dir, now);
    let child = listing[i];
    assert(record_of(t1, child.inode) is Some);
}

/// After a commit the directory serves what was committed: it is still a
/// directory, its enumeration is `.`, `..` and the committed children in
/// their order, a name is found under it exactly if the provider listed
/// it, and none of this takes a remote call while the listing is younger
/// than the time to live.
pub proof fn lemma_commit_is_served(
    s: FsView,
    dir: u64,
    remotes: Seq<Remote>,
    now: u64,
    later: u64,
    name: Seq<char>,
)
    requires
        valid(s),
        s.table.len() + remotes.len() + 3 <= u64::MAX,
        committable(s, dir, remotes),
    ensures
        is_directory(loaded(s, dir, remotes, now), dir),
        listed(loaded(s, dir, remotes, now), dir, 0) == Ok::<Seq<ItemView>, FsError>(
            enumeration(loaded(s, dir, remotes, now).table, dir, absorbed(s.table, remotes, dir, now).1),
        ),
        looked_up(loaded(s, dir, remotes, now), dir, name) is Ok <==> exists|i: int|
            0 <= i < remotes.len() && (#[trigger] remotes[i]).name == name,
        later - now < s.cache.ttl ==> !needs_fetch(loaded(s, dir, remotes, now), dir, later),
{
    let s1 = loaded(s, dir, remotes, now);
    let listing = absorbed(s.table, remotes, dir, now).1;
    lemma_loaded_valid(s, dir, remotes, now);
    lemma_refresh_reflects_remote(s, dir, remotes, now, later);
    lemma_lookup_agrees(s1, dir, name);
    assert(retained(s1.cache, dir) == Some(listing));
    assert(enumeration(s1.table, dir, listing).skip(0) =~= enumeration(s1.table, dir, listing));
}

/// Identity stability across refreshes: committing a listing, for the
/// first time or again, changes the inode of no path that had one,
/// whatever kinds the provider reports.
pub proof fn lemma_refresh_keeps_inodes(
    s: FsView,
    dir: u64,
    remotes: Seq<Remote>,
    now: u64,
    collection: Seq<char>,
    path: Seq<char>,
)
    requires
        valid(s),
        holds(s.table, collection, path),
    ensures
        inode_of(loaded(s, dir, remotes, now).table, collection, path) == inode_of(s.table, collection, path),
{
    lemma_absorbed_keeps_inodes(s.table, remotes, dir, now, collection, path);
}

/// Expiry: a listing whose age has reached the time to live is no longer
/// served, and the next visit to its directory asks for it again.
pub proof fn lemma_stale_listing_is_refetched(s: FsView, dir: u64, now: u64)
    requires
        is_directory(s, dir),
        s.cache.listings.contains_key(dir),
        now - s.cache.listings[dir].populated_at >= s.cache.ttl,
    ensures
        needs_fetch(s, dir, now),
{
}

/// Reconciliation: once a listing is committed, the children served for
/// its directory are exactly the entries the provider listed, under their
/// names and in their order, so additions show and removals are gone. Each
/// child has the inode of its path, and the kind the provider reports for
/// it now, where its entry settles that kind. They are served without a
/// remote call for as long as the listing is younger than the time to
/// live.
pub proof fn lemma_refresh_reflects_remote(s: FsView, dir: u64, remotes: Seq<Remote>, now: u64, later: u64)
    requires
        valid(s),
        s.table.len() + remotes.len() + 3 <= u64::MAX,
    ensures
        retained(loaded(s, dir, remotes, now).cache, dir) is Some,
        retained(loaded(s, dir, remotes, now).cache, dir)->Some_0.len() == remotes.len(),
        forall|i: int|
            0 <= i < remotes.len() ==> {
                let child = #[trigger] retained(loaded(s, dir, remotes, now).cache, dir)->Some_0[i];
                &&& child.name == remotes[i].name
                &&& inode_of(loaded(s, dir, remotes, now).table, remotes[i].collection, remotes[i].path)
                    == Some(child.inode)
                &&& settles(remotes, i) && child.inode != dir ==> kind_in(
                    loaded(s, dir, remotes, now).table,
                    child.inode,
                ) == Some(remotes[i].kind) && enumeration(
                    loaded(s, dir, remotes, now).table,
                    dir,
                    retained(loaded(s, dir, remotes, now).cache, dir)->Some_0,
                )[i + 2].kind == remotes[i].kind
            },
        forall|name: Seq<char>|
            has_name(retained(loaded(s, dir, remotes, now).cache, dir)->Some_0, name) <==> exists|i: int|
                0 <= i < remotes.len() && (#[trigger] remotes[i]).name == name,
        later - now < s.cache.ttl ==> cached(loaded(s, dir, remotes, now).cache, dir, later) == retained(
            loaded(s, dir, remotes, now).cache,
            dir,
        ),
{
    lemma_absorbed(s.table, remotes, dir, now);
    let listing = absorbed(s.table, remotes, dir, now).1;
    assert(retained(loaded(s, dir, remotes, now).cache, dir) == Some(listing));
    assert forall|i: int| 0 <= i < remotes.len() implies {
        let child = #[trigger] listing[i];
        settles(remotes, i) && child.inode != dir ==> kind_in(loaded(s, dir, remotes, now).table, child.inode)
            == Some(remotes[i].kind)
    } by {
        if settles(remotes, i) && listing[i].inode != dir {
            lemma_absorbed_kinds(s.table, remotes, dir, now, i);
        }
    }
    assert forall|name: Seq<char>| has_name(listing, name) <==> exists|i: int|
        0 <= i < remotes.len() && (#[trigger] remotes[i]).name == name by {
        if has_name(listing, name) {
            let i = choose|i: int| 0 <= i < listing.len() && (#[trigger] listing[i]).name == name;
            assert(remotes[i].name == name);
        }
        if exists|i: int| 0 <= i < remotes.len() && (#[trigger] remotes[i]).name == name {
            let i = choose|i: int| 0 <= i < remotes.len() && (#[trigger] remotes[i]).name == name;
            assert(listing[i].name == name);
        }
    }
}

} // verus!
