use githubfs::inode_table::InodeTable;
use githubfs::kind::Kind;

#[test]
fn resolving_twice_gives_the_same_inode() {
    let mut table = InodeTable::new();
    let first: u64 = table.resolve_or_create("acme/lib", "src/main.rs", Kind::File, 10);
    let second: u64 = table.resolve_or_create("acme/lib", "src/main.rs", Kind::File, 20);
    assert_eq!(first, 2);
    assert_eq!(second, 2);
    assert_eq!(table.len(), 1);
}

#[test]
fn new_paths_get_increasing_inodes_above_the_root() {
    let mut table = InodeTable::new();
    assert_eq!(table.resolve_or_create("acme/lib", "", Kind::Directory, 1), 2);
    assert_eq!(table.resolve_or_create("acme/lib", "a", Kind::File, 1), 3);
    assert_eq!(table.resolve_or_create("acme/app", "a", Kind::File, 1), 4);
    assert_eq!(table.resolve_or_create("acme/lib", "a", Kind::File, 1), 3);
    assert_eq!(table.resolve_or_create("acme/lib", "A", Kind::File, 1), 5);
    assert_eq!(table.len(), 4);
}

#[test]
fn inodes_survive_other_resolutions() {
    let mut table = InodeTable::new();
    let kept: u64 = table.resolve_or_create("acme/lib", "docs", Kind::Directory, 1);
    let mut i: u64 = 0;
    while i < 50 {
        table.resolve_or_create("acme/lib", &format!("docs/{}", i), Kind::File, 2);
        i += 1;
    }
    assert_eq!(table.inode_of("acme/lib", "docs"), Some(kept));
    assert_eq!(table.resolve_or_create("acme/lib", "docs", Kind::Directory, 3), kept);
    assert_eq!(table.inode_of("acme/lib", "docs/49"), Some(52));
    assert_eq!(table.inode_of("acme/lib", "docs/50"), None);
}

#[test]
fn path_and_kind_of_known_and_unknown_inodes() {
    let mut table = InodeTable::new();
    let ino: u64 = table.resolve_or_create("acme/lib", "src", Kind::Directory, 7);
    assert_eq!(table.path_of(ino), Some((String::from("acme/lib"), String::from("src"))));
    assert_eq!(table.kind_of(ino), Some(Kind::Directory));
    assert_eq!(table.kind_of(1), Some(Kind::Directory));
    assert_eq!(table.path_of(1), None);
    assert_eq!(table.kind_of(0), None);
    assert_eq!(table.path_of(0), None);
    assert_eq!(table.kind_of(3), None);
    assert_eq!(table.path_of(3), None);
}

#[test]
fn resolving_a_known_path_records_nothing_anew() {
    let mut table = InodeTable::new();
    let ino: u64 = table.resolve_or_create("acme/lib", "x", Kind::File, 7);
    assert_eq!(table.resolve_or_create("acme/lib", "x", Kind::Directory, 9), ino);
    assert_eq!(table.kind_of(ino), Some(Kind::File));
    assert_eq!(table.size_and_time(ino), Some((0, 7)));
    assert_eq!(table.len(), 1);
}

#[test]
fn a_reported_kind_replaces_the_kind_held() {
    let mut table = InodeTable::new();
    let ino: u64 = table.resolve_or_create("acme/lib", "x", Kind::File, 7);
    table.set_size(ino, 300);
    table.set_kind(ino, Kind::File, 8);
    assert_eq!(table.kind_of(ino), Some(Kind::File));
    assert_eq!(table.size_and_time(ino), Some((300, 7)));
    table.set_kind(ino, Kind::Directory, 9);
    assert_eq!(table.kind_of(ino), Some(Kind::Directory));
    assert_eq!(table.size_and_time(ino), Some((0, 9)));
    assert_eq!(table.path_of(ino), Some((String::from("acme/lib"), String::from("x"))));
    table.set_kind(ino, Kind::File, 11);
    assert_eq!(table.kind_of(ino), Some(Kind::File));
    assert_eq!(table.size_and_time(ino), Some((0, 11)));
    table.set_kind(1, Kind::File, 12);
    table.set_kind(0, Kind::File, 12);
    table.set_kind(99, Kind::File, 12);
    assert_eq!(table.kind_of(1), Some(Kind::Directory));
    assert_eq!(table.len(), 1);
}

#[test]
fn the_root_of_a_collection_is_always_a_directory() {
    let mut table = InodeTable::new();
    let root: u64 = table.resolve_or_create("acme/lib", "", Kind::File, 7);
    assert_eq!(table.kind_of(root), Some(Kind::Directory));
    table.set_kind(root, Kind::File, 8);
    assert_eq!(table.kind_of(root), Some(Kind::Directory));
    assert_eq!(table.size_and_time(root), Some((0, 7)));
}

#[test]
fn size_is_recorded_for_known_files_only() {
    let mut table = InodeTable::new();
    let ino: u64 = table.resolve_or_create("acme/lib", "x", Kind::File, 7);
    table.set_size(ino, 4096);
    assert_eq!(table.size_and_time(ino), Some((4096, 7)));
    let dir: u64 = table.resolve_or_create("acme/lib", "d", Kind::Directory, 7);
    table.set_size(dir, 4096);
    assert_eq!(table.size_and_time(dir), Some((0, 7)));
    table.set_size(1, 5);
    table.set_size(99, 5);
    assert_eq!(table.size_and_time(1), None);
    assert_eq!(table.size_and_time(99), None);
    assert_eq!(table.len(), 2);
}

#[test]
fn room_is_measured_against_the_inode_range() {
    let table = InodeTable::new();
    assert!(table.can_hold(0));
    assert!(table.can_hold(1_000_000));
}
