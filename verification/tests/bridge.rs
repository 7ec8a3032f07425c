use githubfs::dir_cache::{DirEntry, DirectoryCache};
use githubfs::error::FsError;
use githubfs::fs::{find_child, kind_from_type, Fetch, GitHubFS, GitHubFile, GitHubRepository, Step};
use githubfs::kind::Kind;
use githubfs::provider::ProviderReply;

fn file(name: &str, path: &str, file_type: &str, size: Option<u64>) -> GitHubFile {
    GitHubFile {
        name: String::from(name),
        path: String::from(path),
        file_type: String::from(file_type),
        download_url: None,
        size: size,
    }
}

fn bridge(listing_ttl: u64) -> GitHubFS {
    let mut fs = GitHubFS::with_ttl(String::from("acme"), String::from("secret"), listing_ttl, 5);
    let repositories = vec![
        GitHubRepository { name: String::from("lib"), full_name: String::from("acme/lib") },
        GitHubRepository { name: String::from("app"), full_name: String::from("acme/app") },
    ];
    fs.mount_repositories(&repositories, 100);
    fs
}

fn child_names(fs: &GitHubFS, dir: u64) -> Vec<(String, u64)> {
    fs.readdir_cached(dir, 2).unwrap().into_iter().map(|item| (item.name, item.inode)).collect()
}

#[test]
fn a_new_bridge_knows_only_the_root_and_is_not_ready() {
    let fs = GitHubFS::new(String::from("acme"), String::from("secret"));
    assert_eq!(fs.username(), "acme");
    assert_eq!(fs.listing_ttl(), 60);
    assert_eq!(fs.entry_ttl(), 1);
    assert_eq!(fs.next_inode(), 2);
    assert_eq!(fs.init(), Err(FsError::NotFound));
    assert!(matches!(fs.readdir(1, 0, 0), Step::Fetch(Fetch::Repositories)));
    assert!(matches!(fs.lookup(1, "lib", 0), Step::Fetch(Fetch::Repositories)));
    assert_eq!(fs.readdir_cached(1, 0).err(), Some(FsError::NotFound));
}

#[test]
fn the_mount_is_ready_once_a_collection_is_listed() {
    let mut fs = GitHubFS::new(String::from("acme"), String::from("secret"));
    fs.mount_repositories(&Vec::new(), 5);
    assert_eq!(fs.init(), Err(FsError::NotFound));
    fs.mount_repositories(&vec![GitHubRepository { name: String::from("lib"), full_name: String::from("acme/lib") }], 6);
    assert_eq!(fs.init(), Ok(()));
    assert_eq!(fs.next_inode(), 3);
}

#[test]
fn listing_a_directory_does_not_list_its_subdirectories() {
    let mut fs = bridge(60);
    let listing = vec![file("src", "src", "dir", None), file("Cargo.toml", "Cargo.toml", "file", Some(300))];
    assert_eq!(fs.load_files(2, ProviderReply::Body(listing), 101), Ok(()));
    assert_eq!(child_names(&fs, 2), vec![(String::from("src"), 4), (String::from("Cargo.toml"), 5)]);
    assert_eq!(fs.next_inode(), 6);
    assert_eq!(fs.readdir_cached(4, 0).err(), Some(FsError::NotFound));
    match fs.readdir(4, 0, 101) {
        Step::Fetch(Fetch::Files { collection, path }) => {
            assert_eq!(collection, "acme/lib");
            assert_eq!(path, "src");
        }
        other => panic!("only a visit lists a subdirectory: {:?}", other),
    }
    match fs.lookup(4, "main.rs", 101) {
        Step::Fetch(Fetch::Files { collection, path }) => {
            assert_eq!(collection, "acme/lib");
            assert_eq!(path, "src");
        }
        other => panic!("only a visit lists a subdirectory: {:?}", other),
    }
    assert!(matches!(fs.readdir(3, 0, 101), Step::Fetch(Fetch::Files { .. })));
}

#[test]
fn a_stale_listing_is_fetched_again_and_reflects_the_remote() {
    let mut fs = bridge(30);
    let first = vec![file("a", "a", "file", None), file("b", "b", "file", None)];
    assert_eq!(fs.load_files(2, ProviderReply::Body(first), 200), Ok(()));
    assert!(matches!(fs.readdir(2, 0, 229), Step::Ready(_)));
    assert!(matches!(fs.readdir(2, 0, 230), Step::Fetch(Fetch::Files { .. })));
    assert!(matches!(fs.lookup(2, "a", 230), Step::Fetch(Fetch::Files { .. })));
    let second = vec![file("b", "b", "file", None), file("c", "c", "dir", None)];
    assert_eq!(fs.load_files(2, ProviderReply::Body(second), 230), Ok(()));
    assert_eq!(child_names(&fs, 2), vec![(String::from("b"), 5), (String::from("c"), 6)]);
    assert!(matches!(fs.lookup(2, "a", 231), Step::Failed(FsError::NotFound)));
    match fs.lookup(2, "c", 231) {
        Step::Ready(reply) => {
            assert_eq!(reply.attr.ino, 6);
            assert_eq!(reply.attr.kind, Kind::Directory);
            assert_eq!(reply.ttl, 5);
        }
        other => panic!("the addition shows: {:?}", other),
    }
    assert_eq!(fs.getattr(4).unwrap().attr.ino, 4);
}

#[test]
fn a_clock_that_went_back_leaves_a_listing_valid() {
    let fs = bridge(30);
    assert!(matches!(fs.readdir(1, 0, 50), Step::Ready(_)));
    assert!(matches!(fs.readdir(1, 0, 129), Step::Ready(_)));
    assert!(matches!(fs.readdir(1, 0, 130), Step::Fetch(Fetch::Repositories)));
}

#[test]
fn a_zero_time_to_live_always_asks_again() {
    let fs = bridge(0);
    assert!(matches!(fs.readdir(1, 0, 100), Step::Fetch(Fetch::Repositories)));
    let items = fs.readdir_cached(1, 0).unwrap();
    assert_eq!(items.len(), 4);
}

#[test]
fn a_failed_fetch_leaves_the_cache_as_it_was() {
    let mut fs = bridge(60);
    assert_eq!(fs.load_files(2, ProviderReply::Unreachable(String::from("connection refused")), 101).map_err(|failure| failure.kind), Err(FsError::TransientNetwork));
    assert_eq!(fs.load_files(2, ProviderReply::Malformed(String::from("expected value at line 1 column 1")), 101).map_err(|failure| failure.kind), Err(FsError::DecodeError));
    assert_eq!(fs.load_files(2, ProviderReply::Status(401, String::from("401"), Some(String::from("Bad credentials"))), 101).map_err(|failure| failure.kind), Err(FsError::AuthFailure));
    assert_eq!(fs.load_files(2, ProviderReply::Status(404, String::from("404"), Some(String::from("Not Found"))), 101).map_err(|failure| failure.kind), Err(FsError::NotFound));
    assert_eq!(fs.next_inode(), 4);
    assert!(matches!(fs.readdir(2, 0, 101), Step::Fetch(Fetch::Files { .. })));
    assert_eq!(fs.load_files(2, ProviderReply::Body(vec![file("a", "a", "file", None)]), 102), Ok(()));
    assert_eq!(fs.load_files(2, ProviderReply::Unreachable(String::from("connection refused")), 103).map_err(|failure| failure.kind), Err(FsError::TransientNetwork));
    assert_eq!(child_names(&fs, 2), vec![(String::from("a"), 4)]);
    assert!(matches!(fs.readdir(2, 0, 104), Step::Ready(_)));
}

#[test]
fn a_listing_is_committed_only_for_a_known_directory() {
    let mut fs = bridge(60);
    assert_eq!(fs.load_files(2, ProviderReply::Body(vec![file("a", "a", "file", None)]), 101), Ok(()));
    assert_eq!(fs.load_files(4, ProviderReply::Body(Vec::new()), 101).map_err(|failure| failure.kind), Err(FsError::NotFound));
    assert_eq!(fs.load_files(9, ProviderReply::Body(Vec::new()), 101).map_err(|failure| failure.kind), Err(FsError::NotFound));
    assert_eq!(fs.load_files(1, ProviderReply::Body(Vec::new()), 101).map_err(|failure| failure.kind), Err(FsError::NotFound));
    assert_eq!(fs.load_files(0, ProviderReply::Body(Vec::new()), 101).map_err(|failure| failure.kind), Err(FsError::NotFound));
}

#[test]
fn enumeration_resumes_from_any_cursor() {
    let mut fs = bridge(60);
    let listing = vec![file("z", "z", "file", None), file("a", "a", "dir", None), file("m", "m", "file", None)];
    assert_eq!(fs.load_files(2, ProviderReply::Body(listing), 101), Ok(()));
    let all = fs.readdir_cached(2, 0).unwrap();
    let names: Vec<&str> = all.iter().map(|item| item.name.as_str()).collect();
    assert_eq!(names, vec![".", "..", "z", "a", "m"]);
    let inodes: Vec<u64> = all.iter().map(|item| item.inode).collect();
    assert_eq!(inodes, vec![2, 2, 4, 5, 6]);
    let cursors: Vec<u64> = all.iter().map(|item| item.offset).collect();
    assert_eq!(cursors, vec![1, 2, 3, 4, 5]);
    assert_eq!(all[3].kind, Kind::Directory);
    let mut cursor: u64 = 0;
    while cursor <= 5 {
        let rest = fs.readdir_cached(2, cursor).unwrap();
        assert_eq!(rest.len() as u64, 5 - cursor);
        if cursor < 5 {
            assert_eq!(rest[0].name, all[cursor as usize].name);
            assert_eq!(rest[0].offset, cursor + 1);
        }
        cursor += 1;
    }
    assert!(fs.readdir_cached(2, 6).unwrap().is_empty());
    assert!(fs.readdir_cached(2, u64::MAX).unwrap().is_empty());
    assert!(matches!(fs.readdir(2, 5, 102), Step::Ready(items) if items.is_empty()));
}

#[test]
fn enumeration_of_what_is_no_directory_is_not_found() {
    let mut fs = bridge(60);
    assert_eq!(fs.load_files(2, ProviderReply::Body(vec![file("a", "a", "file", None)]), 101), Ok(()));
    assert!(matches!(fs.readdir(4, 0, 101), Step::Failed(FsError::NotFound)));
    assert!(matches!(fs.readdir(77, 0, 101), Step::Failed(FsError::NotFound)));
    assert!(matches!(fs.readdir(0, 0, 101), Step::Failed(FsError::NotFound)));
    assert_eq!(fs.readdir_cached(4, 0).err(), Some(FsError::NotFound));
}

#[test]
fn the_first_of_two_children_with_one_name_wins() {
    let mut fs = bridge(60);
    let listing = vec![file("dup", "first/dup", "file", None), file("dup", "second/dup", "dir", None)];
    assert_eq!(fs.load_files(2, ProviderReply::Body(listing), 101), Ok(()));
    match fs.lookup(2, "dup", 101) {
        Step::Ready(reply) => {
            assert_eq!(reply.attr.ino, 4);
            assert_eq!(reply.attr.kind, Kind::File);
        }
        other => panic!("the first match wins: {:?}", other),
    }
    assert_eq!(fs.lookup_cached(2, "dup").unwrap().attr.ino, 4);
    assert_eq!(fs.lookup_cached(2, "Dup"), Err(FsError::NotFound));
    assert_eq!(fs.lookup_cached(3, "dup"), Err(FsError::NotFound));
}

#[test]
fn a_path_listed_twice_takes_the_kind_listed_last_for_both_children() {
    let mut fs = bridge(60);
    let listing = vec![file("a", "p", "dir", None), file("b", "p", "file", None)];
    assert_eq!(fs.load_files(2, ProviderReply::Body(listing), 101), Ok(()));
    let items = fs.readdir_cached(2, 2).unwrap();
    assert_eq!(items.len(), 2);
    assert_eq!((items[0].name.as_str(), items[0].inode, items[0].kind), ("a", 4, Kind::File));
    assert_eq!((items[1].name.as_str(), items[1].inode, items[1].kind), ("b", 4, Kind::File));
    for item in &items {
        let found = fs.lookup_cached(2, &item.name).unwrap();
        assert_eq!(found.attr.ino, item.inode);
        assert_eq!(found.attr.kind, item.kind);
        assert_eq!(fs.getattr(item.inode).unwrap().attr, found.attr);
    }
    assert!(matches!(fs.lookup(2, "a", 101), Step::Ready(reply) if reply.attr.kind == Kind::File));
    assert_eq!(fs.next_inode(), 5);
    let reversed = vec![file("a", "p", "file", None), file("b", "p", "dir", None)];
    assert_eq!(fs.load_files(2, ProviderReply::Body(reversed), 102), Ok(()));
    let items = fs.readdir_cached(2, 2).unwrap();
    assert_eq!((items[0].inode, items[0].kind), (4, Kind::Directory));
    assert_eq!((items[1].inode, items[1].kind), (4, Kind::Directory));
    assert_eq!(fs.lookup_cached(2, "a").unwrap().attr.kind, Kind::Directory);
}

#[test]
fn lookup_enumeration_and_attributes_agree_across_directories() {
    let mut fs = bridge(60);
    let first = vec![file("one", "shared", "file", None), file("d", "d", "dir", None)];
    assert_eq!(fs.load_files(2, ProviderReply::Body(first), 101), Ok(()));
    assert_eq!(fs.lookup_cached(2, "one").unwrap().attr.kind, Kind::File);
    assert_eq!(fs.load_files(5, ProviderReply::Body(vec![file("two", "shared", "dir", None)]), 102), Ok(()));
    assert_eq!(fs.readdir_cached(5, 2).unwrap()[0].inode, 4);
    assert_eq!(fs.lookup_cached(2, "one").unwrap().attr.kind, Kind::Directory);
    assert_eq!(fs.readdir_cached(2, 2).unwrap()[0].kind, Kind::Directory);
    for dir in [2u64, 5u64] {
        for item in fs.readdir_cached(dir, 2).unwrap() {
            let found = fs.lookup_cached(dir, &item.name).unwrap();
            assert_eq!((found.attr.ino, found.attr.kind), (item.inode, item.kind));
            assert_eq!(fs.getattr(item.inode).unwrap().attr, found.attr);
        }
    }
}

#[test]
fn a_directory_that_lists_itself_stays_a_directory() {
    let mut fs = bridge(60);
    assert_eq!(fs.load_files(2, ProviderReply::Body(vec![file("src", "src", "dir", None)]), 101), Ok(()));
    assert_eq!(fs.load_files(4, ProviderReply::Body(vec![file("self", "src", "file", Some(9))]), 102), Ok(()));
    assert_eq!(fs.getattr(4).unwrap().attr.kind, Kind::Directory);
    assert_eq!(fs.getattr(4).unwrap().attr.size, 0);
    let items = fs.readdir_cached(4, 2).unwrap();
    assert_eq!((items[0].name.as_str(), items[0].inode, items[0].kind), ("self", 4, Kind::Directory));
    assert!(matches!(fs.readdir(4, 0, 103), Step::Ready(_)));
}

#[test]
fn a_listed_entry_cannot_turn_a_directory_into_a_file() {
    let mut fs = bridge(60);
    assert_eq!(fs.load_files(2, ProviderReply::Body(vec![file("x", "", "file", None)]), 101), Ok(()));
    assert_eq!(fs.getattr(2).unwrap().attr.kind, Kind::Directory);
    let items = fs.readdir_cached(2, 2).unwrap();
    assert_eq!((items[0].name.as_str(), items[0].inode, items[0].kind), ("x", 2, Kind::Directory));
    assert!(matches!(fs.readdir(2, 0, 102), Step::Ready(_)));
    assert_eq!(fs.load_files(2, ProviderReply::Body(vec![file("y", "y", "file", None)]), 103), Ok(()));
    assert_eq!(fs.read(2).err(), Some(FsError::IsADirectory));
    match fs.lookup(1, "lib", 104) {
        Step::Ready(reply) => assert_eq!((reply.attr.ino, reply.attr.kind), (2, Kind::Directory)),
        other => panic!("the collection is still a directory: {:?}", other),
    }
}

#[test]
fn a_file_replaced_by_a_directory_keeps_its_inode_and_can_be_entered() {
    let mut fs = bridge(30);
    assert_eq!(fs.load_files(2, ProviderReply::Body(vec![file("a", "a", "file", Some(300))]), 200), Ok(()));
    assert_eq!(fs.getattr(4).unwrap().attr.size, 300);
    assert_eq!(fs.load_files(2, ProviderReply::Body(vec![file("a", "a", "dir", None)]), 300), Ok(()));
    let found = fs.lookup_cached(2, "a").unwrap();
    assert_eq!((found.attr.ino, found.attr.kind, found.attr.perm), (4, Kind::Directory, 0o755));
    assert_eq!((found.attr.size, found.attr.mtime), (0, 300));
    assert_eq!(fs.readdir_cached(2, 2).unwrap()[0].kind, Kind::Directory);
    assert_eq!(fs.getattr(4).unwrap().attr, found.attr);
    assert_eq!(fs.read(4).err(), Some(FsError::IsADirectory));
    assert!(matches!(fs.readdir(4, 0, 301), Step::Fetch(Fetch::Files { collection, path }) if collection == "acme/lib" && path == "a"));
    assert_eq!(fs.load_files(4, ProviderReply::Body(vec![file("b", "a/b", "file", None)]), 301), Ok(()));
    assert_eq!(fs.next_inode(), 6);
}

#[test]
fn a_directory_replaced_by_a_file_keeps_its_inode_and_can_be_read() {
    let mut fs = bridge(30);
    assert_eq!(fs.load_files(2, ProviderReply::Body(vec![file("a", "a", "dir", None)]), 200), Ok(()));
    assert_eq!(fs.load_files(4, ProviderReply::Body(vec![file("b", "a/b", "file", None)]), 201), Ok(()));
    assert!(matches!(fs.readdir(4, 0, 202), Step::Ready(_)));
    assert_eq!(fs.load_files(2, ProviderReply::Body(vec![file("a", "a", "file", Some(12))]), 300), Ok(()));
    let found = fs.lookup_cached(2, "a").unwrap();
    assert_eq!((found.attr.ino, found.attr.kind, found.attr.perm, found.attr.size), (4, Kind::File, 0o644, 12));
    assert!(matches!(fs.read(4), Ok(Fetch::Content { collection, path }) if collection == "acme/lib" && path == "a"));
    assert!(matches!(fs.readdir(4, 0, 301), Step::Failed(FsError::NotFound)));
    assert!(matches!(fs.lookup(4, "b", 301), Step::Failed(FsError::NotFound)));
    assert_eq!(fs.readdir_cached(4, 0).err(), Some(FsError::NotFound));
    assert_eq!(fs.load_files(4, ProviderReply::Body(Vec::new()), 301).map_err(|failure| failure.kind), Err(FsError::NotFound));
    assert_eq!(fs.getattr(5).unwrap().attr.ino, 5);
}

#[test]
fn a_directory_that_was_a_file_in_between_is_listed_anew() {
    let mut fs = bridge(1000);
    assert_eq!(fs.load_files(2, ProviderReply::Body(vec![file("a", "a", "dir", None)]), 200), Ok(()));
    assert_eq!(fs.load_files(4, ProviderReply::Body(vec![file("old", "a/old", "file", None)]), 201), Ok(()));
    assert!(matches!(fs.readdir(4, 0, 202), Step::Ready(items) if items.len() == 3));
    assert_eq!(fs.load_files(2, ProviderReply::Body(vec![file("a", "a", "file", None)]), 203), Ok(()));
    assert_eq!(fs.load_files(2, ProviderReply::Body(vec![file("a", "a", "dir", None)]), 204), Ok(()));
    assert_eq!(fs.getattr(4).unwrap().attr.kind, Kind::Directory);
    assert_eq!(fs.readdir_cached(4, 0).err(), Some(FsError::NotFound));
    assert!(matches!(fs.readdir(4, 0, 205), Step::Fetch(Fetch::Files { .. })));
    assert!(matches!(fs.lookup(4, "old", 205), Step::Fetch(Fetch::Files { .. })));
    assert!(matches!(fs.readdir(2, 0, 205), Step::Ready(_)));
    assert!(matches!(fs.readdir(1, 0, 205), Step::Ready(_)));
}

#[test]
fn a_listing_survives_the_refresh_of_its_parent_while_it_stays_a_directory() {
    let mut fs = bridge(1000);
    assert_eq!(fs.load_files(2, ProviderReply::Body(vec![file("a", "a", "dir", None)]), 200), Ok(()));
    assert_eq!(fs.load_files(4, ProviderReply::Body(vec![file("b", "a/b", "file", None)]), 201), Ok(()));
    let again = vec![file("a", "a", "file", None), file("a", "a", "dir", None), file("c", "c", "file", None)];
    assert_eq!(fs.load_files(2, ProviderReply::Body(again), 202), Ok(()));
    assert!(matches!(fs.readdir(4, 0, 203), Step::Ready(items) if items.len() == 3));
    assert_eq!(fs.lookup_cached(4, "b").unwrap().attr.ino, 5);
}

#[test]
fn reading_needs_a_file() {
    let mut fs = bridge(60);
    assert_eq!(fs.load_files(2, ProviderReply::Body(vec![file("a", "dir/a", "file", None)]), 101), Ok(()));
    assert_eq!(fs.read(1).err(), Some(FsError::IsADirectory));
    assert_eq!(fs.read(2).err(), Some(FsError::IsADirectory));
    assert_eq!(fs.read(5).err(), Some(FsError::NotFound));
    assert_eq!(fs.read(0).err(), Some(FsError::NotFound));
    assert!(matches!(fs.read(4), Ok(Fetch::Content { collection, path }) if collection == "acme/lib" && path == "dir/a"));
}

#[test]
fn the_size_of_a_file_is_hinted_or_found_out_by_a_read() {
    let mut fs = bridge(60);
    let listing = vec![file("a", "a", "file", Some(300)), file("b", "b", "file", None)];
    assert_eq!(fs.load_files(2, ProviderReply::Body(listing), 101), Ok(()));
    assert_eq!(fs.getattr(4).unwrap().attr.size, 300);
    assert_eq!(fs.getattr(5).unwrap().attr.size, 0);
    let content: Vec<u8> = b"twelve bytes".to_vec();
    assert_eq!(fs.complete_read(5, &content, 7, 100), b"bytes".to_vec());
    assert_eq!(fs.getattr(5).unwrap().attr.size, 12);
    assert_eq!(fs.complete_read(5, &content, 12, 100), Vec::<u8>::new());
    assert_eq!(fs.attr(5).unwrap().size, 12);
    assert_eq!(fs.attr(5).unwrap().blocks, 1);
    assert_eq!(fs.attr(5).unwrap().nlink, 2);
    assert_eq!(fs.attr(5).unwrap().blksize, 512);
    assert_eq!(fs.attr(99), None);
    assert_eq!(fs.complete_read(2, &content, 0, 4), b"twel".to_vec());
    assert_eq!(fs.getattr(2).unwrap().attr.size, 0);
    assert_eq!(fs.complete_read(1, &content, 0, 4), b"twel".to_vec());
    assert_eq!(fs.getattr(1).unwrap().attr.size, 0);
    assert_eq!(fs.complete_read(77, &content, 0, 4), b"twel".to_vec());
    assert_eq!(fs.getattr(77), Err(FsError::NotFound));
}

#[test]
fn replies_about_collections_and_content_are_classified() {
    let fs = bridge(60);
    let listed = fs.fetch_repositories(ProviderReply::Body(vec![GitHubRepository {
        name: String::from("lib"),
        full_name: String::from("acme/lib"),
    }]));
    assert_eq!(listed.unwrap()[0].full_name, "acme/lib");
    assert_eq!(fs.fetch_repositories(ProviderReply::Unreachable(String::from("connection refused"))).err().map(|failure| failure.kind), Some(FsError::TransientNetwork));
    assert_eq!(fs.fetch_repositories(ProviderReply::Status(403, String::from("403"), Some(String::new()))).err().map(|failure| failure.kind), Some(FsError::AuthFailure));
    assert_eq!(fs.fetch_file_content(ProviderReply::Malformed(String::from("expected value at line 1 column 1"))).map_err(|failure| failure.kind), Err(FsError::DecodeError));
    assert_eq!(fs.fetch_file_content(ProviderReply::Status(404, String::from("404"), Some(String::new()))).map_err(|failure| failure.kind), Err(FsError::NotFound));
}

#[test]
fn failures_of_the_provider_keep_status_and_text() {
    let mut fs = bridge(60);
    let listing = fs
        .load_files(
            2,
            ProviderReply::Status(403, String::from("403 Forbidden"), Some(String::from("rate limit exceeded"))),
            101,
        )
        .unwrap_err();
    assert_eq!(listing.kind, FsError::AuthFailure);
    assert_eq!(listing.message, "GitHub API request failed with status 403 Forbidden: rate limit exceeded");
    let collections = fs
        .fetch_repositories(ProviderReply::Status(500, String::from("500 Internal Server Error"), None))
        .unwrap_err();
    assert_eq!(collections.kind, FsError::TransientNetwork);
    assert_eq!(
        collections.message,
        "GitHub API request failed with status 500 Internal Server Error: No additional error message"
    );
    let content = fs
        .fetch_file_content(ProviderReply::Status(404, String::from("404 Not Found"), Some(String::from("gone"))))
        .unwrap_err();
    assert_eq!(content.kind, FsError::NotFound);
    assert_eq!(content.message, "GitHub API request failed with status 404 Not Found: gone");
    let unknown = fs.load_files(9, ProviderReply::Body(Vec::new()), 101).unwrap_err();
    assert_eq!(unknown.kind, FsError::NotFound);
    assert_eq!(unknown.message, "Repository not found");
}

#[test]
fn a_fetch_becomes_a_request_with_the_credential_of_the_mount() {
    let fs = bridge(60);
    let collections = fs.request_for(&Fetch::Repositories);
    assert_eq!(collections.url, "https://api.github.com/user/repos");
    assert_eq!(collections.authorization, "Bearer secret");
    let files = fs.request_for(&Fetch::Files { collection: String::from("acme/lib"), path: String::from("src") });
    assert_eq!(files.url, "https://api.github.com/repos/acme/lib/contents/src");
    let content = fs.request_for(&Fetch::Content { collection: String::from("acme/lib"), path: String::from("a.txt") });
    assert_eq!(content.url, "https://api.github.com/repos/acme/lib/contents/a.txt");
    assert_eq!(content.accept, "application/vnd.github.v3+json");
    assert_eq!(content.user_agent, "GitHubFS");
}

#[test]
fn only_the_word_dir_makes_a_directory() {
    assert_eq!(kind_from_type("dir"), Kind::Directory);
    assert_eq!(kind_from_type("file"), Kind::File);
    assert_eq!(kind_from_type("symlink"), Kind::File);
    assert_eq!(kind_from_type("Dir"), Kind::File);
    assert_eq!(kind_from_type(""), Kind::File);
}

#[test]
fn a_child_is_found_by_its_exact_name() {
    let entries = vec![
        DirEntry { name: String::from("a"), inode: 4 },
        DirEntry { name: String::from("b"), inode: 5 },
        DirEntry { name: String::from("a"), inode: 6 },
    ];
    assert_eq!(find_child(&entries, "a"), Some(0));
    assert_eq!(find_child(&entries, "b"), Some(1));
    assert_eq!(find_child(&entries, "c"), None);
    assert_eq!(find_child(&entries, "A"), None);
    assert_eq!(find_child(&Vec::new(), "a"), None);
}

#[test]
fn the_cache_serves_a_listing_while_it_is_young() {
    let mut cache = DirectoryCache::new(10);
    assert_eq!(cache.ttl(), 10);
    assert!(!cache.is_populated(7));
    assert!(cache.children(7, 0).is_none());
    cache.store(7, vec![DirEntry { name: String::from("a"), inode: 4 }], 100);
    assert!(cache.is_populated(7));
    assert_eq!(cache.children(7, 100).unwrap().len(), 1);
    assert_eq!(cache.children(7, 109).unwrap()[0].name, "a");
    assert!(cache.children(7, 110).is_none());
    assert!(cache.children(7, u64::MAX).is_none());
    assert_eq!(cache.children(7, 3).unwrap().len(), 1);
    assert_eq!(cache.retained(7).unwrap().len(), 1);
    assert!(cache.retained(8).is_none());
    cache.store(7, Vec::new(), 200);
    assert!(cache.children(7, 205).unwrap().is_empty());
    cache.forget(8);
    assert!(cache.is_populated(7));
    cache.forget(7);
    assert!(!cache.is_populated(7));
    assert!(cache.retained(7).is_none());
    assert!(cache.children(7, 205).is_none());
}
