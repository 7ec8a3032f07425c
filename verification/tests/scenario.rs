use githubfs::content::GitHubFileContent;
use githubfs::error::FsError;
use githubfs::fs::{DirItem, Fetch, GitHubFS, GitHubFile, GitHubRepository, Step};
use githubfs::kind::Kind;
use githubfs::provider::ProviderReply;

fn names(items: &Vec<DirItem>) -> Vec<String> {
    items.iter().map(|item| item.name.clone()).collect()
}

fn mounted() -> GitHubFS {
    let mut fs = GitHubFS::new(String::from("acme"), String::from("secret"));
    let repositories = vec![GitHubRepository { name: String::from("lib"), full_name: String::from("acme/lib") }];
    assert!(fs.can_hold(repositories.len()));
    fs.mount_repositories(&repositories, 1000);
    fs
}

fn readme() -> GitHubFile {
    GitHubFile {
        name: String::from("README.md"),
        path: String::from("README.md"),
        file_type: String::from("file"),
        download_url: Some(String::from("https://raw.example/acme/lib/README.md")),
        size: None,
    }
}

#[test]
fn root_lists_the_collection_as_inode_two() {
    let fs = mounted();
    match fs.readdir(1, 0, 1001) {
        Step::Ready(items) => {
            assert_eq!(names(&items), vec![".", "..", "lib"]);
            assert_eq!(items[2].inode, 2);
            assert_eq!(items[2].kind, Kind::Directory);
            assert_eq!(items[0].offset, 1);
            assert_eq!(items[1].offset, 2);
            assert_eq!(items[2].offset, 3);
        }
        other => panic!("root listing should be served from the cache: {:?}", other),
    }
}

#[test]
fn listing_the_collection_asks_for_its_root_and_gives_inode_three() {
    let mut fs = mounted();
    match fs.readdir(2, 0, 1001) {
        Step::Fetch(Fetch::Files { collection, path }) => {
            assert_eq!(collection, "acme/lib");
            assert_eq!(path, "");
        }
        other => panic!("an unvisited directory needs its listing: {:?}", other),
    }
    assert_eq!(fs.load_files(2, ProviderReply::Body(vec![readme()]), 1001), Ok(()));
    let items = fs.readdir_cached(2, 0).unwrap();
    assert_eq!(names(&items), vec![".", "..", "README.md"]);
    assert_eq!(items[2].inode, 3);
    assert_eq!(items[2].kind, Kind::File);
    match fs.readdir(2, 0, 1002) {
        Step::Ready(again) => assert_eq!(names(&again), vec![".", "..", "README.md"]),
        other => panic!("a fresh listing is served without a remote call: {:?}", other),
    }
}

#[test]
fn reading_the_file_returns_its_first_four_bytes() {
    let mut fs = mounted();
    assert_eq!(fs.load_files(2, ProviderReply::Body(vec![readme()]), 1001), Ok(()));
    match fs.read(3) {
        Ok(Fetch::Content { collection, path }) => {
            assert_eq!(collection, "acme/lib");
            assert_eq!(path, "README.md");
        }
        other => panic!("a file read needs the content: {:?}", other),
    }
    let body = GitHubFileContent { content: String::from("aGVsbG8gd29ybGQ="), encoding: String::from("base64") };
    let content = fs.fetch_file_content(ProviderReply::Body(body)).unwrap();
    assert_eq!(content, b"hello world".to_vec());
    assert_eq!(fs.complete_read(3, &content, 0, 4), b"hell".to_vec());
}

#[test]
fn attributes_of_the_file_are_regular_and_read_only() {
    let mut fs = mounted();
    assert_eq!(fs.load_files(2, ProviderReply::Body(vec![readme()]), 1001), Ok(()));
    let reply = fs.getattr(3).unwrap();
    assert_eq!(reply.attr.ino, 3);
    assert_eq!(reply.attr.kind, Kind::File);
    assert_eq!(reply.attr.perm, 0o644);
    assert_eq!(reply.attr.size, 0);
    assert_eq!(reply.attr.mtime, 1001);
    assert_eq!(reply.ttl, 1);
    let dir = fs.getattr(2).unwrap();
    assert_eq!(dir.attr.kind, Kind::Directory);
    assert_eq!(dir.attr.perm, 0o755);
    let root = fs.getattr(1).unwrap();
    assert_eq!(root.attr.ino, 1);
    assert_eq!(root.attr.kind, Kind::Directory);
    assert_eq!(root.attr.perm, 0o755);
    assert_eq!(fs.getattr(4), Err(FsError::NotFound));
    assert_eq!(fs.getattr(0), Err(FsError::NotFound));
}

#[test]
fn lookup_of_the_collection_and_of_the_file() {
    let mut fs = mounted();
    match fs.lookup(1, "lib", 1001) {
        Step::Ready(reply) => {
            assert_eq!(reply.attr.ino, 2);
            assert_eq!(reply.attr.kind, Kind::Directory);
            assert_eq!(reply.ttl, 1);
        }
        other => panic!("the collection is in the root listing: {:?}", other),
    }
    assert!(matches!(fs.lookup(1, "other", 1001), Step::Failed(FsError::NotFound)));
    assert!(matches!(fs.lookup(2, "README.md", 1001), Step::Fetch(Fetch::Files { .. })));
    assert_eq!(fs.load_files(2, ProviderReply::Body(vec![readme()]), 1001), Ok(()));
    match fs.lookup(2, "README.md", 1001) {
        Step::Ready(reply) => {
            assert_eq!(reply.attr.ino, 3);
            assert_eq!(reply.attr.kind, Kind::File);
        }
        other => panic!("the file is in the listing: {:?}", other),
    }
    assert!(matches!(fs.lookup(2, "readme.md", 1001), Step::Failed(FsError::NotFound)));
    assert!(matches!(fs.lookup(3, "x", 1001), Step::Failed(FsError::NotFound)));
    assert!(matches!(fs.lookup(9, "x", 1001), Step::Failed(FsError::NotFound)));
}
