use githubfs::options::{parse_mount_option, parse_mount_options, ConfigError, MountFlag};

fn words(list: &[&str]) -> Vec<String> {
    list.iter().map(|word| String::from(*word)).collect()
}

#[test]
fn a_writable_mount_is_refused() {
    let refused = parse_mount_options(&words(&["rw"]));
    assert!(matches!(refused, Err(ConfigError::WritableMount)));
    let late = parse_mount_options(&words(&["nodev", "ro", "rw"]));
    assert!(matches!(late, Err(ConfigError::WritableMount)));
    assert!(matches!(parse_mount_option("rw"), Err(ConfigError::WritableMount)));
}

#[test]
fn the_refusal_of_a_writable_mount_says_why() {
    assert_eq!(ConfigError::WritableMount.message(), "GitHubFS filesystem must be read-only");
}

#[test]
fn an_unknown_option_is_refused_by_name() {
    match parse_mount_options(&words(&["nodev", "bogus", "rw"])) {
        Err(ConfigError::UnknownOption(word)) => assert_eq!(word, "bogus"),
        other => panic!("the first refused word decides: {:?}", other),
    }
    match parse_mount_option("RO") {
        Err(error) => assert_eq!(error.message(), "Unknown option (RO)"),
        other => panic!("option words are case-sensitive: {:?}", other),
    }
    match parse_mount_option("") {
        Err(error) => assert_eq!(error.message(), "Unknown option ()"),
        other => panic!("the empty word is no option: {:?}", other),
    }
}

#[test]
fn every_recognised_word_has_its_flag() {
    assert_eq!(parse_mount_option("dev").unwrap(), MountFlag::Dev);
    assert_eq!(parse_mount_option("nodev").unwrap(), MountFlag::NoDev);
    assert_eq!(parse_mount_option("suid").unwrap(), MountFlag::Suid);
    assert_eq!(parse_mount_option("nosuid").unwrap(), MountFlag::NoSuid);
    assert_eq!(parse_mount_option("ro").unwrap(), MountFlag::RO);
    assert_eq!(parse_mount_option("exec").unwrap(), MountFlag::Exec);
    assert_eq!(parse_mount_option("noexec").unwrap(), MountFlag::NoExec);
    assert_eq!(parse_mount_option("atime").unwrap(), MountFlag::Atime);
    assert_eq!(parse_mount_option("noatime").unwrap(), MountFlag::NoAtime);
    assert_eq!(parse_mount_option("dirsync").unwrap(), MountFlag::DirSync);
    assert_eq!(parse_mount_option("sync").unwrap(), MountFlag::Sync);
    assert_eq!(parse_mount_option("async").unwrap(), MountFlag::Async);
}

#[test]
fn an_accepted_request_is_always_read_only() {
    assert_eq!(parse_mount_options(&words(&[])).unwrap(), vec![MountFlag::RO]);
    assert_eq!(
        parse_mount_options(&words(&["nodev", "noatime"])).unwrap(),
        vec![MountFlag::NoDev, MountFlag::NoAtime, MountFlag::RO]
    );
    assert_eq!(
        parse_mount_options(&words(&["ro", "nosuid"])).unwrap(),
        vec![MountFlag::RO, MountFlag::NoSuid]
    );
    assert_eq!(
        parse_mount_options(&words(&["sync", "ro", "ro"])).unwrap(),
        vec![MountFlag::Sync, MountFlag::RO, MountFlag::RO]
    );
}
