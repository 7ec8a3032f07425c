//! Mount options: which ones are recognised, and the rule that the mount
//! is read-only whatever was asked.

use vstd::prelude::*;
use crate::text::{owned, text_eq};

verus! {

/// A mount option the bridge passes on to the kernel.
#[derive(Clone, Copy, Debug, PartialEq, Eq, Structural)]
pub enum MountFlag {
    Dev,
    NoDev,
    Suid,
    NoSuid,
    RO,
    Exec,
    NoExec,
    Atime,
    NoAtime,
    DirSync,
    Sync,
    Async,
}

/// Why a mount option was refused.
#[derive(Debug)]
pub enum ConfigError {
    /// A writable mount was asked for.
    WritableMount,
    /// The option is not one the bridge knows.
    UnknownOption(String),
}

/// Why a mount option was refused, as plain values.
pub enum ConfigProblem {
    WritableMount,
    UnknownOption(Seq<char>),
}

impl View for ConfigError {
    type V = ConfigProblem;

    open spec fn view(&self) -> ConfigProblem {
        match self {
            ConfigError::WritableMount => ConfigProblem::WritableMount,
            ConfigError::UnknownOption(opt) => ConfigProblem::UnknownOption(opt@),
        }
    }
}

impl ConfigError {
    /// The words that describe the refusal.
    pub open spec fn spec_message(problem: ConfigProblem) -> Seq<char> {
        match problem {
            ConfigProblem::WritableMount => "GitHubFS filesystem must be read-only"@,
            ConfigProblem::UnknownOption(opt) => "Unknown option ("@ + opt + ")"@,
        }
    }

    /// A description of the refusal for the person who asked for the mount.
    pub fn message(&self) -> (text: String)
        ensures
            text@ == Self::spec_message(self@),
    {
        match self {
            ConfigError::WritableMount => owned("GitHubFS filesystem must be read-only"),
            ConfigError::UnknownOption(opt) => {
                let mut text = owned("Unknown option (");
                text.append(opt.as_str());
                text.append(")");
                text
            },
        }
    }
}

/// What one option word means. `rw` is refused, because the filesystem is
/// read-only by contract; a word outside the list is refused as unknown.
pub open spec fn option_meaning(opt: Seq<char>) -> Result<MountFlag, ConfigProblem> {
    if opt == "rw"@ {
        Err(ConfigProblem::WritableMount)
    } else if opt == "dev"@ {
        Ok(MountFlag::Dev)
    } else if opt == "nodev"@ {
        Ok(MountFlag::NoDev)
    } else if opt == "suid"@ {
        Ok(MountFlag::Suid)
    } else if opt == "nosuid"@ {
        Ok(MountFlag::NoSuid)
    } else if opt == "ro"@ {
        Ok(MountFlag::RO)
    } else if opt == "exec"@ {
        Ok(MountFlag::Exec)
    } else if opt == "noexec"@ {
        Ok(MountFlag::NoExec)
    } else if opt == "atime"@ {
        Ok(MountFlag::Atime)
    } else if opt == "noatime"@ {
        Ok(MountFlag::NoAtime)
    } else if opt == "dirsync"@ {
        Ok(MountFlag::DirSync)
    } else if opt == "sync"@ {
        Ok(MountFlag::Sync)
    } else if opt == "async"@ {
        Ok(MountFlag::Async)
    } else {
        Err(ConfigProblem::UnknownOption(opt))
    }
}

/// Reads one option word.
pub fn parse_mount_option(opt: &str) -> (parsed: Result<MountFlag, ConfigError>)
    ensures
        match parsed {
            Ok(flag) => option_meaning(opt@) == Ok::<MountFlag, ConfigProblem>(flag),
            Err(e) => option_meaning(opt@) == Err::<MountFlag, ConfigProblem>(e@),
        },
{
    if text_eq(opt, "rw") {
        Err(ConfigError::WritableMount)
    } else if text_eq(opt, "dev") {
        Ok(MountFlag::Dev)
    } else if text_eq(opt, "nodev") {
        Ok(MountFlag::NoDev)
    } else if text_eq(opt, "suid") {
        Ok(MountFlag::Suid)
    } else if text_eq(opt, "nosuid") {
        Ok(MountFlag::NoSuid)
    } else if text_eq(opt, "ro") {
        Ok(MountFlag::RO)
    } else if text_eq(opt, "exec") {
        Ok(MountFlag::Exec)
    } else if text_eq(opt, "noexec") {
        Ok(MountFlag::NoExec)
    } else if text_eq(opt, "atime") {
        Ok(MountFlag::Atime)
    } else if text_eq(opt, "noatime") {
        Ok(MountFlag::NoAtime)
    } else if text_eq(opt, "dirsync") {
        Ok(MountFlag::DirSync)
    } else if text_eq(opt, "sync") {
        Ok(MountFlag::Sync)
    } else if text_eq(opt, "async") {
        Ok(MountFlag::Async)
    } else {
        Err(ConfigError::UnknownOption(owned(opt)))
    }
}

/// The option words of a list, as plain values.
pub open spec fn words(options: Seq<String>) -> Seq<Seq<char>> {
    Seq::new(options.len(), |i: int| options[i]@)
}

/// Whether position `i` holds the first word of the list that is refused.
pub open spec fn first_refused(opts: Seq<Seq<char>>, i: int) -> bool {
    &&& 0 <= i < opts.len()
    &&& option_meaning(opts[i]) is Err
    &&& forall|j: int| 0 <= j < i ==> option_meaning(#[trigger] opts[j]) is Ok
}

/// Whether every word of the list is accepted.
pub open spec fn all_accepted(opts: Seq<Seq<char>>) -> bool {
    forall|i: int| 0 <= i < opts.len() ==> option_meaning(#[trigger] opts[i]) is Ok
}

/// The flags that a list of accepted words stands for, in the order given.
pub open spec fn meanings(opts: Seq<Seq<char>>) -> Seq<MountFlag> {
    Seq::new(opts.len(), |i: int| option_meaning(opts[i])->Ok_0)
}

/// The flags with read-only enforced: `RO` is added at the end unless it is
/// already among them.
pub open spec fn read_only(flags: Seq<MountFlag>) -> Seq<MountFlag> {
    if flags.contains(MountFlag::RO) {
        flags
    } else {
        flags.push(MountFlag::RO)
    }
}

/// Reads the option words of a mount request. The request is refused as a
/// whole at its first refused word, before anything is mounted; an accepted
/// request always comes out read-only.
pub fn parse_mount_options(options: &Vec<String>) -> (parsed: Result<Vec<MountFlag>, ConfigError>)
    ensures
        match parsed {
            Ok(flags) => all_accepted(words(options@)) && flags@ == read_only(meanings(words(options@))),
            Err(e) => exists|i: int|
                first_refused(words(options@), i) && option_meaning(#[trigger] words(options@)[i]) == Err::<
                    MountFlag,
                    ConfigProblem,
                >(e@),
        },
        parsed is Ok ==> parsed->Ok_0@.contains(MountFlag::RO),
        words(options@).contains("rw"@) ==> parsed is Err,
{
    let ghost opts = words(options@);
    let mut flags: Vec<MountFlag> = Vec::new();
    let mut has_ro = false;
    let mut i: usize = 0;
    while i < options.len()
        invariant
            i <= options@.len(),
            opts == words(options@),
            flags@.len() == i,
            forall|j: int| 0 <= j < i ==> option_meaning(#[trigger] opts[j]) == Ok::<MountFlag, ConfigProblem>(
                flags@[j],
            ),
            has_ro == flags@.contains(MountFlag::RO),
        decreases options@.len() - i,
    {
        let ghost before = flags@;
        match parse_mount_option(options[i].as_str()) {
            Ok(flag) => {
                flags.push(flag);
                proof {
                    assert(opts[i as int] == options@[i as int]@);
                    if flag == MountFlag::RO {
                        assert(flags@[i as int] == MountFlag::RO);
                    } else if before.contains(MountFlag::RO) {
                        let k = choose|k: int| 0 <= k < before.len() && before[k] == MountFlag::RO;
                        assert(flags@[k] == MountFlag::RO);
                    } else {
                        assert forall|k: int| 0 <= k < flags@.len() implies flags@[k] != MountFlag::RO by {
                            if k < i {
                                assert(before[k] == flags@[k]);
                                assert(!before.contains(flags@[k]) || flags@[k] != MountFlag::RO);
                            }
                        }
                    }
                }
                if flag == MountFlag::RO {
                    has_ro = true;
                }
            },
            Err(e) => {
                proof {
                    assert(opts[i as int] == options@[i as int]@);
                    assert(first_refused(opts, i as int));
                }
                return Err(e);
            },
        }
        i = i + 1;
    }
    proof {
        assert(flags@ =~= meanings(opts));
        if opts.contains("rw"@) {
            let k = choose|k: int| 0 <= k < opts.len() && opts[k] == "rw"@;
            assert(option_meaning(opts[k]) is Ok);
        }
    }
    if !has_ro {
        flags.push(MountFlag::RO);
        proof {
            assert(flags@[flags@.len() - 1] == MountFlag::RO);
        }
    }
    Ok(flags)
}

} // verus!
