//! How a child process is launched: the directories its environment is
//! given, and how its command line is logged (words joined by spaces, the
//! value after `--auth-password` masked).

use vstd::prelude::*;
use crate::paths::{is_rooted, join, path_join, Platform};
use crate::text::{push_char, push_str, str_eq, strings_of};

verus! {

/// The words of a command line as logged: the word after each
/// `--auth-password` flag replaced by `***`.
pub open spec fn masked_words(args: Seq<Seq<char>>) -> Seq<Seq<char>>
    decreases args.len(),
{
    if args.len() == 0 {
        seq![]
    } else if args[0] == "--auth-password"@ && args.len() >= 2 {
        seq![args[0], "***"@] + masked_words(args.subrange(2, args.len() as int))
    } else {
        seq![args[0]] + masked_words(args.subrange(1, args.len() as int))
    }
}

/// `words` joined by single spaces.
pub open spec fn spaced(words: Seq<Seq<char>>) -> Seq<char>
    decreases words.len(),
{
    if words.len() == 0 {
        seq![]
    } else if words.len() == 1 {
        words[0]
    } else {
        spaced(words.drop_last()) + seq![' '] + words.last()
    }
}

proof fn lemma_spaced_push(words: Seq<Seq<char>>, w: Seq<char>)
    ensures
        spaced(words.push(w)) == if words.len() == 0 { w } else { spaced(words) + seq![' '] + w },
{
    assert(words.push(w).drop_last() =~= words);
}

/// The masked words of `args[from..]` after those of `args[..from]`.
proof fn lemma_masked_split(args: Seq<Seq<char>>, from: int)
    requires
        0 <= from <= args.len(),
    ensures
        masked_words(args.subrange(from, args.len() as int)) == if from == args.len() {
            seq![]
        } else if args[from] == "--auth-password"@ && args.len() - from >= 2 {
            seq![args[from], "***"@] + masked_words(args.subrange(from + 2, args.len() as int))
        } else {
            seq![args[from]] + masked_words(args.subrange(from + 1, args.len() as int))
        },
{
    let s = args.subrange(from, args.len() as int);
    if from < args.len() {
        assert(s[0] == args[from]);
        if args[from] == "--auth-password"@ && args.len() - from >= 2 {
            assert(s.subrange(2, s.len() as int) =~= args.subrange(from + 2, args.len() as int));
        } else {
            assert(s.subrange(1, s.len() as int) =~= args.subrange(from + 1, args.len() as int));
        }
    }
}

/// The texts of a slice of strings.
pub open spec fn words_of(args: Seq<String>) -> Seq<Seq<char>> {
    args.map_values(|s: String| s@)
}

/// Command line for logs, masking the auth password value.
pub fn redacted(args: &[String]) -> (r: String)
    ensures
        r@ == spaced(masked_words(words_of(args@))),
{
    let ghost all = words_of(args@);
    let ghost mut done: Seq<Seq<char>> = seq![];
    let mut out = String::new();
    let mut i: usize = 0;
    let n = args.len();
    assert(all.subrange(0, all.len() as int) =~= all);
    while i < n
        invariant
            n == args@.len(),
            all == words_of(args@),
            i <= n,
            out@ == spaced(done),
            (done.len() == 0) == (i == 0),
            done + masked_words(all.subrange(i as int, all.len() as int)) == masked_words(all),
        decreases n - i,
    {
        proof {
            lemma_masked_split(all, i as int);
        }
        let word = args[i].as_str();
        if i > 0 {
            push_char(&mut out, ' ');
        }
        push_str(&mut out, word);
        proof {
            lemma_spaced_push(done, word@);
            done = done.push(word@);
        }
        if str_eq(word, "--auth-password") && i + 1 < n {
            push_char(&mut out, ' ');
            push_str(&mut out, "***");
            proof {
                lemma_spaced_push(done, "***"@);
                done = done.push("***"@);
                assert(seq![all[i as int], "***"@] + masked_words(all.subrange(i + 2, all.len() as int))
                    =~= seq![all[i as int]] + seq!["***"@] + masked_words(all.subrange(i + 2, all.len() as int)));
            }
            i = i + 2;
        } else {
            i = i + 1;
        }
        assert(done + masked_words(all.subrange(i as int, all.len() as int)) =~= masked_words(all));
    }
    out
}

/// In the logged command line, every word the masking reads as an
/// `--auth-password` flag is followed by `***`, never by the password.
pub proof fn lemma_password_never_logged(args: Seq<Seq<char>>, secret: Seq<char>)
    requires
        args.len() >= 2,
        args[0] == "--auth-password"@,
        args[1] == secret,
    ensures
        masked_words(args)[1] == "***"@,
        masked_words(args).len() == args.len(),
{
    lemma_masked_len(args);
}

/// Masking keeps one word per argument.
proof fn lemma_masked_len(args: Seq<Seq<char>>)
    ensures
        masked_words(args).len() == args.len(),
    decreases args.len(),
{
    if args.len() > 0 {
        if args[0] == "--auth-password"@ && args.len() >= 2 {
            lemma_masked_len(args.subrange(2, args.len() as int));
        } else {
            lemma_masked_len(args.subrange(1, args.len() as int));
        }
    }
}


/// The Debian multiarch directory name of `arch`, e.g. `x86_64-linux-gnu`.
pub open spec fn triplet(arch: Seq<char>) -> Seq<char> {
    arch + "-linux-gnu"@
}

/// The directories put first on a child's `PATH`: the install directory
/// (siblings are spawned by bare name), on Unix only.
pub open spec fn path_dirs_spec(p: Platform, install_dir: Seq<char>) -> Seq<Seq<char>> {
    if p == Platform::Unix { seq![install_dir] } else { seq![] }
}

/// The directories put first on a child's `LD_LIBRARY_PATH`, on Unix only:
/// the install directory, then, under its parent, the multiarch `lib/`
/// sub-directory, `lib/vlc`, `lib64` and `lib`.
pub open spec fn lib_dirs_spec(p: Platform, install_dir: Seq<char>, parent: Option<Seq<char>>, arch: Seq<char>) -> Seq<Seq<char>> {
    if p == Platform::Unix {
        match parent {
            Some(prefix) => {
                let lib = path_join(p, prefix, "lib"@);
                seq![install_dir, path_join(p, lib, triplet(arch)), path_join(p, lib, "vlc"@),
                    path_join(p, prefix, "lib64"@), lib]
            },
            None => seq![install_dir],
        }
    } else {
        seq![]
    }
}

/// The directories a child's `PATH` and `LD_LIBRARY_PATH` start with, for an
/// install directory whose parent is `parent`, on a machine of architecture
/// `arch`. The inherited values go after these, so the bundle wins.
pub fn child_dirs(p: Platform, install_dir: &str, parent: Option<&str>, arch: &str) -> (r: (Vec<String>, Vec<String>))
    requires
        !is_rooted(p, triplet(arch@)),
    ensures
        strings_of(r.0@) == path_dirs_spec(p, install_dir@),
        strings_of(r.1@) == lib_dirs_spec(p, install_dir@, match parent { Some(s) => Some(s@), None => None }, arch@),
{
    let mut path_dirs: Vec<String> = Vec::new();
    let mut lib_dirs: Vec<String> = Vec::new();
    if p == Platform::Windows {
        assert(strings_of(path_dirs@) =~= seq![]);
        assert(strings_of(lib_dirs@) =~= seq![]);
        return (path_dirs, lib_dirs);
    }
    proof {
        reveal_strlit("lib");
        reveal_strlit("vlc");
        reveal_strlit("lib64");
        reveal_strlit("-linux-gnu");
    }
    path_dirs.push(String::from_str(install_dir));
    lib_dirs.push(String::from_str(install_dir));
    assert(strings_of(path_dirs@) =~= seq![install_dir@]);
    match parent {
        Some(prefix) => {
            let lib = join(p, prefix, "lib");
            let mut tri = String::from_str(arch);
            push_str(&mut tri, "-linux-gnu");
            let ghost before = lib_dirs@;
            lib_dirs.push(join(p, lib.as_str(), tri.as_str()));
            lib_dirs.push(join(p, lib.as_str(), "vlc"));
            lib_dirs.push(join(p, prefix, "lib64"));
            lib_dirs.push(lib);
            assert(strings_of(lib_dirs@) =~= lib_dirs_spec(p, install_dir@, Some(prefix@), arch@));
        },
        None => {
            assert(strings_of(lib_dirs@) =~= seq![install_dir@]);
        },
    }
    (path_dirs, lib_dirs)
}

/// The folder libkypc puts its Unix sockets in: one shared path, owned by
/// whoever created it first.
pub const IPC_DIR: &'static str = "/tmp/kyber";

/// What creating a probe file in the IPC folder gave.
#[derive(Debug, Clone, Copy, PartialEq, Eq)]
pub enum ProbeOutcome {
    /// The file was created (and is to be removed again).
    Created,
    /// The folder refuses us: it belongs to another user.
    PermissionDenied,
    /// Any other failure, left for kycontroller to report in its own words.
    Failed,
}

/// The explanation given when the IPC folder belongs to another user.
pub open spec fn ipc_denied_message() -> Seq<char> {
    "/tmp/kyber exists but belongs to another user, so kycontroller cannot create its IPC socket there. It was most likely left behind by a run as root. Remove it and start the transmitter again:\n    sudo rm -rf /tmp/kyber"@
}

/// Whether a transmitter may start as far as the IPC folder goes, given what
/// probing it gave (`None` when the folder does not exist yet: kycontroller
/// then creates it, owned by us). Only a folder that refuses us stops the
/// start, with an explanation of the cure.
pub fn ipc_dir_verdict(probe: Option<ProbeOutcome>) -> (r: Result<(), String>)
    ensures
        r is Err <==> probe == Some(ProbeOutcome::PermissionDenied),
        r matches Err(m) ==> m@ == ipc_denied_message(),
{
    match probe {
        Some(ProbeOutcome::PermissionDenied) => Err(String::from_str(
            "/tmp/kyber exists but belongs to another user, so kycontroller cannot create its IPC socket there. It was most likely left behind by a run as root. Remove it and start the transmitter again:\n    sudo rm -rf /tmp/kyber",
        )),
        _ => Ok(()),
    }
}

} // verus!
