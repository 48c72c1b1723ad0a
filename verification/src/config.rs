use vstd::prelude::*;
use vstd::string::StrSliceExecFns;

use crate::based_path::{bytes_eq, SEP};

verus! {

/// Supported shells.
#[derive(Debug, Clone, Copy, PartialEq, Eq, Structural)]
pub enum Shell {
    /// the Bourne Again SHell
    Bash,
}

/// Supported ways of managing the ssh agent.
#[derive(Debug, Clone, Copy, PartialEq, Eq, Structural)]
pub enum SshAgent {
    /// Run `ssh-agent` as a systemd user service.
    SystemD,
}

/// SSH configuration of the user profile.
#[derive(Debug, Clone)]
pub enum Ssh {
    OpenSSH { agent: SshAgent, keys: Vec<(String, String)> },
}

/// A command declared in the configuration.
#[derive(Debug, Clone)]
pub enum Command {
    ShellCommand { command: String },
}

/// Equality of two strings, stated over their character views.
pub fn string_eq(a: &String, b: &String) -> (r: bool)
    ensures
        r == (a@ == b@),
{
    a.eq(b)
}

/// Equality of a string and a string slice, over their characters.
pub fn string_eq_str(a: &String, b: &str) -> (r: bool)
    ensures
        r == (a@ == b@),
{
    let x = a.as_str().as_bytes_vec();
    let y = b.as_bytes_vec();
    let r = bytes_eq(&x, &y);
    proof {
        vstd::utf8::encode_utf8_decode_utf8(a@);
        vstd::utf8::encode_utf8_decode_utf8(b@);
    }
    r
}

/// The bytes of a configuration string, for contracts.
pub open spec fn string_bytes(s: String) -> Seq<u8> {
    vstd::utf8::encode_utf8(s@)
}

/// A prefix with its trailing separators removed.
pub open spec fn trim_sep(p: Seq<u8>) -> Seq<u8>
    decreases p.len(),
{
    if p.len() > 0 && p.last() == SEP {
        trim_sep(p.drop_last())
    } else {
        p
    }
}

/// Whether the exclusion prefix `pre` matches the relative path `p` on
/// whole components: after dropping trailing separators from `pre`, it
/// matches when it is empty, equals `p`, or is followed in `p` by a
/// separator.
pub open spec fn excludes_prefix(pre: Seq<u8>, p: Seq<u8>) -> bool {
    let q = trim_sep(pre);
    ||| q.len() == 0
    ||| p == q
    ||| (q.len() < p.len() && p.take(q.len() as int) == q && p[q.len() as int] == SEP)
}

/// Whether a relative path passes every exclusion of a filter.
pub open spec fn filter_included(entries: Seq<Seq<u8>>, p: Seq<u8>) -> bool {
    forall|i: int| 0 <= i < entries.len() ==> !excludes_prefix(#[trigger] entries[i], p)
}

/// A relative path filter: paths that start with one of the listed
/// prefixes, matched on whole components, are ignored. `"hello"` does
/// not match `"hello.txt"`, but matches `"hello/world.txt"`.
#[derive(Debug, Clone, PartialEq, Eq)]
pub struct Filter {
    pub ignore_starts_with: Vec<String>,
}

impl Filter {
    /// The exclusion prefixes, as byte sequences.
    pub open spec fn entries_bytes(self) -> Seq<Seq<u8>> {
        Seq::new(self.ignore_starts_with@.len(), |i: int| string_bytes(self.ignore_starts_with@[i]))
    }

    /// A filter with no exclusions.
    pub fn empty() -> (f: Filter)
        ensures
            f.entries_bytes().len() == 0,
    {
        Filter { ignore_starts_with: Vec::new() }
    }

    /// Check whether the given relative path should be included.
    pub fn should_include(&self, path: &Vec<u8>) -> (r: bool)
        ensures
            r == filter_included(self.entries_bytes(), path@),
    {
        let n = self.ignore_starts_with.len();
        let mut i: usize = 0;
        while i < n
            invariant
                0 <= i <= n,
                n == self.ignore_starts_with@.len(),
                forall|j: int| 0 <= j < i ==> !excludes_prefix(
                    #[trigger] self.entries_bytes()[j],
                    path@,
                ),
            decreases n - i,
        {
            let ghost entry = self.entries_bytes()[i as int];
            let mut q = self.ignore_starts_with[i].as_str().as_bytes_vec();
            proof {
                assert(q@ == entry);
            }
            let ghost orig = q@;
            while q.len() > 0 && q[q.len() - 1] == SEP
                invariant
                    trim_sep(q@) == trim_sep(orig),
                decreases q@.len(),
            {
                let ghost before = q@;
                let popped = q.pop();
                proof {
                    assert(q@ =~= before.drop_last());
                    assert(trim_sep(before) == trim_sep(before.drop_last()));
                }
            }
            proof {
                assert(!(q@.len() > 0 && q@.last() == SEP));
                assert(trim_sep(q@) == q@);
                assert(trim_sep(entry) == q@);
            }
            if q.len() == 0 {
                assert(excludes_prefix(entry, path@));
                return false;
            }
            if bytes_eq(&q, path) {
                assert(excludes_prefix(entry, path@));
                return false;
            }
            if q.len() < path.len() {
                let mut k: usize = 0;
                let mut is_pre = true;
                proof {
                    assert(path@.take(0) =~= q@.take(0));
                }
                while k < q.len() && is_pre
                    invariant
                        0 <= k <= q@.len(),
                        q@.len() < path@.len(),
                        is_pre == (path@.take(k as int) =~= q@.take(k as int)),
                    decreases q@.len() - k,
                {
                    let ghost kk = k as int;
                    proof {
                        assert(path@.take(kk) =~= q@.take(kk));
                    }
                    if path[k] != q[k] {
                        is_pre = false;
                        proof {
                            assert(path@.take(kk + 1)[kk] == path@[kk]);
                            assert(q@.take(kk + 1)[kk] == q@[kk]);
                            assert(!(path@.take(kk + 1) =~= q@.take(kk + 1)));
                        }
                    } else {
                        proof {
                            assert forall|m: int|
                                0 <= m < kk + 1 implies path@.take(kk + 1)[m] == #[trigger] q@.take(
                                kk + 1,
                            )[m] by {
                                if m < kk {
                                    assert(path@.take(kk)[m] == q@.take(kk)[m]);
                                } else {
                                    assert(path@.take(kk + 1)[m] == path@[kk]);
                                    assert(q@.take(kk + 1)[m] == q@[kk]);
                                }
                            }
                            assert(path@.take(kk + 1) =~= q@.take(kk + 1));
                        }
                    }
                    k = k + 1;
                }
                if is_pre {
                    proof {
                        assert(k == q@.len());
                        assert(q@.take(q@.len() as int) =~= q@);
                    }
                    if path[q.len()] == SEP {
                        proof {
                            assert(path@.take(q@.len() as int) == q@);
                            assert(excludes_prefix(entry, path@));
                        }
                        return false;
                    }
                    proof {
                        assert(path@[q@.len() as int] != SEP);
                        assert(path@.len() != q@.len());
                        assert(!(path@ == q@));
                        assert(!excludes_prefix(entry, path@));
                    }
                } else {
                    proof {
                        assert(!(path@.take(q@.len() as int) == q@)) by {
                            if path@.take(q@.len() as int) == q@ {
                                assert(path@.take(q@.len() as int) =~= q@.take(q@.len() as int));
                            }
                        }
                        assert(path@.len() != q@.len());
                        assert(!(path@ == q@));
                        assert(!excludes_prefix(entry, path@));
                    }
                }
            } else {
                proof {
                    assert(!(path@ == q@));
                    assert(!(q@.len() < path@.len()));
                    assert(!excludes_prefix(entry, path@));
                }
            }
            i = i + 1;
        }
        true
    }
}

/// Points to the configuration directory of a package.
#[derive(Debug, Clone)]
pub enum ConfigDir {
    /// The config lives under the user configuration directory, named
    /// either by the explicit `package_name` or by the package's own
    /// name; files matching `filter` are managed.
    User { package_name: Option<String>, filter: Option<Filter> },
}

/// An explicit source for a registry-backed package.
#[derive(Debug, Clone)]
pub enum RustCrateSource {
    GithubBranch { owner: String, repo: String, branch: String },
    GithubTag { owner: String, repo: String, tag: String },
    GithubRevision { owner: String, repo: String, revision: String },
}

/// The source of a from-source package.
#[derive(Debug, Clone)]
pub enum Source {
    GitHub { owner: String, repo: String },
}

/// A package managed by this tool.
#[derive(Debug, Clone)]
pub enum Package {
    /// A crate installed through the local package manager.
    RustCrate {
        /// Name as known by the registry; defaults to the package name.
        crate_name: Option<String>,
        /// Optional explicit VCS source.
        source: Option<RustCrateSource>,
        /// Managed configuration files of this package.
        config_dir: Option<ConfigDir>,
    },
    /// A package downloaded and built from source.
    Custom {
        source: Source,
        local_dir: Option<String>,
        config_dir: ConfigDir,
    },
}

/// The profile of the user that owns the configuration.
#[derive(Debug, Clone)]
pub struct UserProfile {
    pub username: String,
    pub name: String,
    pub email: String,
    /// The default shell; also decides which dotfiles are managed.
    pub shell: Option<Shell>,
    /// The default editor.
    pub editor: Option<String>,
    pub ssh: Option<Ssh>,
    /// Name-keyed packages, in declaration order, keys unique.
    pub packages: Vec<(String, Package)>,
}

/// The root of the configuration tree.
#[derive(Debug, Clone)]
pub struct Logix {
    pub home: UserProfile,
}

} // verus!
