//! Reconciles a machine against its declared configuration: anchored
//! paths, a tree-diff walker over mirrored directories, a per-file
//! status classifier, a two-tier time-to-live cache, a local
//! package-manager probe, and remote version resolution, combined
//! into per-file and per-package status reports.

use vstd::prelude::*;

pub mod based_path;
pub mod cache;
pub mod cargo;
pub mod config;
pub mod env;
pub mod error;
mod fsio;
mod github;
pub mod managed_file;
pub mod managed_files;
pub mod managed_package;
pub mod system_state;
mod url_fetch;
pub mod walk_dir;

use crate::based_path::{norm_fold, split_comps};
use crate::env::Env;
use crate::error::Error;
use crate::managed_file::{FileStatus, ManagedFile, Owner};
use crate::managed_files::{dotfile_mirror_comps, dotfile_ok, ManagedFiles};
use crate::managed_package::ManagedPackage;

verus! {

/// The relative path of the shell's dotfile, `.bashrc`.
pub open spec fn bashrc_rel() -> Seq<u8> {
    seq![46u8, 98, 97, 115, 104, 114, 99]
}

/// The relative path of the agent service file,
/// `systemd/user/ssh-agent.service`.
pub open spec fn ssh_service_rel() -> Seq<u8> {
    seq![
        115u8,
        121,
        115,
        116,
        101,
        109,
        100,
        47,
        117,
        115,
        101,
        114,
        47,
        115,
        115,
        104,
        45,
        97,
        103,
        101,
        110,
        116,
        46,
        115,
        101,
        114,
        118,
        105,
        99,
        101,
    ]
}

/// The tracked file the declared shell yields: the dotfile under the
/// home directory, mirrored with the dot stripped.
pub open spec fn shell_dotfile_entry(env: Env, m: ManagedFile) -> bool {
    &&& m matches ManagedFile::Local(o, f) && o == Owner::Shell && f.local.base_bytes()
        == env.dotfiles.local.base_bytes() && f.local.rel_comps() == norm_fold(
        env.dotfiles.local.rel_comps(),
        split_comps(bashrc_rel()),
    ).unwrap() && f.logix.base_bytes() == env.dotfiles.logix.base_bytes()
        && f.logix.rel_comps() == norm_fold(
        env.dotfiles.logix.rel_comps(),
        dotfile_mirror_comps(bashrc_rel()),
    ).unwrap()
}

/// The tracked file the SSH configuration yields: the agent service
/// file under the user configuration pair.
pub open spec fn ssh_service_entry(env: Env, m: ManagedFile) -> bool {
    &&& m matches ManagedFile::Local(o, f) && o == Owner::Ssh && env.user_config.derives(
        ssh_service_rel(),
        f.local,
        f.logix,
    )
}

/// A configuration that triggers no directory walk: every package is
/// registry-backed without a managed configuration directory.
pub open spec fn walk_free(c: config::Logix) -> bool {
    forall|i: int|
        0 <= i < c.home.packages@.len() ==> ((#[trigger] c.home.packages@[i]).1
            matches config::Package::RustCrate { config_dir: Option::None, .. })
}

/// How many tracked files the profile declares outside any walk.
pub open spec fn declared_count(c: config::Logix) -> int {
    (if c.home.shell is Some {
        1int
    } else {
        0int
    }) + (if c.home.ssh is Some {
        1int
    } else {
        0int
    })
}

/// Two tracked files that agree in every view: same variant, same
/// owner, and the same anchors and suffixes (and expected content).
pub open spec fn file_views_match(a: ManagedFile, b: ManagedFile) -> bool {
    match (a, b) {
        (ManagedFile::Local(o1, f1), ManagedFile::Local(o2, f2)) => {
            &&& o2 == o1
            &&& f2.local.base_bytes() == f1.local.base_bytes()
            &&& f2.local.rel_comps() == f1.local.rel_comps()
            &&& f2.local.wf() == f1.local.wf()
            &&& f2.logix.base_bytes() == f1.logix.base_bytes()
            &&& f2.logix.rel_comps() == f1.logix.rel_comps()
            &&& f2.logix.wf() == f1.logix.wf()
        },
        (ManagedFile::Virtual(o1, f1), ManagedFile::Virtual(o2, f2)) => {
            &&& o2 == o1
            &&& f2.local.base_bytes() == f1.local.base_bytes()
            &&& f2.local.rel_comps() == f1.local.rel_comps()
            &&& f2.local.wf() == f1.local.wf()
            &&& f2.content@ == f1.content@
        },
        _ => false,
    }
}

/// The bytes of `.bashrc`.
fn bashrc_rel_bytes() -> (r: Vec<u8>)
    ensures
        r@ == bashrc_rel(),
{
    let mut r: Vec<u8> = Vec::new();
    r.push(46);
    r.push(98);
    r.push(97);
    r.push(115);
    r.push(104);
    r.push(114);
    r.push(99);
    proof {
        assert(r@ =~= bashrc_rel());
    }
    r
}

/// The bytes of `systemd/user/ssh-agent.service`.
fn ssh_service_rel_bytes() -> (r: Vec<u8>)
    ensures
        r@ == ssh_service_rel(),
{
    let mut r: Vec<u8> = Vec::new();
    r.push(115);
    r.push(121);
    r.push(115);
    r.push(116);
    r.push(101);
    r.push(109);
    r.push(100);
    r.push(47);
    r.push(117);
    r.push(115);
    r.push(101);
    r.push(114);
    r.push(47);
    r.push(115);
    r.push(115);
    r.push(104);
    r.push(45);
    r.push(97);
    r.push(103);
    r.push(101);
    r.push(110);
    r.push(116);
    r.push(46);
    r.push(115);
    r.push(101);
    r.push(114);
    r.push(118);
    r.push(105);
    r.push(99);
    r.push(101);
    proof {
        assert(r@ =~= ssh_service_rel());
    }
    r
}

/// The shell dotfile resolves and joins under every well-formed
/// environment.
proof fn lemma_bashrc_joins(env: Env)
    requires
        env.wf(),
    ensures
        dotfile_ok(bashrc_rel()),
        env.dotfiles.local.join_ok(bashrc_rel()),
        env.dotfiles.logix.join_ok(
            crate::based_path::join_comps(dotfile_mirror_comps(bashrc_rel())),
        ),
{
    let rb = bashrc_rel();
    assert(forall|i: int| 0 <= i < 7 ==> (#[trigger] rb[i]) != crate::based_path::SEP
        && crate::based_path::valid_path_byte(rb[i]));
    crate::based_path::lemma_split_no_sep(rb);
    assert(split_comps(rb) =~~= seq![rb]);
    assert(split_comps(rb).last() == rb);
    assert(rb[0] == 46);
    assert(dotfile_ok(rb));
    crate::based_path::lemma_norm_fold_all_normal(env.dotfiles.local.rel_comps(), seq![rb]);
    assert(env.dotfiles.local.join_ok(rb));
    let stripped = rb.skip(1);
    assert(stripped =~= seq![98u8, 97, 115, 104, 114, 99]);
    let mc = dotfile_mirror_comps(rb);
    assert(mc =~~= seq![stripped]);
    assert(crate::based_path::join_comps(mc) == stripped);
    assert(forall|i: int| 0 <= i < 6 ==> (#[trigger] stripped[i]) != crate::based_path::SEP
        && crate::based_path::valid_path_byte(stripped[i]));
    crate::based_path::lemma_split_no_sep(stripped);
    assert(split_comps(stripped) =~~= seq![stripped]);
    crate::based_path::lemma_norm_fold_all_normal(env.dotfiles.logix.rel_comps(), seq![stripped]);
    assert(env.dotfiles.logix.join_ok(stripped));
}

/// The agent service path resolves and joins under every well-formed
/// environment.
proof fn lemma_ssh_service_joins(env: Env)
    requires
        env.wf(),
    ensures
        env.user_config.local.join_ok(ssh_service_rel()),
        env.user_config.logix.join_ok(ssh_service_rel()),
{
    let a = seq![115u8, 121, 115, 116, 101, 109, 100];
    let b = seq![117u8, 115, 101, 114];
    let c = seq![115u8, 115, 104, 45, 97, 103, 101, 110, 116, 46, 115, 101, 114, 118, 105, 99, 101];
    let rb = ssh_service_rel();
    assert(forall|i: int| 0 <= i < 7 ==> (#[trigger] a[i]) != crate::based_path::SEP);
    assert(forall|i: int| 0 <= i < 4 ==> (#[trigger] b[i]) != crate::based_path::SEP);
    assert(forall|i: int| 0 <= i < 17 ==> (#[trigger] c[i]) != crate::based_path::SEP);
    assert(forall|i: int| 0 <= i < 30 ==> crate::based_path::valid_path_byte(#[trigger] rb[i]));
    assert(rb =~= a + seq![crate::based_path::SEP] + (b + seq![crate::based_path::SEP] + c));
    crate::based_path::lemma_split_concat(a, b + seq![crate::based_path::SEP] + c);
    crate::based_path::lemma_split_concat(b, c);
    crate::based_path::lemma_split_no_sep(a);
    crate::based_path::lemma_split_no_sep(b);
    crate::based_path::lemma_split_no_sep(c);
    assert(split_comps(b + seq![crate::based_path::SEP] + c) =~~= seq![b, c]);
    assert(split_comps(rb) =~~= seq![a, b, c]);
    assert(a.len() == 7 && b.len() == 4 && c.len() == 17);
    let abc = seq![a, b, c];
    assert(forall|i: int|
        0 <= i < 3 ==> (#[trigger] abc[i]).len() > 0 && abc[i] != seq![46u8] && abc[i] != seq![
            46u8,
            46u8,
        ]);
    crate::based_path::lemma_norm_fold_all_normal(env.user_config.local.rel_comps(), abc);
    crate::based_path::lemma_norm_fold_all_normal(env.user_config.logix.rel_comps(), abc);
    assert(env.user_config.local.join_ok(rb));
    assert(env.user_config.logix.join_ok(rb));
}

/// The root of one session: the resolved environment and the loaded
/// configuration tree. The configuration is parsed outside and handed
/// in as a value.
pub struct Logix {
    pub env: Env,
    pub config: config::Logix,
}

impl Logix {
    /// Pair an environment with a loaded configuration.
    pub fn new(env: Env, config: config::Logix) -> (r: Logix)
        ensures
            r.env == env,
            r.config == config,
    {
        Logix { env, config }
    }

    /// The raw configuration.
    pub fn config(&self) -> (r: &config::Logix)
        ensures
            *r == self.config,
    {
        &self.config
    }

    /// The raw environment.
    pub fn env(&self) -> (r: &Env)
        ensures
            *r == self.env,
    {
        &self.env
    }

    /// The list of files this configuration manages: the shell's
    /// dotfile when a shell is selected, the agent service file when
    /// SSH is configured, and one mirrored file per path that each
    /// package's configuration directory walk emits. The dotfile
    /// stands first, the service file right after it, and a
    /// configuration that declares no walk yields exactly those
    /// declared files and always succeeds.
    pub fn calculate_managed_files(&self) -> (r: Result<Vec<ManagedFile>, Error>)
        requires
            self.env.wf(),
        ensures
            r is Ok ==> ({
                let files = r.unwrap()@;
                let idx: int = if self.config.home.shell is Some {
                    1
                } else {
                    0
                };
                &&& (self.config.home.shell is Some ==> files.len() >= 1 && shell_dotfile_entry(
                    self.env,
                    files[0],
                ))
                &&& (self.config.home.ssh is Some ==> files.len() >= idx + 1 && ssh_service_entry(
                    self.env,
                    files[idx],
                ))
                &&& (walk_free(self.config) ==> files.len() == declared_count(self.config))
            }),
            walk_free(self.config) ==> r is Ok,
    {
        let mut ret = ManagedFiles::new(&self.env);
        match &self.config.home.shell {
            Option::Some(config::Shell::Bash) => {
                proof {
                    lemma_bashrc_joins(self.env);
                }
                let rb = bashrc_rel_bytes();
                match ret.add_dotfile_bytes(&Owner::Shell, &rb) {
                    Ok(u) => u,
                    Err(_) => {
                        proof {
                            assert(false);
                        }
                        return Err(Error::GetFileName(rb));
                    },
                }
            },
            Option::None => {},
        }
        proof {
            if self.config.home.shell is Some {
                assert(ret.files_view().len() == 1);
                assert(shell_dotfile_entry(self.env, ret.files_view()[0]));
            } else {
                assert(ret.files_view().len() == 0);
            }
        }
        match &self.config.home.ssh {
            Option::Some(config::Ssh::OpenSSH { agent: config::SshAgent::SystemD, .. }) => {
                proof {
                    lemma_ssh_service_joins(self.env);
                }
                let sb = ssh_service_rel_bytes();
                match ret.add_config_file_bytes(&Owner::Ssh, &sb) {
                    Ok(u) => u,
                    Err(_) => {
                        proof {
                            assert(false);
                        }
                        return Err(Error::GetFileName(sb));
                    },
                }
            },
            Option::None => {},
        }
        let ghost idx: int = if self.config.home.shell is Some {
            1
        } else {
            0
        };
        proof {
            if self.config.home.ssh is Some {
                assert(ret.files_view().len() == idx + 1);
                assert(ssh_service_entry(self.env, ret.files_view()[idx]));
            }
            assert(ret.files_view().len() == declared_count(self.config));
        }
        let empty_filter = config::Filter::empty();
        let packages = &self.config.home.packages;
        let mut i: usize = 0;
        while i < packages.len()
            invariant
                self.env.wf(),
                ret.env_view() == self.env,
                packages == &self.config.home.packages,
                0 <= i <= packages@.len(),
                idx == (if self.config.home.shell is Some {
                    1int
                } else {
                    0int
                }),
                self.config.home.shell is Some ==> ret.files_view().len() >= 1
                    && shell_dotfile_entry(self.env, ret.files_view()[0]),
                self.config.home.ssh is Some ==> ret.files_view().len() >= idx + 1
                    && ssh_service_entry(self.env, ret.files_view()[idx]),
                ret.files_view().len() >= declared_count(self.config),
                walk_free(self.config) ==> ret.files_view().len() == declared_count(self.config),
            decreases packages@.len() - i,
        {
            let pname = &packages[i].0;
            let p = &packages[i].1;
            let owner = Owner::Package(pname.clone());
            let config_dir: Option<&config::ConfigDir> = match p {
                config::Package::RustCrate { config_dir, .. } => config_dir.as_ref(),
                config::Package::Custom { config_dir, .. } => Some(config_dir),
            };
            match config_dir {
                Option::Some(config::ConfigDir::User { package_name, filter }) => {
                    proof {
                        assert(!walk_free(self.config)) by {
                            if walk_free(self.config) {
                                assert((i as int) < self.config.home.packages@.len());
                                assert((#[trigger] self.config.home.packages@[i as int]).1
                                    matches config::Package::RustCrate {
                                    config_dir: Option::None,
                                    ..
                                });
                                assert(*p == self.config.home.packages@[i as int].1);
                            }
                        }
                    }
                    let sub: &str = match package_name {
                        Option::Some(n) => n.as_str(),
                        Option::None => pname.as_str(),
                    };
                    let ghost before = ret.files_view();
                    let dir = self.env.user_config().make_shadowed_subdir(sub)?;
                    let f: &config::Filter = match filter {
                        Option::Some(f) => f,
                        Option::None => &empty_filter,
                    };
                    ret.add_dir(&owner, &dir, f)?;
                    proof {
                        assert(before.is_prefix_of(ret.files_view()));
                        if self.config.home.shell is Some {
                            assert(ret.files_view()[0] == before[0]);
                        }
                        if self.config.home.ssh is Some {
                            assert(ret.files_view()[idx] == before[idx]);
                        }
                    }
                },
                Option::None => {},
            }
            i = i + 1;
        }
        Ok(ret.finalize())
    }

    /// The status of every managed file, classified fresh from the
    /// file system, paired with the file, in catalog order: the pairs
    /// carry the same files (view for view) in the same order as
    /// [`Self::calculate_managed_files`], so the declared entries
    /// stand at their positions, and a walk-free configuration always
    /// succeeds and yields exactly the declared pairs.
    pub fn calculate_config_status(&self) -> (r: Result<Vec<(FileStatus, ManagedFile)>, Error>)
        requires
            self.env.wf(),
        ensures
            r is Ok ==> ({
                let out = r.unwrap()@;
                let idx: int = if self.config.home.shell is Some {
                    1
                } else {
                    0
                };
                &&& (self.config.home.shell is Some ==> out.len() >= 1 && shell_dotfile_entry(
                    self.env,
                    out[0].1,
                ))
                &&& (self.config.home.ssh is Some ==> out.len() >= idx + 1 && ssh_service_entry(
                    self.env,
                    out[idx].1,
                ))
                &&& (walk_free(self.config) ==> out.len() == declared_count(self.config))
            }),
            walk_free(self.config) ==> r is Ok,
    {
        let files = self.calculate_managed_files()?;
        let mut out: Vec<(FileStatus, ManagedFile)> = Vec::new();
        let mut i: usize = 0;
        while i < files.len()
            invariant
                0 <= i <= files@.len(),
                out@.len() == i,
                forall|j: int| 0 <= j < i ==> file_views_match(files@[j], (#[trigger] out@[j]).1),
            decreases files@.len() - i,
        {
            let status = files[i].calculate_status();
            let file = clone_managed_file(&files[i]);
            out.push((status, file));
            i = i + 1;
        }
        proof {
            if self.config.home.shell is Some {
                assert(file_views_match(files@[0], out@[0].1));
                assert(shell_dotfile_entry(self.env, out@[0].1));
            }
            let idx: int = if self.config.home.shell is Some {
                1
            } else {
                0
            };
            if self.config.home.ssh is Some {
                assert(file_views_match(files@[idx], out@[idx].1));
                assert(ssh_service_entry(self.env, out@[idx].1));
            }
        }
        Ok(out)
    }

    /// Every declared package, in declaration order.
    pub fn iter_packages(&self) -> (r: Vec<ManagedPackage>)
        ensures
            r@.len() == self.config.home.packages@.len(),
            forall|i: int|
                0 <= i < r@.len() ==> (#[trigger] r@[i]).name@ == self.config.home.packages@[i].0@
                    && r@[i].package == &self.config.home.packages@[i].1,
    {
        let packages = &self.config.home.packages;
        let mut r: Vec<ManagedPackage> = Vec::new();
        let mut i: usize = 0;
        while i < packages.len()
            invariant
                0 <= i <= packages@.len(),
                packages == &self.config.home.packages,
                r@.len() == i,
                forall|j: int|
                    0 <= j < i ==> (#[trigger] r@[j]).name@ == self.config.home.packages@[j].0@
                        && r@[j].package == &self.config.home.packages@[j].1,
            decreases packages@.len() - i,
        {
            let pair = &packages[i];
            r.push(ManagedPackage::new(pair.0.as_str(), &pair.1));
            i = i + 1;
        }
        r
    }

    /// The declared package of that name, if any; the first
    /// declaration wins.
    pub fn find_package(&self, name: &str) -> (r: Option<ManagedPackage>)
        ensures
            r is Some <==> (exists|i: int|
                0 <= i < self.config.home.packages@.len()
                    && (#[trigger] self.config.home.packages@[i]).0@ == name@),
            r is Some ==> r.unwrap().name@ == name@,
    {
        let packages = &self.config.home.packages;
        let mut i: usize = 0;
        while i < packages.len()
            invariant
                0 <= i <= packages@.len(),
                packages == &self.config.home.packages,
                forall|j: int|
                    0 <= j < i ==> (#[trigger] self.config.home.packages@[j]).0@ != name@,
            decreases packages@.len() - i,
        {
            let pair = &packages[i];
            if config::string_eq_str(&pair.0, name) {
                return Some(ManagedPackage::new(pair.0.as_str(), &pair.1));
            }
            i = i + 1;
        }
        None
    }
}

/// A copy of a tracked file that agrees with the original in every
/// view.
pub fn clone_managed_file(m: &ManagedFile) -> (r: ManagedFile)
    ensures
        file_views_match(*m, r),
{
    match m {
        ManagedFile::Local(o, f) => ManagedFile::Local(
            crate::managed_files::clone_owner(o),
            crate::managed_file::LocalFile { local: f.local.duplicate(), logix: f.logix.duplicate() },
        ),
        ManagedFile::Virtual(o, f) => ManagedFile::Virtual(
            crate::managed_files::clone_owner(o),
            crate::managed_file::VirtualFile { local: f.local.duplicate(), content: f.content.clone() },
        ),
    }
}

} // verus!
