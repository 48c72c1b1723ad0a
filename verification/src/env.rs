use vstd::prelude::*;
use vstd::string::StringSliceAdditionalSpecFns;

use crate::based_path::BasedPath;
use crate::error::{Error, PathError};
use crate::fsio::home_dir_string;
use crate::managed_file::LocalFile;

verus! {

/// The directory name `.config`.
pub open spec fn config_dir_name() -> Seq<u8> {
    seq![46u8, 99, 111, 110, 102, 105, 103]
}

/// The directory name `logix`.
pub open spec fn logix_dir_name() -> Seq<u8> {
    seq![108u8, 111, 103, 105, 120]
}

/// The directory name `.cache`.
pub open spec fn cache_dir_name() -> Seq<u8> {
    seq![46u8, 99, 97, 99, 104, 101]
}

/// The directory name `config` (the configuration mirror).
pub open spec fn config_mirror_name() -> Seq<u8> {
    seq![99u8, 111, 110, 102, 105, 103]
}

/// The directory name `dotfiles` (the dotfile mirror).
pub open spec fn dotfiles_mirror_name() -> Seq<u8> {
    seq![100u8, 111, 116, 102, 105, 108, 101, 115]
}

fn push_all(dst: &mut Vec<u8>, a: u8)
    ensures
        final(dst)@ == old(dst)@.push(a),
{
    dst.push(a);
}

/// The bytes of `.config`.
fn config_dir_bytes() -> (r: Vec<u8>)
    ensures
        r@ == config_dir_name(),
{
    let mut r: Vec<u8> = Vec::new();
    push_all(&mut r, 46);
    push_all(&mut r, 99);
    push_all(&mut r, 111);
    push_all(&mut r, 110);
    push_all(&mut r, 102);
    push_all(&mut r, 105);
    push_all(&mut r, 103);
    proof {
        assert(r@ =~= config_dir_name());
    }
    r
}

/// The bytes of `logix`.
pub(crate) fn logix_dir_bytes() -> (r: Vec<u8>)
    ensures
        r@ == logix_dir_name(),
{
    let mut r: Vec<u8> = Vec::new();
    push_all(&mut r, 108);
    push_all(&mut r, 111);
    push_all(&mut r, 103);
    push_all(&mut r, 105);
    push_all(&mut r, 120);
    proof {
        assert(r@ =~= logix_dir_name());
    }
    r
}

/// The bytes of `.cache`.
fn cache_dir_bytes() -> (r: Vec<u8>)
    ensures
        r@ == cache_dir_name(),
{
    let mut r: Vec<u8> = Vec::new();
    push_all(&mut r, 46);
    push_all(&mut r, 99);
    push_all(&mut r, 97);
    push_all(&mut r, 99);
    push_all(&mut r, 104);
    push_all(&mut r, 101);
    proof {
        assert(r@ =~= cache_dir_name());
    }
    r
}

/// The bytes of `config`.
fn config_mirror_bytes() -> (r: Vec<u8>)
    ensures
        r@ == config_mirror_name(),
{
    let mut r: Vec<u8> = Vec::new();
    push_all(&mut r, 99);
    push_all(&mut r, 111);
    push_all(&mut r, 110);
    push_all(&mut r, 102);
    push_all(&mut r, 105);
    push_all(&mut r, 103);
    proof {
        assert(r@ =~= config_mirror_name());
    }
    r
}

/// The bytes of `dotfiles`.
fn dotfiles_mirror_bytes() -> (r: Vec<u8>)
    ensures
        r@ == dotfiles_mirror_name(),
{
    let mut r: Vec<u8> = Vec::new();
    push_all(&mut r, 100);
    push_all(&mut r, 111);
    push_all(&mut r, 116);
    push_all(&mut r, 102);
    push_all(&mut r, 105);
    push_all(&mut r, 108);
    push_all(&mut r, 101);
    push_all(&mut r, 115);
    proof {
        assert(r@ =~= dotfiles_mirror_name());
    }
    r
}

/// Join one ordinary component name onto a path; such a join always
/// succeeds.
pub fn join_name(p: &BasedPath, name: &Vec<u8>) -> (r: BasedPath)
    requires
        p.wf(),
        crate::based_path::wf_comp(name@),
    ensures
        r.base_bytes() == p.base_bytes(),
        r.rel_comps() == p.rel_comps().push(name@),
        r.wf(),
{
    proof {
        crate::based_path::lemma_split_no_sep(name@);
        crate::based_path::lemma_norm_fold_all_normal(p.rel_comps(), seq![name@]);
        assert(p.rel_comps() + seq![name@] =~~= p.rel_comps().push(name@));
        assert(p.join_ok(name@));
    }
    match p.join_bytes(name) {
        Ok(r) => r,
        Err(_) => vstd::pervasive::unreached(),
    }
}

/// A directory on the real file system together with the mirrored
/// directory that shadows it.
#[derive(Debug, Clone)]
pub struct ShadowedDir {
    pub local: BasedPath,
    pub logix: BasedPath,
}

impl ShadowedDir {
    /// Both sides are well-formed anchored paths.
    pub open spec fn wf(self) -> bool {
        self.local.wf() && self.logix.wf()
    }

    /// What a successful derivation under both sides yields: the
    /// suffixes extend by the resolved relative path.
    pub open spec fn derives(self, rel: Seq<u8>, local: BasedPath, logix: BasedPath) -> bool {
        &&& local.wf() && logix.wf()
        &&& local.base_bytes() == self.local.base_bytes()
        &&& logix.base_bytes() == self.logix.base_bytes()
        &&& local.rel_comps() == crate::based_path::norm_fold(
            self.local.rel_comps(),
            crate::based_path::split_comps(rel),
        ).unwrap()
        &&& logix.rel_comps() == crate::based_path::norm_fold(
            self.logix.rel_comps(),
            crate::based_path::split_comps(rel),
        ).unwrap()
    }

    /// A tracked file at the same relative location under both sides.
    pub fn make_local_file(&self, rel_path: &str) -> (r: Result<LocalFile, Error>)
        requires
            self.wf(),
        ensures
            r is Ok <==> self.local.join_ok(rel_path.spec_bytes()) && self.logix.join_ok(
                rel_path.spec_bytes(),
            ),
            r is Ok ==> self.derives(rel_path.spec_bytes(), r.unwrap().local, r.unwrap().logix),
    {
        let local = self.local.join(rel_path)?;
        let logix = self.logix.join(rel_path)?;
        Ok(LocalFile { local, logix })
    }

    /// [`Self::make_local_file`], taking the relative path as bytes.
    pub fn make_local_file_bytes(&self, rel: &Vec<u8>) -> (r: Result<LocalFile, Error>)
        requires
            self.wf(),
        ensures
            r is Ok <==> self.local.join_ok(rel@) && self.logix.join_ok(rel@),
            r is Ok ==> self.derives(rel@, r.unwrap().local, r.unwrap().logix),
    {
        let local = self.local.join_bytes(rel)?;
        let logix = self.logix.join_bytes(rel)?;
        Ok(LocalFile { local, logix })
    }

    /// The same pair one level down: both sides joined with the same
    /// relative path.
    pub fn make_shadowed_subdir(&self, rel_path: &str) -> (r: Result<ShadowedDir, Error>)
        requires
            self.wf(),
        ensures
            r is Ok <==> self.local.join_ok(rel_path.spec_bytes()) && self.logix.join_ok(
                rel_path.spec_bytes(),
            ),
            r is Ok ==> self.derives(rel_path.spec_bytes(), r.unwrap().local, r.unwrap().logix),
    {
        let local = self.local.join(rel_path)?;
        let logix = self.logix.join(rel_path)?;
        Ok(ShadowedDir { local, logix })
    }

    /// The real side of this pair.
    pub fn local_path(&self) -> (r: &BasedPath)
        ensures
            *r == self.local,
    {
        &self.local
    }

    /// The mirrored side of this pair.
    pub fn logix_path(&self) -> (r: &BasedPath)
        ensures
            *r == self.logix,
    {
        &self.logix
    }
}

/// Builder for [`Env`]; set a home directory, or take it from the
/// operating system.
pub struct EnvBuilder {
    pub home_dir: Option<String>,
}

impl EnvBuilder {
    /// Fill in the home directory from the OS environment when it was
    /// not set explicitly.
    pub fn init_from_os_env(&mut self) -> (r: Result<(), Error>)
        ensures
            old(self).home_dir is Some ==> r is Ok && final(self).home_dir == old(self).home_dir,
            r is Ok ==> final(self).home_dir is Some,
    {
        if self.home_dir.is_none() {
            match home_dir_string() {
                Option::Some(h) => {
                    self.home_dir = Some(h);
                },
                Option::None => {
                    return Err(Error::LocateDir(string_lit("user home")));
                },
            }
        }
        Ok(())
    }

    /// Build the environment from the configured home directory: the
    /// user config pair (`~/.config` against `<root>/config`), the
    /// dotfiles pair (`~` against `<root>/dotfiles`), the mirror root
    /// (`~/.config/logix`) and the user cache (`~/.cache`). Succeeds
    /// exactly when a home directory is set and is a normalized
    /// absolute path, and then the result has the layout of
    /// [`env_layout`].
    pub fn build(&mut self) -> (r: Result<Env, Error>)
        ensures
            old(self).home_dir is None ==> r is Err && (r.unwrap_err() matches Error::MissingDir(
                _,
            )),
            old(self).home_dir is Some ==> ({
                let hb = crate::config::string_bytes(old(self).home_dir.unwrap());
                &&& (r is Ok <==> crate::based_path::valid_path_bytes(hb) && crate::based_path::base_normalized(hb))
                &&& (r is Err ==> (r.unwrap_err() matches Error::InvalidDir(_, _)))
                &&& (r is Ok ==> env_layout(r.unwrap(), hb))
            }),
    {
        let home = match take_opt_string(&mut self.home_dir) {
            Option::Some(h) => h,
            Option::None => {
                return Err(Error::MissingDir(string_lit("EnvBuilder::home_dir")));
            },
        };
        let user_dir = match BasedPath::new(home.as_str()) {
            Ok(p) => p,
            Err(_) => {
                return Err(Error::InvalidDir(string_lit("user home"), PathError::NotNormalized));
            },
        };
        proof {
            assert(forall|i: int| 0 <= i < 7 ==> (#[trigger] config_dir_name()[i])
                != crate::based_path::SEP);
            assert(forall|i: int| 0 <= i < 5 ==> (#[trigger] logix_dir_name()[i])
                != crate::based_path::SEP);
            assert(forall|i: int| 0 <= i < 6 ==> (#[trigger] cache_dir_name()[i])
                != crate::based_path::SEP);
            assert(forall|i: int| 0 <= i < 6 ==> (#[trigger] config_mirror_name()[i])
                != crate::based_path::SEP);
            assert(forall|i: int| 0 <= i < 8 ==> (#[trigger] dotfiles_mirror_name()[i])
                != crate::based_path::SEP);
            assert(crate::based_path::wf_comp(config_dir_name()));
            assert(crate::based_path::wf_comp(logix_dir_name()));
            assert(crate::based_path::wf_comp(cache_dir_name()));
            assert(crate::based_path::wf_comp(config_mirror_name()));
            assert(crate::based_path::wf_comp(dotfiles_mirror_name()));
        }
        let user_config_dir = join_name(&user_dir, &config_dir_bytes());
        let logix_base = join_name(&user_config_dir, &logix_dir_bytes());
        proof {
            assert(user_dir.rel_comps() =~= Seq::<Seq<u8>>::empty());
            assert(user_config_dir.rel_comps() =~~= seq![config_dir_name()]);
            assert(logix_base.rel_comps() =~~= seq![config_dir_name(), logix_dir_name()]);
            let two = seq![config_dir_name(), logix_dir_name()];
            assert(two.skip(1) =~= seq![logix_dir_name()]);
            assert(crate::based_path::join_comps(seq![logix_dir_name()]) == logix_dir_name());
            assert(crate::based_path::join_comps(two) =~= config_dir_name() + seq![
                crate::based_path::SEP,
            ] + logix_dir_name());
            assert(crate::based_path::join_comps(logix_base.rel_comps()) =~= config_dir_name()
                + seq![crate::based_path::SEP] + logix_dir_name());
        }
        let logix_root = logix_base.rebased();
        let user_cache = join_name(&user_dir, &cache_dir_bytes());
        let config_mirror = join_name(&logix_root, &config_mirror_bytes());
        let dotfiles_mirror = join_name(&logix_root, &dotfiles_mirror_bytes());
        let r = Env {
            user_config: ShadowedDir { local: user_config_dir, logix: config_mirror },
            dotfiles: ShadowedDir { local: user_dir, logix: dotfiles_mirror },
            logix_root,
            user_cache,
        };
        proof {
            let hb = crate::config::string_bytes(old(self).home_dir.unwrap());
            assert(r.user_config.local.rel_comps() =~~= seq![config_dir_name()]);
            assert(r.user_cache.rel_comps() =~~= seq![cache_dir_name()]);
            assert(r.user_config.logix.rel_comps() =~~= seq![config_mirror_name()]);
            assert(r.dotfiles.logix.rel_comps() =~~= seq![dotfiles_mirror_name()]);
            assert(r.logix_root.base_bytes() =~= hb + seq![crate::based_path::SEP]
                + config_dir_name() + seq![crate::based_path::SEP] + logix_dir_name());
            assert(env_layout(r, hb));
        }
        Ok(r)
    }

    /// Set the home directory explicitly.
    pub fn home_dir(&mut self, path: String)
        ensures
            final(self).home_dir == Some(path),
    {
        self.home_dir = Some(path);
    }
}

/// Take the value out of an optional string.
fn take_opt_string(o: &mut Option<String>) -> (r: Option<String>)
    ensures
        r == *old(o),
        *final(o) is None,
{
    let mut t: Option<String> = None;
    core::mem::swap(o, &mut t);
    t
}

/// An owned copy of a string literal.
fn string_lit(s: &str) -> (r: String)
    ensures
        r@ == s@,
{
    s.to_owned()
}

/// The directory layout of a built environment over the home
/// directory `home`: the dotfiles pair is the home against
/// `<root>/dotfiles`, the config pair is `<home>/.config` against
/// `<root>/config`, the mirror root is `<home>/.config/logix`, and the
/// cache is `<home>/.cache`.
pub open spec fn env_layout(env: Env, home: Seq<u8>) -> bool {
    &&& env.wf()
    &&& env.dotfiles.local.base_bytes() == home && env.dotfiles.local.rel_comps().len() == 0
    &&& env.user_config.local.base_bytes() == home && env.user_config.local.rel_comps() == seq![
        config_dir_name(),
    ]
    &&& env.user_cache.base_bytes() == home && env.user_cache.rel_comps() == seq![
        cache_dir_name(),
    ]
    &&& env.logix_root.base_bytes() == home + seq![crate::based_path::SEP] + config_dir_name()
        + seq![crate::based_path::SEP] + logix_dir_name()
    &&& env.logix_root.rel_comps().len() == 0
    &&& env.user_config.logix.base_bytes() == env.logix_root.base_bytes()
        && env.user_config.logix.rel_comps() == seq![config_mirror_name()]
    &&& env.dotfiles.logix.base_bytes() == env.logix_root.base_bytes()
        && env.dotfiles.logix.rel_comps() == seq![dotfiles_mirror_name()]
}

/// The pre-calculated directories of one run.
#[derive(Debug)]
pub struct Env {
    /// `~/.config` shadowed by `<root>/config`.
    pub user_config: ShadowedDir,
    /// `~` shadowed by `<root>/dotfiles`.
    pub dotfiles: ShadowedDir,
    /// The mirror root, such as `~/.config/logix`.
    pub logix_root: BasedPath,
    /// The user cache directory, such as `~/.cache`.
    pub user_cache: BasedPath,
}

impl Env {
    /// All four directories are well formed.
    pub open spec fn wf(self) -> bool {
        &&& self.user_config.wf()
        &&& self.dotfiles.wf()
        &&& self.logix_root.wf()
        &&& self.user_cache.wf()
    }

    /// A fresh builder with nothing set.
    pub fn builder() -> (r: EnvBuilder)
        ensures
            r.home_dir is None,
    {
        EnvBuilder { home_dir: None }
    }

    /// Build an environment from the OS environment.
    pub fn init() -> (r: Result<Env, Error>)
        ensures
            r is Ok ==> r.unwrap().wf(),
    {
        let mut b = Env::builder();
        b.init_from_os_env()?;
        b.build()
    }

    /// The user configuration pair.
    pub fn user_config(&self) -> (r: &ShadowedDir)
        ensures
            *r == self.user_config,
    {
        &self.user_config
    }

    /// The mirror root directory.
    pub fn logix_root(&self) -> (r: &BasedPath)
        ensures
            *r == self.logix_root,
    {
        &self.logix_root
    }

    /// The dotfiles pair.
    pub fn dotfiles(&self) -> (r: &ShadowedDir)
        ensures
            *r == self.dotfiles,
    {
        &self.dotfiles
    }

    /// The user cache directory.
    pub fn user_cache(&self) -> (r: &BasedPath)
        ensures
            *r == self.user_cache,
    {
        &self.user_cache
    }
}

} // verus!
