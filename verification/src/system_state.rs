use vstd::prelude::*;

use crate::cache::Cache;
use crate::cargo::{latest_from_search, CargoState, CrateSpec};
use crate::env::Env;
use crate::error::Error;
use crate::managed_package::PackageVersion;

verus! {

/// The mutable state of one run: the installed-package snapshot and
/// the cache handle.
pub struct SystemState {
    pub cargo: CargoState,
    pub cache: Cache,
}

impl SystemState {
    /// Probe the installed packages (the runner provides the text the
    /// list-installed command printed) and open the cache under
    /// `<user cache>/logix`, with both tiers empty.
    pub fn init<F: FnOnce() -> Result<String, Error>>(env: &Env, list_runner: F) -> (r: Result<
        SystemState,
        Error,
    >)
        requires
            env.wf(),
            call_requires(list_runner, ()),
        ensures
            r is Ok ==> (exists|t: String|
                call_ensures(list_runner, (), Result::<String, Error>::Ok(t))
                    && crate::cargo::state_matches_listing(
                    r.unwrap().cargo,
                    crate::config::string_bytes(t),
                )) && r.unwrap().cache.mem_map().len() == 0 && r.unwrap().cache.dirty@.len() == 0
                && r.unwrap().cache.base.base_bytes() == env.user_cache.base_bytes()
                && r.unwrap().cache.base.rel_comps() == env.user_cache.rel_comps().push(
                crate::env::logix_dir_name(),
            ),
    {
        let cargo = CargoState::init(list_runner)?;
        proof {
            assert(forall|i: int|
                0 <= i < 5 ==> (#[trigger] crate::env::logix_dir_name()[i])
                    != crate::based_path::SEP);
            assert(crate::based_path::wf_comp(crate::env::logix_dir_name()));
        }
        let nm = crate::env::logix_dir_bytes();
        let dir = crate::env::join_name(env.user_cache(), &nm);
        Ok(SystemState { cargo, cache: Cache::new(dir) })
    }

    /// Rebuild the installed-package snapshot wholesale; a failed
    /// rebuild leaves the snapshot unchanged, and the cache is never
    /// touched.
    pub fn refresh_state<F: FnOnce() -> Result<String, Error>>(&mut self, list_runner: F) -> (r:
        Result<(), Error>)
        requires
            call_requires(list_runner, ()),
        ensures
            final(self).cache == old(self).cache,
            r is Ok ==> exists|t: String|
                call_ensures(list_runner, (), Result::<String, Error>::Ok(t))
                    && crate::cargo::state_matches_listing(
                    final(self).cargo,
                    crate::config::string_bytes(t),
                ),
            r is Err ==> final(self).cargo == old(self).cargo,
    {
        self.cargo.refresh_state(list_runner)
    }

    /// The installed version of one package, from the snapshot.
    pub fn cargo_package_version(&self, spec: &CrateSpec) -> (r: Result<PackageVersion, Error>)
        ensures
            r is Ok,
            r.unwrap() == (match crate::cargo::lookup_last(self.cargo.crates_view(), spec.name.0@) {
                Option::Some(v) => v,
                Option::None => PackageVersion::Absent,
            }),
    {
        Ok(self.cargo.package_version(spec))
    }

    /// The latest available version of one package. A registry lookup
    /// is cached for one hour under `cargo/<cache name>.latest` (the
    /// raw search output is what the cache holds); a branch source
    /// goes to the hosting API through its own cache entries.
    pub fn cargo_latest_package_version<F: FnOnce() -> Result<String, Error>>(
        &mut self,
        spec: &CrateSpec,
        search_runner: F,
    ) -> (r: Result<PackageVersion, Error>)
        requires
            call_requires(search_runner, ()),
        ensures
            final(self).cargo == old(self).cargo,
            crate::cargo::source_unsupported(*spec) ==> r is Err && (r.unwrap_err()
                matches Error::UnsupportedPackageSource(_)),
            (spec.source matches Option::Some(
                crate::config::RustCrateSource::GithubBranch { .. },
            )) && r is Ok ==> r.unwrap() matches PackageVersion::Commit { .. },
            spec.source is None ==> ((exists|b: Seq<u8>|
                #[trigger] crate::cargo::search_result_ok(b, spec.name.0@, r)) || r is Err),
    {
        if spec.source.is_some() {
            return self.cargo.latest_package_version(spec, &mut self.cache, search_runner);
        }
        let mut key: Vec<u8> = Vec::new();
        crate::cargo::push_str_bytes(&mut key, "cargo/");
        let mut cn = spec.cache_name();
        key.append(&mut cn);
        crate::cargo::push_str_bytes(&mut key, ".latest");
        let out = self.cache.get_or_insert_bytes(
            &key,
            60,
            move || -> (cr: Result<Vec<u8>, Error>) { search_runner().map(|t| t.as_str().as_bytes_vec()) },
        )?;
        let r = latest_from_search(&out, &spec.name);
        proof {
            assert(crate::cargo::search_result_ok(out@, spec.name.0@, r));
        }
        r
    }

    /// Install or update one package and report the freshly probed
    /// version.
    pub fn cargo_install_package<
        F1: FnOnce(Vec<Vec<u8>>) -> Result<(), Error>,
        F2: FnOnce() -> Result<String, Error>,
    >(&mut self, spec: &CrateSpec, run_install: F1, list_runner: F2) -> (r: Result<
        PackageVersion,
        Error,
    >)
        requires
            forall|a: Vec<Vec<u8>>| call_requires(run_install, (a,)),
            call_requires(list_runner, ()),
        ensures
            final(self).cache == old(self).cache,
            r is Ok ==> r.unwrap() == (match crate::cargo::lookup_last(
                final(self).cargo.crates_view(),
                spec.name.0@,
            ) {
                Option::Some(v) => v,
                Option::None => PackageVersion::Absent,
            }),
            crate::cargo::spec_install_args(*spec) is None ==> r is Err && (r.unwrap_err()
                matches Error::UnsupportedPackageSource(_)),
            r is Err ==> final(self).cargo == old(self).cargo,
    {
        self.cargo.install_package(spec, run_install, list_runner)
    }

    /// Read a key through the cache.
    pub fn cached<F: FnOnce() -> Result<Vec<u8>, Error>>(
        &mut self,
        key: &str,
        ttl_minutes: u64,
        f: F,
    ) -> (r: Result<Vec<u8>, Error>)
        requires
            call_requires(f, ()),
    {
        self.cache.get_or_insert(key, ttl_minutes, f)
    }

    /// The cache handle.
    pub fn cache(&self) -> (r: &Cache)
        ensures
            *r == self.cache,
    {
        &self.cache
    }
}

} // verus!
