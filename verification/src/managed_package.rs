use vstd::prelude::*;

use crate::config::string_eq;
use crate::error::Error;

verus! {

/// A semantic version as plain values: the numeric triple with the
/// pre-release and build-metadata identifiers.
#[derive(Debug, Clone, PartialEq, Eq)]
pub struct SemVer {
    pub major: u64,
    pub minor: u64,
    pub patch: u64,
    pub pre: String,
    pub build: String,
}

/// The version of a package: absent, a VCS commit, or a semantic
/// version.
#[derive(Debug, Clone, PartialEq, Eq)]
pub enum PackageVersion {
    /// The package does not exist.
    Absent,
    Commit { id: String, date: String },
    Semver(SemVer),
}

/// Version equality: absent versions only equal each other, commits
/// are equal by id, and semantic versions follow semantic-version
/// precedence, which compares the numeric triple and the pre-release
/// identifiers and ignores build metadata.
pub open spec fn spec_version_eq(a: PackageVersion, b: PackageVersion) -> bool {
    match (a, b) {
        (PackageVersion::Absent, PackageVersion::Absent) => true,
        (PackageVersion::Commit { id: i1, .. }, PackageVersion::Commit { id: i2, .. }) => i1@
            == i2@,
        (PackageVersion::Semver(x), PackageVersion::Semver(y)) => x.major == y.major && x.minor
            == y.minor && x.patch == y.patch && x.pre@ == y.pre@,
        _ => false,
    }
}

impl PackageVersion {
    /// Whether the two versions are the same version.
    pub fn same_version(&self, other: &PackageVersion) -> (r: bool)
        ensures
            r == spec_version_eq(*self, *other),
    {
        match (self, other) {
            (PackageVersion::Absent, PackageVersion::Absent) => true,
            (
                PackageVersion::Commit { id: i1, .. },
                PackageVersion::Commit { id: i2, .. },
            ) => string_eq(i1, i2),
            (PackageVersion::Semver(x), PackageVersion::Semver(y)) => x.major == y.major && x.minor
                == y.minor && x.patch == y.patch && string_eq(&x.pre, &y.pre),
            _ => false,
        }
    }
}

/// The status of one package: what is installed locally, what sources
/// are downloaded, and the latest version available remotely.
#[derive(Debug, Clone)]
pub struct PackageStatus {
    /// The version installed locally.
    pub installed_version: PackageVersion,
    /// The version of the local sources.
    pub downloaded_version: PackageVersion,
    /// The latest version available remotely.
    pub latest_version: PackageVersion,
}

/// An update is needed exactly when a concrete latest version exists
/// and differs from what is installed; an absent installed version
/// with a concrete latest version therefore also needs an update (it
/// needs an install).
pub open spec fn spec_need_update(s: PackageStatus) -> bool {
    !spec_version_eq(s.latest_version, s.installed_version) && !(s.latest_version
        is Absent)
}

impl PackageStatus {
    /// Whether this package should be installed or updated.
    pub fn need_update(&self) -> (r: bool)
        ensures
            r == spec_need_update(*self),
    {
        if self.latest_version.same_version(&self.installed_version) {
            false
        } else {
            match self.latest_version {
                PackageVersion::Absent => false,
                PackageVersion::Commit { .. } => true,
                PackageVersion::Semver(_) => true,
            }
        }
    }
}

/// What the update pass does with one package: nothing when no update
/// is needed, a fresh install when nothing is installed yet, an
/// update otherwise.
#[derive(Debug, Clone, Copy, PartialEq, Eq, Structural)]
pub enum UpdateAction {
    Keep,
    Install,
    Update,
}

/// Decide what to do with one package's status.
pub fn update_action(s: &PackageStatus) -> (r: UpdateAction)
    ensures
        r is Keep <==> !spec_need_update(*s),
        r is Install <==> spec_need_update(*s) && s.installed_version is Absent,
        r is Update <==> spec_need_update(*s) && !(s.installed_version is Absent),
{
    if !s.need_update() {
        UpdateAction::Keep
    } else {
        match s.installed_version {
            PackageVersion::Absent => UpdateAction::Install,
            _ => UpdateAction::Update,
        }
    }
}

/// Law: `need_update` is false when the latest version equals the
/// installed one, false whenever no latest version exists, and true in
/// every other case — including when nothing is installed and a
/// concrete latest version exists.
pub proof fn lemma_need_update_cases(s: PackageStatus)
    ensures
        spec_version_eq(s.latest_version, s.installed_version) ==> !spec_need_update(s),
        s.latest_version is Absent ==> !spec_need_update(s),
        !spec_version_eq(s.latest_version, s.installed_version) && !(s.latest_version is Absent)
            ==> spec_need_update(s),
        s.installed_version is Absent && !(s.latest_version is Absent) ==> spec_need_update(s),
{
}


/// A declared package whose explicit source names a tag or a
/// revision, which resolution and installation do not support.
pub open spec fn package_source_unsupported(p: crate::config::Package) -> bool {
    p matches crate::config::Package::RustCrate { source: Option::Some(src), .. } && !(src
        matches crate::config::RustCrateSource::GithubBranch { .. })
}

/// One declared package, paired with its name.
pub struct ManagedPackage<'a> {
    pub name: String,
    pub package: &'a crate::config::Package,
}

impl<'a> ManagedPackage<'a> {
    /// Pair a declared package with its name.
    pub fn new(name: &str, package: &'a crate::config::Package) -> (r: ManagedPackage<'a>)
        ensures
            r.name@ == name@,
            r.package == package,
    {
        ManagedPackage { name: name.to_owned(), package }
    }

    /// The declared name of this package.
    pub fn name(&self) -> (r: &String)
        ensures
            r@ == self.name@,
    {
        &self.name
    }

    /// The registry key this package resolves under: its explicit
    /// crate name when it has one, else its own name, normalized.
    pub open spec fn spec_crate_key(self) -> Seq<u8> {
        match *self.package {
            crate::config::Package::RustCrate { crate_name: Option::Some(cn), .. } =>
                crate::cargo::normalize_name(crate::config::string_bytes(cn)),
            _ => crate::cargo::normalize_name(vstd::utf8::encode_utf8(self.name@)),
        }
    }

    /// The crate spec of a registry-backed package: the explicit crate
    /// name when there is one, else the package's own name.
    fn crate_spec(&self) -> (r: Option<crate::cargo::CrateSpec>)
        ensures
            r is Some <==> (self.package matches crate::config::Package::RustCrate { .. }),
            r is Some ==> r.unwrap().name.0@ == self.spec_crate_key(),
            (match *self.package {
                crate::config::Package::RustCrate { source: s0, .. } => r is Some
                    && r.unwrap().source == s0,
                crate::config::Package::Custom { .. } => true,
            }),
    {
        match self.package {
            crate::config::Package::RustCrate { crate_name, source, .. } => {
                let n: &str = match crate_name {
                    Option::Some(cn) => cn.as_str(),
                    Option::None => self.name.as_str(),
                };
                Some(crate::cargo::CrateSpec::new(n, source.as_ref()))
            },
            crate::config::Package::Custom { .. } => None,
        }
    }

    /// The status of this package: the installed version from the
    /// snapshot, no downloaded version (reserved), and the latest
    /// version from the resolver. A from-source package has nothing
    /// installed through the package manager, and its latest version
    /// is the head of its repository's default branch.
    pub fn calculate_status<F: FnOnce() -> Result<String, Error>>(
        &self,
        state: &mut crate::system_state::SystemState,
        search_runner: F,
    ) -> (r: Result<PackageStatus, Error>)
        requires
            call_requires(search_runner, ()),
        ensures
            r is Ok ==> r.unwrap().downloaded_version is Absent,
            r is Ok && (self.package matches crate::config::Package::Custom { .. }) ==> r.unwrap().installed_version is Absent
                && r.unwrap().latest_version matches PackageVersion::Commit { .. },
            r is Ok && (self.package matches crate::config::Package::RustCrate { .. })
                ==> r.unwrap().installed_version == (match crate::cargo::lookup_last(
                old(state).cargo.crates_view(),
                self.spec_crate_key(),
            ) {
                Option::Some(v) => v,
                Option::None => PackageVersion::Absent,
            }),
            package_source_unsupported(*self.package) ==> r is Err && (r.unwrap_err()
                matches Error::UnsupportedPackageSource(_)),
            r is Ok && (self.package matches crate::config::Package::RustCrate {
                source: Option::Some(crate::config::RustCrateSource::GithubBranch { .. }),
                ..
            }) ==> r.unwrap().latest_version matches PackageVersion::Commit { .. },
            r is Ok && (self.package matches crate::config::Package::RustCrate {
                source: Option::None,
                ..
            }) ==> exists|b: Seq<u8>|
                #[trigger] crate::cargo::search_result_ok(
                    b,
                    self.spec_crate_key(),
                    Result::<PackageVersion, Error>::Ok(r.unwrap().latest_version),
                ),
    {
        match self.package {
            crate::config::Package::RustCrate { .. } => {
                let spec = self.crate_spec().unwrap();
                let installed = state.cargo_package_version(&spec)?;
                let latest = state.cargo_latest_package_version(&spec, search_runner)?;
                Ok(
                    PackageStatus {
                        installed_version: installed,
                        downloaded_version: PackageVersion::Absent,
                        latest_version: latest,
                    },
                )
            },
            crate::config::Package::Custom { source, .. } => {
                let crate::config::Source::GitHub { owner, repo } = source;
                let gh = crate::github::GitHubRepo::new(owner.as_str(), repo.as_str());
                let info = gh.get_info(&mut state.cache)?;
                let branch = gh.get_branch_info(&mut state.cache, info.default_branch.as_str())?;
                Ok(
                    PackageStatus {
                        installed_version: PackageVersion::Absent,
                        downloaded_version: PackageVersion::Absent,
                        latest_version: PackageVersion::Commit {
                            id: branch.commit.sha,
                            date: branch.commit.commit.author.date,
                        },
                    },
                )
            },
        }
    }

    /// Install or update this package and report the freshly probed
    /// version; a from-source package cannot be installed through the
    /// package manager.
    pub fn install_update<
        F1: FnOnce(Vec<Vec<u8>>) -> Result<(), Error>,
        F2: FnOnce() -> Result<String, Error>,
    >(
        &self,
        state: &mut crate::system_state::SystemState,
        run_install: F1,
        list_runner: F2,
    ) -> (r: Result<PackageVersion, Error>)
        requires
            forall|a: Vec<Vec<u8>>| call_requires(run_install, (a,)),
            call_requires(list_runner, ()),
        ensures
            (self.package matches crate::config::Package::Custom { .. }) ==> r is Err && (
            r.unwrap_err() matches Error::UnsupportedPackageSource(_)),
            package_source_unsupported(*self.package) ==> r is Err && (r.unwrap_err()
                matches Error::UnsupportedPackageSource(_)),
    {
        match self.package {
            crate::config::Package::RustCrate { .. } => {
                let spec = self.crate_spec().unwrap();
                state.cargo_install_package(&spec, run_install, list_runner)
            },
            crate::config::Package::Custom { .. } => {
                Err(Error::UnsupportedPackageSource("from-source package".to_owned()))
            },
        }
    }

    /// Whether this is a from-source package.
    pub fn is_custom(&self) -> (r: bool)
        ensures
            r == (self.package matches crate::config::Package::Custom { .. }),
    {
        match self.package {
            crate::config::Package::Custom { .. } => true,
            crate::config::Package::RustCrate { .. } => false,
        }
    }
}

} // verus!
