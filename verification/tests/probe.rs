use logix::cargo::{
    install_args, latest_from_search, CargoState, CrateName, CrateSpec,
};
use logix::config::RustCrateSource;
use logix::error::Error;
use logix::managed_package::PackageVersion;

fn spec(name: &str) -> CrateSpec {
    CrateSpec::new(name, None)
}

#[test]
fn listing_headers_become_snapshot_entries() {
    let listing = "ripgrep v13.0.0:\n    rg\nbat v0.24.0:\n    bat\n";
    let state = CargoState::from_list_output(listing).unwrap();
    let rg = state.package_version(&spec("ripgrep"));
    match rg {
        PackageVersion::Semver(s) => assert_eq!((s.major, s.minor, s.patch), (13, 0, 0)),
        _ => panic!("expected a semantic version"),
    }
    let missing = state.package_version(&spec("helix"));
    assert_eq!(missing, PackageVersion::Absent);
}

#[test]
fn local_source_annotations_are_excluded() {
    let listing = "good v1.0.0:\n    good\nlocal-one v2.0.0 (/home/me/src/local-one):\n    local-one\n";
    let state = CargoState::from_list_output(listing).unwrap();
    assert!(matches!(
        state.package_version(&spec("good")),
        PackageVersion::Semver(_)
    ));
    assert_eq!(state.package_version(&spec("local-one")), PackageVersion::Absent);
}

#[test]
fn lookup_normalizes_hyphens_and_underscores() {
    let listing = "my_tool v0.1.0:\n    my-tool\n";
    let state = CargoState::from_list_output(listing).unwrap();
    assert!(matches!(
        state.package_version(&spec("my-tool")),
        PackageVersion::Semver(_)
    ));
    assert!(matches!(
        state.package_version(&spec("my_tool")),
        PackageVersion::Semver(_)
    ));
}

#[test]
fn lines_outside_the_grammar_are_unsupported() {
    assert!(matches!(
        CargoState::from_list_output("what is this\n"),
        Err(Error::UnsupportedFormat(_))
    ));
    assert!(matches!(
        CargoState::from_list_output("name-without-version:\n"),
        Err(Error::UnsupportedFormat(_))
    ));
    assert!(matches!(
        CargoState::from_list_output("pkg not.sem.ver:\n"),
        Err(Error::UnsupportedFormat(_))
    ));
    // an empty listing is fine
    assert!(CargoState::from_list_output("").is_ok());
}

#[test]
fn search_output_yields_the_registry_version() {
    let out = b"ripgrep = \"13.0.0\"    # fast line-oriented search\n".to_vec();
    let v = latest_from_search(&out, &CrateName::new("ripgrep")).unwrap();
    match v {
        PackageVersion::Semver(s) => assert_eq!((s.major, s.minor, s.patch), (13, 0, 0)),
        _ => panic!("expected a semantic version"),
    }
}

#[test]
fn search_name_mismatch_is_unsupported() {
    let out = b"other = \"1.0.0\"\n".to_vec();
    assert!(matches!(
        latest_from_search(&out, &CrateName::new("ripgrep")),
        Err(Error::UnsupportedFormat(_))
    ));
}

#[test]
fn empty_search_output_means_no_such_package() {
    let v = latest_from_search(&Vec::new(), &CrateName::new("nope")).unwrap();
    assert_eq!(v, PackageVersion::Absent);
}

#[test]
fn cache_names_qualify_by_source() {
    assert_eq!(spec("ripgrep").cache_name(), b"crates.io/ripgrep".to_vec());
    let src = RustCrateSource::GithubBranch {
        owner: "helix-editor".to_string(),
        repo: "helix".to_string(),
        branch: "master".to_string(),
    };
    let s = CrateSpec::new("helix-term", Some(&src));
    assert_eq!(
        s.cache_name(),
        b"github.com/helix-editor/helix/branches/master/crates/helix-term".to_vec()
    );
}

#[test]
fn install_arguments_follow_the_source() {
    let plain = install_args(&spec("ripgrep")).unwrap();
    assert_eq!(plain, vec![b"install".to_vec(), b"ripgrep".to_vec()]);
    let src = RustCrateSource::GithubBranch {
        owner: "me".to_string(),
        repo: "tool".to_string(),
        branch: "main".to_string(),
    };
    let with_git = install_args(&CrateSpec::new("tool", Some(&src))).unwrap();
    assert_eq!(
        with_git,
        vec![
            b"install".to_vec(),
            b"--git".to_vec(),
            b"https://github.com/me/tool.git".to_vec(),
            b"--branch".to_vec(),
            b"main".to_vec(),
            b"tool".to_vec(),
        ]
    );
    let tag = RustCrateSource::GithubTag {
        owner: "me".to_string(),
        repo: "tool".to_string(),
        tag: "v1".to_string(),
    };
    assert!(matches!(
        install_args(&CrateSpec::new("tool", Some(&tag))),
        Err(Error::UnsupportedPackageSource(_))
    ));
}
