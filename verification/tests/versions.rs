use logix::cargo::{clone_version, parse_version, CrateName};
use logix::error::Error;
use logix::managed_package::{update_action, PackageStatus, PackageVersion, SemVer, UpdateAction};

fn semver(major: u64, minor: u64, patch: u64) -> PackageVersion {
    PackageVersion::Semver(SemVer {
        major,
        minor,
        patch,
        pre: String::new(),
        build: String::new(),
    })
}

#[test]
fn versions_parse_with_an_optional_leading_v() {
    let a = parse_version(&b"1.2.3".to_vec()).unwrap();
    assert_eq!(a, semver(1, 2, 3));
    let b = parse_version(&b"v13.0.0".to_vec()).unwrap();
    assert_eq!(b, semver(13, 0, 0));
    let c = parse_version(&b"1.0.0-alpha.1".to_vec()).unwrap();
    match c {
        PackageVersion::Semver(s) => {
            assert_eq!(s.major, 1);
            assert_eq!(s.pre, "alpha.1");
        }
        _ => panic!("expected a semantic version"),
    }
}

#[test]
fn unparseable_versions_are_unsupported() {
    assert!(matches!(
        parse_version(&b"not-a-version".to_vec()),
        Err(Error::UnsupportedFormat(_))
    ));
    assert!(matches!(
        parse_version(&b"".to_vec()),
        Err(Error::UnsupportedFormat(_))
    ));
}

#[test]
fn crate_names_treat_hyphen_and_underscore_alike() {
    assert_eq!(CrateName::new("my_tool").0, b"my-tool".to_vec());
    assert_eq!(CrateName::new("my-tool").0, b"my-tool".to_vec());
}

fn status(installed: PackageVersion, latest: PackageVersion) -> PackageStatus {
    PackageStatus {
        installed_version: installed,
        downloaded_version: PackageVersion::Absent,
        latest_version: latest,
    }
}

#[test]
fn need_update_is_false_when_latest_equals_installed() {
    let s = status(semver(1, 2, 3), semver(1, 2, 3));
    assert!(!s.need_update());
}

#[test]
fn need_update_is_false_when_no_latest_version_exists() {
    let s = status(semver(1, 2, 3), PackageVersion::Absent);
    assert!(!s.need_update());
    let t = status(PackageVersion::Absent, PackageVersion::Absent);
    assert!(!t.need_update());
}

#[test]
fn need_update_is_true_in_every_other_case() {
    // a newer concrete version
    assert!(status(semver(1, 2, 3), semver(1, 2, 4)).need_update());
    // nothing installed but a concrete latest version: install needed
    assert!(status(PackageVersion::Absent, semver(1, 0, 0)).need_update());
    let commit = PackageVersion::Commit {
        id: "abc123".to_string(),
        date: "2024-01-01T00:00:00Z".to_string(),
    };
    assert!(status(PackageVersion::Absent, clone_version(&commit)).need_update());
    let other = PackageVersion::Commit {
        id: "def456".to_string(),
        date: "2024-01-01T00:00:00Z".to_string(),
    };
    assert!(status(commit, other).need_update());
}

#[test]
fn commit_versions_are_equal_by_id() {
    let a = PackageVersion::Commit {
        id: "abc".to_string(),
        date: "2024-01-01T00:00:00Z".to_string(),
    };
    let b = PackageVersion::Commit {
        id: "abc".to_string(),
        date: "2025-06-06T06:06:06Z".to_string(),
    };
    assert!(a.same_version(&b));
    assert!(!status(a, b).need_update());
}

#[test]
fn semantic_versions_ignore_build_metadata() {
    let a = PackageVersion::Semver(SemVer {
        major: 1,
        minor: 0,
        patch: 0,
        pre: String::new(),
        build: "build.1".to_string(),
    });
    let b = PackageVersion::Semver(SemVer {
        major: 1,
        minor: 0,
        patch: 0,
        pre: String::new(),
        build: "build.2".to_string(),
    });
    assert!(a.same_version(&b));
}

#[test]
fn update_actions_follow_the_status() {
    assert_eq!(
        update_action(&status(semver(1, 0, 0), semver(1, 0, 0))),
        UpdateAction::Keep
    );
    assert_eq!(
        update_action(&status(PackageVersion::Absent, semver(1, 0, 0))),
        UpdateAction::Install
    );
    assert_eq!(
        update_action(&status(semver(1, 0, 0), semver(2, 0, 0))),
        UpdateAction::Update
    );
    assert_eq!(
        update_action(&status(semver(1, 0, 0), PackageVersion::Absent)),
        UpdateAction::Keep
    );
}
