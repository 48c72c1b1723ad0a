use logix::based_path::BasedPath;
use logix::error::{Error, PathError};

fn base() -> BasedPath {
    BasedPath::new("/home/zeldor").unwrap()
}

#[test]
fn new_accepts_normal_absolute_paths() {
    assert!(BasedPath::new("/home/zeldor").is_ok());
    assert!(BasedPath::new("/a/b/c").is_ok());
}

#[test]
fn new_rejects_relative_and_messy_paths() {
    assert!(BasedPath::new("home/zeldor").is_err());
    assert!(BasedPath::new("").is_err());
    assert!(BasedPath::new("/home//zeldor").is_err());
    assert!(BasedPath::new("/home/zeldor/").is_err());
    assert!(BasedPath::new("/home/./zeldor").is_err());
    assert!(BasedPath::new("/home/../zeldor").is_err());
    assert!(BasedPath::new("/home/zel\"dor").is_err());
}

#[test]
fn join_builds_descendants() {
    let p = base().join(".config").unwrap();
    assert_eq!(p.as_path(), b"/home/zeldor/.config".to_vec());
    let q = p.join("helix/config.toml").unwrap();
    assert_eq!(q.as_path(), b"/home/zeldor/.config/helix/config.toml".to_vec());
    assert_eq!(q.rel_path(), b".config/helix/config.toml".to_vec());
    assert_eq!(q.as_base_path(), b"/home/zeldor".to_vec());
}

#[test]
fn join_normalizes_dots() {
    let p = base().join("a/./b/../c").unwrap();
    assert_eq!(p.as_path(), b"/home/zeldor/a/c".to_vec());
    let q = base().join("a/..").unwrap();
    assert_eq!(q.as_path(), b"/home/zeldor".to_vec());
    assert_eq!(q.rel_path(), b"".to_vec());
}

#[test]
fn join_rejects_absolute_and_escaping_paths() {
    // the target must stay a descendant of the anchor
    assert!(matches!(
        base().join("/etc/passwd"),
        Err(Error::JoinPath(PathError::JoinAbsolute))
    ));
    assert!(matches!(
        base().join(".."),
        Err(Error::JoinPath(PathError::Escape))
    ));
    assert!(matches!(
        base().join("a/../../b"),
        Err(Error::JoinPath(PathError::Escape))
    ));
    assert!(matches!(
        base().join("a\nb"),
        Err(Error::JoinPath(PathError::InvalidChar))
    ));
}

#[test]
fn rebase_clears_the_relative_part() {
    let p = base().join(".config/logix").unwrap();
    let r = p.rebased();
    assert_eq!(r.as_base_path(), b"/home/zeldor/.config/logix".to_vec());
    assert_eq!(r.rel_path(), b"".to_vec());
    // joins are now validated against the new anchor
    assert!(r.join("..").is_err());
    let s = r.join("config").unwrap();
    assert_eq!(s.as_path(), b"/home/zeldor/.config/logix/config".to_vec());
}

#[test]
fn with_path_buf_requires_the_base_prefix() {
    let p = base();
    let ok = p.with_path_buf("/home/zeldor/.bashrc").unwrap();
    assert_eq!(ok.as_path(), b"/home/zeldor/.bashrc".to_vec());
    assert_eq!(ok.rel_path(), b".bashrc".to_vec());
    let same = p.with_path_buf("/home/zeldor").unwrap();
    assert_eq!(same.rel_path(), b"".to_vec());
    assert!(matches!(
        p.with_path_buf("/home/zeldorette/.bashrc"),
        Err(Error::PathNotBasedOn(_, _))
    ));
    assert!(matches!(
        p.with_path_buf("/etc/passwd"),
        Err(Error::PathNotBasedOn(_, _))
    ));
}
