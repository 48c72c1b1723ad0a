use logix::config::Filter;
use logix::walk_dir::{merge_listings, sort_dedup_paths, WalkEntry};

fn bytes(v: &[&str]) -> Vec<Vec<u8>> {
    v.iter().map(|s| s.as_bytes().to_vec()).collect()
}

fn filter(v: &[&str]) -> Filter {
    Filter { ignore_starts_with: v.iter().map(|s| s.to_string()).collect() }
}

#[test]
fn merge_classifies_every_path_once() {
    // R = {a, both, z}, M = {both, m}
    let real = bytes(&["a", "both", "z"]);
    let mirror = bytes(&["both", "m"]);
    let out = merge_listings(&real, &mirror, &Filter::empty());
    assert_eq!(
        out,
        vec![
            WalkEntry::Local(b"a".to_vec()),
            WalkEntry::Both(b"both".to_vec()),
            WalkEntry::Logix(b"m".to_vec()),
            WalkEntry::Local(b"z".to_vec()),
        ]
    );
    // total count is |R union M|
    assert_eq!(out.len(), 4);
}

#[test]
fn merge_emits_in_strictly_increasing_component_order() {
    // "a/x" sorts before "a.b" in component order, although byte
    // order would say otherwise
    let real = sort_dedup_paths(bytes(&["a.b", "a/x"]));
    assert_eq!(real, bytes(&["a/x", "a.b"]));
    let out = merge_listings(&real, &Vec::new(), &Filter::empty());
    assert_eq!(
        out,
        vec![WalkEntry::Local(b"a/x".to_vec()), WalkEntry::Local(b"a.b".to_vec())]
    );
}

#[test]
fn sort_dedup_drops_duplicates() {
    let sorted = sort_dedup_paths(bytes(&["b", "a", "b", "c", "a"]));
    assert_eq!(sorted, bytes(&["a", "b", "c"]));
}

#[test]
fn exclusion_removes_real_side_only() {
    // excluding runtime/ removes real paths under it from Local and
    // Both, while mirror-only entries under it are unaffected
    let real = bytes(&["config.toml", "runtime/queries.scm", "runtime/themes.toml"]);
    let mirror = bytes(&["config.toml", "runtime/themes.toml", "runtime/zzz.txt"]);
    let out = merge_listings(&real, &mirror, &filter(&["runtime/"]));
    assert_eq!(
        out,
        vec![
            WalkEntry::Both(b"config.toml".to_vec()),
            WalkEntry::Logix(b"runtime/themes.toml".to_vec()),
            WalkEntry::Logix(b"runtime/zzz.txt".to_vec()),
        ]
    );
}

#[test]
fn filter_matches_whole_components() {
    let f = filter(&["hello"]);
    assert!(f.should_include(&b"hello.txt".to_vec()));
    assert!(!f.should_include(&b"hello/world.txt".to_vec()));
    assert!(!f.should_include(&b"hello".to_vec()));
    let g = filter(&["runtime/"]);
    assert!(!g.should_include(&b"runtime/x".to_vec()));
    assert!(g.should_include(&b"runtimeX".to_vec()));
    assert!(g.should_include(&b"run".to_vec()));
}
