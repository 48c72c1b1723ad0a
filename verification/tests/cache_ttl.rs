use std::io::Write;

use logix::based_path::BasedPath;
use logix::cache::{is_fresh, Cache};
use logix::error::Error;

#[test]
fn freshness_follows_the_ttl_boundary() {
    // fresh while now < mtime + ttl, stale at and after the boundary
    assert!(is_fresh(1_000, 1, 1_000 + 59_999));
    assert!(!is_fresh(1_000, 1, 1_000 + 60_000));
    assert!(!is_fresh(1_000, 0, 1_000));
    assert!(is_fresh(1_000, 0, 999));
    assert!(is_fresh(i64::MAX, u64::MAX, i64::MAX));
}

#[test]
fn memory_tier_returns_the_stored_bytes_without_compute() {
    let dir = BasedPath::new("/nonexistent/logix-cache-test-dir").unwrap();
    let mut cache = Cache::new(dir);
    let first = cache
        .get_or_insert("some/key", 60, || Ok(b"value-one".to_vec()))
        .unwrap();
    assert_eq!(first, b"value-one".to_vec());
    // the second read must come from the memory tier: a computation
    // that would fail shows that compute was not consulted
    let second = cache
        .get_or_insert("some/key", 60, || {
            Err(Error::UnsupportedFormat("never run".to_string()))
        })
        .unwrap();
    assert_eq!(second, b"value-one".to_vec());
}

#[test]
fn compute_errors_pass_through_untouched() {
    let dir = BasedPath::new("/nonexistent/logix-cache-test-dir").unwrap();
    let mut cache = Cache::new(dir);
    let r = cache.get_or_insert("missing", 0, || {
        Err(Error::ShellCommandFailed("probe".to_string(), "boom".to_string()))
    });
    assert!(matches!(r, Err(Error::ShellCommandFailed(_, _))));
    // nothing was stored for the failed key
    let r2 = cache.get_or_insert("missing", 0, || Ok(b"later".to_vec()));
    assert_eq!(r2.unwrap(), b"later".to_vec());
}

#[test]
fn computed_values_are_queued_for_the_disk() {
    let dir = BasedPath::new("/nonexistent/logix-cache-test-dir").unwrap();
    let mut cache = Cache::new(dir);
    cache.get_or_insert("k", 60, || Ok(b"v".to_vec())).unwrap();
    let pending = cache.take_pending_writes();
    assert_eq!(pending, vec![(b"k.json".to_vec(), b"v".to_vec())]);
    assert!(cache.take_pending_writes().is_empty());
}

#[test]
fn fresh_disk_entries_are_read_back_byte_identical() {
    // a value written to the cache directory and read back through a
    // new cache before its ttl elapses comes back byte for byte,
    // without invoking compute
    let dir = tempfile::TempDir::new().unwrap();
    let mut file = tempfile::Builder::new()
        .suffix(".json")
        .tempfile_in(dir.path())
        .unwrap();
    file.write_all(b"{\"cached\": 42}").unwrap();
    file.flush().unwrap();
    let path = file.path().to_path_buf();
    let key = path.file_stem().unwrap().to_str().unwrap().to_string();
    let _keep = file.keep().unwrap();

    let base = BasedPath::new(dir.path().to_str().unwrap()).unwrap();
    let mut cache = Cache::new(base);
    let got = cache
        .get_or_insert(&key, 60, || {
            Err(Error::UnsupportedFormat("compute must not run".to_string()))
        })
        .unwrap();
    assert_eq!(got, b"{\"cached\": 42}".to_vec());

    // with a zero ttl the same entry counts as stale and compute runs
    let base2 = BasedPath::new(dir.path().to_str().unwrap()).unwrap();
    let mut cache2 = Cache::new(base2);
    let recomputed = cache2
        .get_or_insert(&key, 0, || Ok(b"fresh".to_vec()))
        .unwrap();
    assert_eq!(recomputed, b"fresh".to_vec());
}
