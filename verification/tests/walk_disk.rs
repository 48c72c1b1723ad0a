use std::io::Write;

use logix::based_path::BasedPath;
use logix::config::Filter;
use logix::env::{Env, ShadowedDir};
use logix::managed_file::{FileStatus, ManagedFile, Owner};
use logix::managed_files::ManagedFiles;

/// Write an exactly-named file into a directory by persisting a
/// temporary file over it.
fn write_file(dir: &std::path::Path, name: &str, data: &[u8]) {
    let mut tf = tempfile::NamedTempFile::new_in(dir).unwrap();
    tf.write_all(data).unwrap();
    tf.flush().unwrap();
    tf.persist(dir.join(name)).unwrap();
}

struct Fixture {
    real: tempfile::TempDir,
    mirror: tempfile::TempDir,
    env: Env,
}

impl Fixture {
    fn new() -> Fixture {
        let mut b = Env::builder();
        b.home_dir("/nonexistent/walker-scenario-home".to_string());
        Fixture {
            real: tempfile::TempDir::new().unwrap(),
            mirror: tempfile::TempDir::new().unwrap(),
            env: b.build().unwrap(),
        }
    }

    fn pair(&self) -> ShadowedDir {
        ShadowedDir {
            local: BasedPath::new(self.real.path().to_str().unwrap()).unwrap(),
            logix: BasedPath::new(self.mirror.path().to_str().unwrap()).unwrap(),
        }
    }

    /// Walk both sides with the filter and classify every tracked
    /// file, as the catalog does.
    fn statuses(&self, filter: &Filter) -> Vec<(FileStatus, String)> {
        let mut mf = ManagedFiles::new(&self.env);
        mf.add_dir(&Owner::Package("helix".to_string()), &self.pair(), filter)
            .unwrap();
        mf.finalize()
            .into_iter()
            .map(|file| {
                let status = file.calculate_status();
                let rel = match &file {
                    ManagedFile::Local(_, f) => String::from_utf8(f.local.rel_path()).unwrap(),
                    ManagedFile::Virtual(_, f) => String::from_utf8(f.local.rel_path()).unwrap(),
                };
                (status, rel)
            })
            .collect()
    }
}

#[test]
fn tracked_files_follow_the_disk() {
    let fx = Fixture::new();
    let filter = Filter { ignore_starts_with: vec!["ignored".to_string()] };

    // nothing on either side: no tracked files
    assert_eq!(fx.statuses(&filter), vec![]);

    // a real-side file is emitted once, as locally added
    write_file(fx.real.path(), "config.toml", b"# Dummy config");
    assert_eq!(
        fx.statuses(&filter),
        vec![(FileStatus::LocalAdded, "config.toml".to_string())]
    );

    // a mirror-only file is one additional mirror-side entry
    write_file(fx.mirror.path(), "theme.toml", b"# Dummy theme");
    assert_eq!(
        fx.statuses(&filter),
        vec![
            (FileStatus::LocalAdded, "config.toml".to_string()),
            (FileStatus::LogixAdded, "theme.toml".to_string()),
        ]
    );

    // differing real-side bytes make that file modified
    write_file(fx.real.path(), "theme.toml", b"# Dummy theme 2");
    assert_eq!(
        fx.statuses(&filter),
        vec![
            (FileStatus::LocalAdded, "config.toml".to_string()),
            (FileStatus::Modified, "theme.toml".to_string()),
        ]
    );

    // equal bytes again make it up to date
    write_file(fx.real.path(), "theme.toml", b"# Dummy theme");
    assert_eq!(
        fx.statuses(&filter),
        vec![
            (FileStatus::LocalAdded, "config.toml".to_string()),
            (FileStatus::UpToDate, "theme.toml".to_string()),
        ]
    );

    // a real-side file under the excluded prefix produces no entry
    write_file(fx.real.path(), "ignored", b"# Dummy file");
    assert_eq!(
        fx.statuses(&filter),
        vec![
            (FileStatus::LocalAdded, "config.toml".to_string()),
            (FileStatus::UpToDate, "theme.toml".to_string()),
        ]
    );

    // the same file is tracked once the filter no longer excludes it
    assert_eq!(
        fx.statuses(&Filter::empty()),
        vec![
            (FileStatus::LocalAdded, "config.toml".to_string()),
            (FileStatus::LocalAdded, "ignored".to_string()),
            (FileStatus::UpToDate, "theme.toml".to_string()),
        ]
    );
}
