use logix::config::{self, Filter};
use logix::error::Error;
use logix::managed_files::ManagedFiles;
use logix::managed_file::{FileStatus, ManagedFile, Owner};
use logix::env::Env;
use logix::Logix;

fn profile(shell: Option<config::Shell>, packages: Vec<(String, config::Package)>) -> config::Logix {
    config::Logix {
        home: config::UserProfile {
            username: "zeldor".to_string(),
            name: "Zeldon Kingly".to_string(),
            email: "zeldor@example.com".to_string(),
            shell,
            editor: Some("hx".to_string()),
            ssh: None,
            packages,
        },
    }
}

fn env_at(home: &str) -> Env {
    let mut b = Env::builder();
    b.home_dir(home.to_string());
    b.build().unwrap()
}

#[test]
fn no_files() {
    // a profile declaring a shell dotfile and no packages, over a home
    // directory that holds nothing at all, yields exactly one entry:
    // the dotfile, missing from both sides
    let home = "/nonexistent/logix-test-home/zeldor";
    let logix = Logix::new(
        env_at(home),
        profile(
            Some(config::Shell::Bash),
            vec![(
                "helix".to_string(),
                config::Package::Custom {
                    source: config::Source::GitHub {
                        owner: "helix-editor".to_string(),
                        repo: "helix".to_string(),
                    },
                    local_dir: None,
                    config_dir: config::ConfigDir::User {
                        package_name: None,
                        filter: Some(Filter {
                            ignore_starts_with: vec!["runtime/".to_string()],
                        }),
                    },
                },
            )],
        ),
    );
    let statuses = logix.calculate_config_status().unwrap();
    assert_eq!(statuses.len(), 1);
    let (status, file) = &statuses[0];
    assert_eq!(*status, FileStatus::MissingFromBoth);
    match file {
        ManagedFile::Local(owner, f) => {
            assert_eq!(*owner, Owner::Shell);
            assert_eq!(
                f.local.as_path(),
                b"/nonexistent/logix-test-home/zeldor/.bashrc".to_vec()
            );
            // the mirror side drops the leading dot
            assert_eq!(
                f.logix.as_path(),
                b"/nonexistent/logix-test-home/zeldor/.config/logix/dotfiles/bashrc".to_vec()
            );
        }
        _ => panic!("expected a mirrored file"),
    }
}

#[test]
fn environment_directories_follow_the_home() {
    let env = env_at("/home/zeldor");
    assert_eq!(env.logix_root().as_path(), b"/home/zeldor/.config/logix".to_vec());
    assert_eq!(env.user_cache().as_path(), b"/home/zeldor/.cache".to_vec());
    assert_eq!(
        env.user_config().local_path().as_path(),
        b"/home/zeldor/.config".to_vec()
    );
    assert_eq!(
        env.user_config().logix_path().as_path(),
        b"/home/zeldor/.config/logix/config".to_vec()
    );
    assert_eq!(
        env.dotfiles().logix_path().as_path(),
        b"/home/zeldor/.config/logix/dotfiles".to_vec()
    );
}

#[test]
fn packages_are_found_by_name() {
    let logix = Logix::new(
        env_at("/home/zeldor"),
        profile(
            None,
            vec![
                (
                    "ripgrep".to_string(),
                    config::Package::RustCrate {
                        crate_name: None,
                        source: None,
                        config_dir: None,
                    },
                ),
            ],
        ),
    );
    let all = logix.iter_packages();
    assert_eq!(all.len(), 1);
    assert_eq!(all[0].name(), "ripgrep");
    assert!(!all[0].is_custom());
    assert!(logix.find_package("ripgrep").is_some());
    assert!(logix.find_package("helix").is_none());
}

#[test]
fn dotfiles_must_start_with_a_dot() {
    let env = env_at("/home/zeldor");
    let mut files = ManagedFiles::new(&env);
    assert!(matches!(
        files.add_dotfile(&Owner::Shell, "bashrc"),
        Err(Error::FileNameNotDotfile(_))
    ));
    assert!(matches!(
        files.add_dotfile(&Owner::Shell, ""),
        Err(Error::GetFileName(_))
    ));
    assert!(files.add_dotfile(&Owner::Shell, ".bashrc").is_ok());
}

#[test]
fn building_without_a_home_directory_fails() {
    let mut b = Env::builder();
    assert!(matches!(b.build(), Err(Error::MissingDir(_))));
}
