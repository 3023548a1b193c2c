use blivet::config::LockfileSetting;
use blivet::host::{HostFacts, PathFacts};
use blivet::path::{paths_same, UnixPath};
use blivet::{DaemonConfig, DaemonizeError};

use nix::fcntl::{open, AtFlags, OFlag, AT_FDCWD};
use nix::sys::stat::Mode;
use nix::unistd::{faccessat, geteuid, AccessFlags};

/// Observes the host for a configuration.
fn observe(config: &DaemonConfig) -> HostFacts {
    let mut paths = Vec::new();
    for path in config.paths_to_observe() {
        let text = path.display();
        let real = std::path::Path::new(&text);
        paths.push(PathFacts {
            present: real.exists(),
            is_dir: real.is_dir(),
            writable: faccessat(
                AT_FDCWD,
                text.as_str(),
                AccessFlags::W_OK,
                AtFlags::AT_EACCESS,
            )
            .is_ok(),
            canonical: match real.canonicalize() {
                Ok(p) => Some(UnixPath::new(p.to_str().unwrap())),
                Err(_) => None,
            },
            path,
        });
    }
    HostFacts::new(geteuid().as_raw(), paths)
}

fn validate(config: &DaemonConfig) -> Result<(), DaemonizeError> {
    config.validate(&observe(config))
}

fn message(config: &DaemonConfig) -> String {
    validate(config).unwrap_err().to_string()
}

fn touch(path: &str) {
    open(
        path,
        OFlag::O_WRONLY | OFlag::O_CREAT,
        Mode::from_bits_truncate(0o644),
    )
    .unwrap();
}

#[test]
fn new_equals_default() {
    assert_eq!(DaemonConfig::new(), DaemonConfig::default());
}

#[test]
fn default_values() {
    let config = DaemonConfig::default();
    assert_eq!(config.pidfile, None);
    assert_eq!(config.chdir, UnixPath::new("/"));
    assert_eq!(config.umask, 0);
    assert_eq!(config.stdout, None);
    assert_eq!(config.stderr, None);
    assert!(!config.append);
    assert_eq!(config.lockfile, LockfileSetting::Derive);
    assert_eq!(config.effective_lockfile(), None);
    assert_eq!(config.user, None);
    assert_eq!(config.group, None);
    assert!(!config.foreground);
    assert!(config.close_fds);
    assert!(config.cleanup_on_drop);
    assert!(config.chown_paths);
    assert!(config.env.is_empty());
}

#[test]
fn builder_setters_replace() {
    let mut config = DaemonConfig::new();
    config.pidfile("/a").pidfile("/b");
    assert_eq!(config.pidfile, Some(UnixPath::new("/b")));
}

#[test]
fn env_accumulates() {
    let mut config = DaemonConfig::new();
    config.env("A", "1").env("B", "2").env("A", "3");
    assert_eq!(
        config.env,
        vec![
            ("A".to_string(), "1".to_string()),
            ("B".to_string(), "2".to_string()),
            ("A".to_string(), "3".to_string()),
        ]
    );
}

#[test]
fn group_builder_sets_field() {
    let mut config = DaemonConfig::new();
    config.group("wheel");
    assert_eq!(config.group, Some("wheel".into()));
}

#[test]
fn foreground_builder_sets_field() {
    let mut config = DaemonConfig::new();
    config.foreground(true);
    assert!(config.foreground);
}

#[test]
fn close_fds_builder_sets_field() {
    let mut config = DaemonConfig::new();
    config.close_fds(false);
    assert!(!config.close_fds);
}

#[test]
fn builders_set_their_field_only() {
    let mut config = DaemonConfig::new();
    config
        .chdir("/srv")
        .umask(0o027)
        .stdout("/o")
        .stderr(String::from("/e"))
        .append(true)
        .user("daemon")
        .cleanup_on_drop(false)
        .chown_paths(false);
    assert_eq!(config.chdir, UnixPath::new("/srv"));
    assert_eq!(config.umask, 0o027);
    assert_eq!(config.stdout, Some(UnixPath::new("/o")));
    assert_eq!(config.stderr, Some(UnixPath::new("/e")));
    assert!(config.append);
    assert_eq!(config.user, Some("daemon".into()));
    assert!(!config.cleanup_on_drop);
    assert!(!config.chown_paths);
    assert_eq!(config.pidfile, None);
    assert_eq!(config.group, None);
    let copy = config.clone();
    assert_eq!(copy, config);
}

#[test]
fn lock_is_derived_from_a_lone_pidfile() {
    let mut config = DaemonConfig::new();
    config.pidfile("/run/a.pid");
    assert_eq!(
        config.effective_lockfile(),
        Some(&UnixPath::new("/run/a.pid"))
    );
    assert_eq!(DaemonConfig::new().effective_lockfile(), None);
}

#[test]
fn last_lockfile_call_wins() {
    let mut config = DaemonConfig::new();
    config.pidfile("/run/a.pid").lockfile("/run/a.lock");
    assert_eq!(
        config.effective_lockfile(),
        Some(&UnixPath::new("/run/a.lock"))
    );
    config.no_lockfile();
    assert_eq!(config.effective_lockfile(), None);
    config.lockfile("/run/b.lock");
    assert_eq!(
        config.effective_lockfile(),
        Some(&UnixPath::new("/run/b.lock"))
    );
}

#[test]
fn validate_chdir_must_be_absolute() {
    let mut config = DaemonConfig::new();
    config.chdir("relative/path");
    assert!(matches!(
        validate(&config),
        Err(DaemonizeError::ValidationError(_))
    ));
}

#[test]
fn validate_chdir_must_exist() {
    let mut config = DaemonConfig::new();
    config.chdir("/nonexistent_daemonize_test_dir");
    assert!(matches!(
        validate(&config),
        Err(DaemonizeError::ValidationError(_))
    ));
}

#[test]
fn validate_chdir_must_be_directory() {
    let dir = tempfile::tempdir().unwrap();
    let file = dir.path().join("not_a_dir");
    touch(file.to_str().unwrap());
    let mut config = DaemonConfig::new();
    config.chdir(file.to_str().unwrap());
    assert!(matches!(
        validate(&config),
        Err(DaemonizeError::ValidationError(msg)) if msg.contains("not a directory")
    ));
}

#[test]
fn validate_pidfile_must_be_absolute() {
    let mut config = DaemonConfig::new();
    config.pidfile("relative.pid");
    assert!(matches!(
        validate(&config),
        Err(DaemonizeError::ValidationError(_))
    ));
}

#[test]
fn validate_pidfile_not_directory() {
    let mut config = DaemonConfig::new();
    config.pidfile("/tmp");
    assert!(matches!(
        validate(&config),
        Err(DaemonizeError::ValidationError(_))
    ));
    assert_eq!(
        message(&config),
        "validation error: pidfile path is a directory"
    );
}

#[test]
fn validate_stdout_must_be_absolute() {
    let mut config = DaemonConfig::new();
    config.stdout("relative.log");
    assert!(matches!(
        validate(&config),
        Err(DaemonizeError::ValidationError(_))
    ));
}

#[test]
fn validate_stderr_must_be_absolute() {
    let mut config = DaemonConfig::new();
    config.stderr("relative.log");
    assert!(matches!(
        validate(&config),
        Err(DaemonizeError::ValidationError(_))
    ));
}

#[test]
fn validate_lockfile_must_be_absolute() {
    let mut config = DaemonConfig::new();
    config.lockfile("relative.lock");
    assert!(matches!(
        validate(&config),
        Err(DaemonizeError::ValidationError(_))
    ));
}

#[test]
fn validate_lockfile_pidfile_same_ok() {
    let dir = tempfile::tempdir().unwrap();
    let path = dir.path().join("combined.pid");
    let path_str = path.to_str().unwrap();
    let mut config = DaemonConfig::new();
    config.lockfile(path_str).pidfile(path_str);
    let result = validate(&config);
    assert!(
        !matches!(&result, Err(DaemonizeError::ValidationError(msg)) if msg.contains("same path"))
    );
    assert!(result.is_ok());
}

#[test]
fn validate_lockfile_stdout_overlap_rejected() {
    let dir = tempfile::tempdir().unwrap();
    let path = dir.path().join("file.log");
    let path_str = path.to_str().unwrap();
    let mut config = DaemonConfig::new();
    config.lockfile(path_str).stdout(path_str);
    assert!(matches!(
        validate(&config),
        Err(DaemonizeError::ValidationError(_))
    ));
    assert_eq!(
        message(&config),
        "validation error: lockfile and stdout must not be the same path"
    );
}

#[test]
fn validate_lockfile_stderr_overlap_rejected() {
    let dir = tempfile::tempdir().unwrap();
    let path = dir.path().join("file.log");
    let path_str = path.to_str().unwrap();
    let mut config = DaemonConfig::new();
    config.lockfile(path_str).stderr(path_str);
    assert!(matches!(
        validate(&config),
        Err(DaemonizeError::ValidationError(_))
    ));
}

#[test]
fn validate_pidfile_stdout_overlap_rejected() {
    let dir = tempfile::tempdir().unwrap();
    let path = dir.path().join("file.log");
    let path_str = path.to_str().unwrap();
    let mut config = DaemonConfig::new();
    config.pidfile(path_str).stdout(path_str);
    assert!(matches!(
        validate(&config),
        Err(DaemonizeError::ValidationError(_))
    ));
}

#[test]
fn validate_pidfile_stderr_overlap_rejected() {
    let dir = tempfile::tempdir().unwrap();
    let path = dir.path().join("file.log");
    let path_str = path.to_str().unwrap();
    let mut config = DaemonConfig::new();
    config.pidfile(path_str).stderr(path_str);
    assert!(matches!(
        validate(&config),
        Err(DaemonizeError::ValidationError(_))
    ));
    config.no_lockfile();
    assert_eq!(
        message(&config),
        "validation error: pidfile and stderr must not be the same path"
    );
}

#[test]
fn validate_overlap_by_canonical_path() {
    let dir = tempfile::tempdir().unwrap();
    let path = dir.path().join("file.log");
    touch(path.to_str().unwrap());
    let other = format!("{}/./file.log", dir.path().to_str().unwrap());
    let mut config = DaemonConfig::new();
    config
        .pidfile(path.to_str().unwrap())
        .stdout(other.as_str())
        .no_lockfile();
    assert_eq!(
        message(&config),
        "validation error: pidfile and stdout must not be the same path"
    );
}

#[test]
fn validate_shared_output_is_ok() {
    let dir = tempfile::tempdir().unwrap();
    let path = dir.path().join("file.log");
    let mut config = DaemonConfig::new();
    config
        .stdout(path.to_str().unwrap())
        .stderr(path.to_str().unwrap());
    assert!(validate(&config).is_ok());
}

#[test]
fn validate_env_key_empty_rejected() {
    let mut config = DaemonConfig::new();
    config.env("", "value");
    assert!(matches!(
        validate(&config),
        Err(DaemonizeError::ValidationError(_))
    ));
}

#[test]
fn validate_env_key_with_equals_rejected() {
    let mut config = DaemonConfig::new();
    config.env("KEY=BAD", "value");
    assert!(matches!(
        validate(&config),
        Err(DaemonizeError::ValidationError(_))
    ));
    assert_eq!(
        message(&config),
        "validation error: environment key must not contain '=': KEY=BAD"
    );
}

#[test]
fn validate_env_nul_rejected() {
    let mut config = DaemonConfig::new();
    config.env("A\0B", "value");
    assert!(matches!(
        validate(&config),
        Err(DaemonizeError::ValidationError(_))
    ));
    let mut config = DaemonConfig::new();
    config.env("KEY", "a\0b");
    assert_eq!(
        message(&config),
        "validation error: environment value must not contain a NUL byte: KEY"
    );
    let mut config = DaemonConfig::new();
    config.env("KEY", "").env("KEY", "a=b");
    assert!(validate(&config).is_ok());
}

#[test]
fn validate_nul_in_path_rejected() {
    let mut config = DaemonConfig::new();
    config.pidfile("/tmp/a\0b");
    assert_eq!(
        message(&config),
        "validation error: pidfile path contains NUL byte"
    );
    let mut config = DaemonConfig::new();
    config.chdir("/\0");
    assert_eq!(
        message(&config),
        "validation error: chdir path contains NUL byte"
    );
}

#[test]
fn validate_umask_range() {
    let mut config = DaemonConfig::new();
    config.umask(0o7777);
    assert!(validate(&config).is_ok());
    config.umask(0o10000);
    assert_eq!(
        message(&config),
        "validation error: umask out of range (max 7777)"
    );
}

#[test]
fn validate_default_config_ok() {
    assert!(validate(&DaemonConfig::new()).is_ok());
}

#[test]
fn validate_pidfile_parent_nonwritable() {
    let mut config = DaemonConfig::new();
    config.pidfile("/nonexistent_parent_dir_xyz/test.pid");
    assert!(matches!(
        validate(&config),
        Err(DaemonizeError::ValidationError(msg)) if msg.contains("parent")
    ));
}

#[test]
fn validate_stdout_parent_nonwritable() {
    let mut config = DaemonConfig::new();
    config.stdout("/nonexistent_parent_dir_xyz/test.log");
    assert!(matches!(
        validate(&config),
        Err(DaemonizeError::ValidationError(msg)) if msg.contains("parent")
    ));
}

#[test]
fn validate_stderr_parent_nonwritable() {
    let mut config = DaemonConfig::new();
    config.stderr("/nonexistent_parent_dir_xyz/test.log");
    assert!(matches!(
        validate(&config),
        Err(DaemonizeError::ValidationError(msg)) if msg.contains("parent")
    ));
}

#[test]
fn validate_goes_by_the_observations() {
    let mut config = DaemonConfig::new();
    config.stdout("/var/log/app.log").user("nobody");
    let facts = |path: &str, writable: bool| PathFacts {
        path: UnixPath::new(path),
        present: true,
        is_dir: true,
        writable,
        canonical: None,
    };
    let host = HostFacts::new(1000, vec![facts("/", true), facts("/var/log", false)]);
    assert_eq!(
        config.validate(&host).unwrap_err().to_string(),
        "validation error: stdout parent directory is not writable"
    );
    let host = HostFacts::new(1000, vec![facts("/", true), facts("/var/log", true)]);
    assert_eq!(
        config.validate(&host).unwrap_err().to_string(),
        "permission denied: must be root to switch users or groups"
    );
    let host = HostFacts::new(0, vec![facts("/", true), facts("/var/log", true)]);
    assert!(config.validate(&host).is_ok());
    config.stdout("/");
    assert_eq!(
        config.validate(&host).unwrap_err().to_string(),
        "validation error: stdout path has no parent directory"
    );
}

#[test]
fn paths_to_observe_lists_files_and_parents() {
    let mut config = DaemonConfig::new();
    config.pidfile("/run/app/a.pid").stdout("/a.log");
    let wanted: Vec<UnixPath> = ["/", "/run/app/a.pid", "/run/app", "/a.log", "/", "/run/app/a.pid", "/run/app"]
        .iter()
        .map(|p| UnixPath::new(p))
        .collect();
    assert_eq!(config.paths_to_observe(), wanted);
}

#[test]
fn paths_same_canonicalize_fallback() {
    // Paths that don't exist have no canonical form: compare their bytes.
    let a = UnixPath::new("/nonexistent/a");
    let b = UnixPath::new("/nonexistent/b");
    assert!(paths_same(&a, &None, &a, &None));
    assert!(!paths_same(&a, &None, &b, &None));
}

#[test]
fn nonexistent_paths_fall_back_to_byte_equality() {
    let a = UnixPath::new("/nonexistent/a");
    let b = UnixPath::new("/nonexistent/b");
    assert!(paths_same(&a, &None, &a.clone(), &None));
    assert!(!paths_same(&a, &None, &b, &None));
    // one canonical form is not enough
    assert!(!paths_same(&a, &Some(b.clone()), &b, &None));
}

#[test]
fn symlink_and_target_are_canonically_equal() {
    let dir = tempfile::tempdir().unwrap();
    let target = dir.path().join("a");
    touch(target.to_str().unwrap());
    let link = dir.path().join("link");
    nix::unistd::symlinkat(&target, AT_FDCWD, &link).unwrap();
    let of = |p: &str| {
        let canonical = std::path::Path::new(p).canonicalize().unwrap();
        Some(UnixPath::new(canonical.to_str().unwrap()))
    };
    let (t, l) = (target.to_str().unwrap(), link.to_str().unwrap());
    assert!(paths_same(&UnixPath::new(t), &of(t), &UnixPath::new(l), &of(l)));
}

#[test]
fn existing_distinct_files_differ() {
    let dir = tempfile::tempdir().unwrap();
    let a = dir.path().join("a");
    let b = dir.path().join("b");
    touch(a.to_str().unwrap());
    touch(b.to_str().unwrap());
    let of = |p: &str| {
        let canonical = std::path::Path::new(p).canonicalize().unwrap();
        Some(UnixPath::new(canonical.to_str().unwrap()))
    };
    let (a, b) = (a.to_str().unwrap(), b.to_str().unwrap());
    assert!(!paths_same(&UnixPath::new(a), &of(a), &UnixPath::new(b), &of(b)));
}

#[test]
fn validate_rejects_invalid_config_before_fork() {
    let mut config = DaemonConfig::new();
    config.pidfile("relative.pid");
    let result = validate(&config);
    assert!(result.is_err());
    // The sequence, and with it the first fork, is not even started.
    assert!(blivet::daemonize_unchecked(&config, &observe(&config)).is_err());
}

#[test]
fn validate_group_requires_root() {
    // Non-root with group should fail validation
    if geteuid().as_raw() != 0 {
        let mut config = DaemonConfig::new();
        config.group("wheel");
        assert!(matches!(
            validate(&config),
            Err(DaemonizeError::PermissionDenied(_))
        ));
    }
}

#[test]
fn validate_user_or_group_requires_root() {
    // Non-root with user should fail validation
    if geteuid().as_raw() != 0 {
        let mut config = DaemonConfig::new();
        config.user("nobody");
        assert!(matches!(
            validate(&config),
            Err(DaemonizeError::PermissionDenied(_))
        ));
    }
}
