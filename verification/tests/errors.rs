use std::collections::{BTreeMap, BTreeSet};

use blivet::path::UnixPath;
use blivet::{DaemonConfig, DaemonContext, DaemonizeError};

#[test]
fn display_includes_prefix() {
    let err = DaemonizeError::ValidationError("test message".into());
    assert_eq!(err.to_string(), "validation error: test message");
}

#[test]
fn error_display_group_not_found() {
    let err = DaemonizeError::GroupNotFound("nobody".into());
    assert_eq!(err.to_string(), "group not found: nobody");
}

#[test]
fn error_display_chown_error() {
    let err = DaemonizeError::ChownError("/tmp/foo: permission denied".into());
    assert_eq!(err.to_string(), "chown error: /tmp/foo: permission denied");
}

#[test]
fn lock_conflict_display_names_the_path() {
    let err = DaemonizeError::LockConflict {
        path: UnixPath::new("/run/app.pid"),
    };
    assert_eq!(
        err.to_string(),
        "lock conflict: /run/app.pid is already locked by another process"
    );
}

#[test]
fn lock_conflict_display_replaces_invalid_bytes() {
    let err = DaemonizeError::LockConflict {
        path: UnixPath::from_bytes(vec![b'/', 0xff, b'x']),
    };
    assert_eq!(
        err.to_string(),
        "lock conflict: /\u{fffd}x is already locked by another process"
    );
}

#[test]
fn exit_codes() {
    assert_eq!(
        DaemonizeError::ValidationError(String::new()).exit_code(),
        64
    );
    assert_eq!(
        DaemonizeError::ProgramNotFound(String::new()).exit_code(),
        66
    );
    assert_eq!(DaemonizeError::UserNotFound(String::new()).exit_code(), 67);
    assert_eq!(DaemonizeError::GroupNotFound(String::new()).exit_code(), 67);
    assert_eq!(
        DaemonizeError::LockConflict {
            path: UnixPath::new("")
        }
        .exit_code(),
        69
    );
    assert_eq!(DaemonizeError::LockfileError(String::new()).exit_code(), 73);
    assert_eq!(DaemonizeError::ForkFailed(String::new()).exit_code(), 71);
    assert_eq!(DaemonizeError::SetsidFailed(String::new()).exit_code(), 71);
    assert_eq!(DaemonizeError::ChdirFailed(String::new()).exit_code(), 71);
    assert_eq!(
        DaemonizeError::PermissionDenied(String::new()).exit_code(),
        77
    );
    assert_eq!(DaemonizeError::PidfileError(String::new()).exit_code(), 73);
    assert_eq!(
        DaemonizeError::OutputFileError(String::new()).exit_code(),
        73
    );
    assert_eq!(DaemonizeError::ChownError(String::new()).exit_code(), 73);
    assert_eq!(DaemonizeError::ExecFailed(String::new()).exit_code(), 71);
}

#[test]
fn system_and_notification_errors() {
    let err = DaemonizeError::SystemError("sigprocmask: EINVAL".into());
    assert_eq!(err.exit_code(), 71);
    assert_eq!(err.to_string(), "system error: sigprocmask: EINVAL");
    let err = DaemonizeError::NotifyFailed("EPIPE: Broken pipe".into());
    assert_eq!(err.exit_code(), 71);
    assert_eq!(
        err.to_string(),
        "failed to notify parent: EPIPE: Broken pipe"
    );
    let err = DaemonizeError::PrivilegesNotDropped;
    assert_eq!(err.exit_code(), 70);
    assert_eq!(
        err.to_string(),
        "privileges not dropped: a user/group was configured but \
         drop_privileges() was never called before notifying readiness"
    );
}

#[test]
fn application_code_is_kept_unless_zero() {
    assert_eq!(DaemonizeError::application(75, "busy").exit_code(), 75);
    assert_eq!(DaemonizeError::application(255, "busy").exit_code(), 255);
    assert_eq!(DaemonizeError::application(0, "busy").exit_code(), 70);
    assert_eq!(
        DaemonizeError::application(75, String::from("busy")).to_string(),
        "application error: busy"
    );
}

#[test]
fn every_display_has_its_prefix() {
    let cases: Vec<(DaemonizeError, &str)> = vec![
        (DaemonizeError::ProgramNotFound("x".into()), "program not found: x"),
        (DaemonizeError::UserNotFound("x".into()), "user not found: x"),
        (DaemonizeError::LockfileError("x".into()), "lockfile error: x"),
        (DaemonizeError::ForkFailed("x".into()), "fork failed: x"),
        (DaemonizeError::SetsidFailed("x".into()), "setsid failed: x"),
        (DaemonizeError::ChdirFailed("x".into()), "chdir failed: x"),
        (DaemonizeError::PermissionDenied("x".into()), "permission denied: x"),
        (DaemonizeError::PidfileError("x".into()), "pidfile error: x"),
        (DaemonizeError::OutputFileError("x".into()), "output file error: x"),
        (DaemonizeError::ExecFailed("x".into()), "exec failed: x"),
    ];
    for (err, text) in &cases {
        assert_eq!(err.to_string(), *text);
        assert_ne!(err.exit_code(), 0);
    }
}

#[test]
fn send_sync() {
    fn assert_send_sync<T: Send + Sync>() {}
    assert_send_sync::<DaemonConfig>();
    assert_send_sync::<DaemonContext>();
    assert_send_sync::<DaemonizeError>();
}

/// The documented exit codes.
const EXIT_CODES: &str = "\
| Variant            | Exit code   | Meaning                                  |
| ------------------ | ----------- | ---------------------------------------- |
| `ValidationError`  | 64          | Bad config (paths, env keys, overlaps)   |
| `ProgramNotFound`  | 66          | CLI: program missing or not executable   |
| `UserNotFound`     | 67          | User doesn't exist                       |
| `GroupNotFound`    | 67          | Group doesn't exist                      |
| `LockConflict`     | 69          | Lockfile held by another process         |
| `LockfileError`    | 73          | Can't open lockfile                      |
| `PidfileError`     | 73          | Can't write pidfile                      |
| `OutputFileError`  | 73          | Can't open/redirect output file          |
| `ChownError`       | 73          | Can't chown pidfile/lockfile/output file |
| `ForkFailed`       | 71          | `fork()` error                           |
| `SetsidFailed`     | 71          | `setsid()` error                         |
| `ChdirFailed`      | 71          | `chdir()` error                          |
| `PermissionDenied` | 77          | Not root, or setuid/setgid failed        |
| `ExecFailed`       | 71          | CLI: `exec` failed                       |
| `NotifyFailed`     | 71          | Can't write readiness byte to launcher   |
| `PrivilegesNotDropped` | 70      | user/group set but never dropped         |
| `Application`      | caller's    | Reported by the application              |
";

fn parse_exit_code_table() -> BTreeMap<String, String> {
    let mut map = BTreeMap::new();
    for line in EXIT_CODES.lines() {
        let line = line.trim();
        // Data rows start with a backticked variant name; the header and the
        // `| --- |` separator do not.
        if !line.starts_with("| `") {
            continue;
        }
        let cells: Vec<&str> = line.split('|').map(str::trim).collect();
        let variant = cells[1].trim_matches('`').to_string();
        map.insert(variant, cells[2].to_string());
    }
    assert!(!map.is_empty(), "parsed no rows from the exit-code table");
    map
}

fn variant_is_covered(err: &DaemonizeError) -> bool {
    matches!(
        err,
        DaemonizeError::ValidationError(_)
            | DaemonizeError::ProgramNotFound(_)
            | DaemonizeError::UserNotFound(_)
            | DaemonizeError::GroupNotFound(_)
            | DaemonizeError::LockConflict { .. }
            | DaemonizeError::LockfileError(_)
            | DaemonizeError::PidfileError(_)
            | DaemonizeError::OutputFileError(_)
            | DaemonizeError::ChownError(_)
            | DaemonizeError::ForkFailed(_)
            | DaemonizeError::SetsidFailed(_)
            | DaemonizeError::ChdirFailed(_)
            | DaemonizeError::PermissionDenied(_)
            | DaemonizeError::ExecFailed(_)
            | DaemonizeError::NotifyFailed(_)
            | DaemonizeError::PrivilegesNotDropped
            | DaemonizeError::Application { .. }
    )
}

#[test]
fn readme_exit_codes_match_error_impl() {
    let samples: Vec<(&str, DaemonizeError)> = vec![
        (
            "ValidationError",
            DaemonizeError::ValidationError("x".into()),
        ),
        (
            "ProgramNotFound",
            DaemonizeError::ProgramNotFound("x".into()),
        ),
        ("UserNotFound", DaemonizeError::UserNotFound("x".into())),
        ("GroupNotFound", DaemonizeError::GroupNotFound("x".into())),
        (
            "LockConflict",
            DaemonizeError::LockConflict {
                path: UnixPath::new("/x"),
            },
        ),
        ("LockfileError", DaemonizeError::LockfileError("x".into())),
        ("PidfileError", DaemonizeError::PidfileError("x".into())),
        (
            "OutputFileError",
            DaemonizeError::OutputFileError("x".into()),
        ),
        ("ChownError", DaemonizeError::ChownError("x".into())),
        ("ForkFailed", DaemonizeError::ForkFailed("x".into())),
        ("SetsidFailed", DaemonizeError::SetsidFailed("x".into())),
        ("ChdirFailed", DaemonizeError::ChdirFailed("x".into())),
        (
            "PermissionDenied",
            DaemonizeError::PermissionDenied("x".into()),
        ),
        ("ExecFailed", DaemonizeError::ExecFailed("x".into())),
        ("NotifyFailed", DaemonizeError::NotifyFailed("x".into())),
        ("PrivilegesNotDropped", DaemonizeError::PrivilegesNotDropped),
        ("Application", DaemonizeError::application(42, "x")),
    ];
    for (_, err) in &samples {
        assert!(variant_is_covered(err));
    }

    let documented = parse_exit_code_table();
    let sample_names: BTreeSet<&str> = samples.iter().map(|(n, _)| *n).collect();
    let table_names: BTreeSet<&str> = documented.keys().map(String::as_str).collect();
    assert_eq!(
        sample_names, table_names,
        "exit-code table and DaemonizeError variants must match exactly"
    );

    for (name, err) in &samples {
        let cell = &documented[*name];
        if *name == "Application" {
            assert_eq!(cell, "caller's", "Application row should read \"caller's\"");
            assert_eq!(
                err.exit_code(),
                42,
                "Application forwards the caller's code"
            );
        } else {
            let code: u8 = match cell.parse() {
                Ok(code) => code,
                Err(_) => panic!("{name} exit code cell '{cell}' is not a number"),
            };
            assert_eq!(code, err.exit_code(), "{name} exit code drifted");
        }
    }
}
