use blivet::cli::{
    build_argv, cloexec_failure, derive_stderr_path, exec_error_variant, exec_failure, is_path,
    parse_env_pair, parse_octal_mode, resolve_program_path, CliArgs, ProgramFacts,
};
use blivet::config::LockfileSetting;
use blivet::errno::OsFailure;
use blivet::path::UnixPath;
use blivet::{DaemonConfig, DaemonizeError};

use nix::errno::Errno;

fn exec_error(errno: Errno) -> DaemonizeError {
    exec_error_variant(OsFailure::from_raw(errno as i32).kind, "m".into())
}

#[test]
fn exec_enoent_maps_to_program_not_found() {
    assert!(matches!(
        exec_error(Errno::ENOENT),
        DaemonizeError::ProgramNotFound(_)
    ));
}

#[test]
fn exec_eacces_maps_to_program_not_found() {
    assert!(matches!(
        exec_error(Errno::EACCES),
        DaemonizeError::ProgramNotFound(_)
    ));
}

#[test]
fn exec_other_errno_stays_exec_failed() {
    assert!(matches!(
        exec_error(Errno::E2BIG),
        DaemonizeError::ExecFailed(_)
    ));
}

#[test]
fn exec_failures_name_the_program() {
    let missing = exec_failure("prog", &OsFailure::from_raw(Errno::ENOENT as i32));
    assert_eq!(
        missing.to_string(),
        "program not found: exec prog: ENOENT: No such file or directory"
    );
    assert_eq!(missing.exit_code(), 66);
    let failed = cloexec_failure(&OsFailure::from_raw(Errno::EBADF as i32));
    assert_eq!(
        failed.to_string(),
        "exec failed: failed to clear CLOEXEC on lockfile fd: EBADF: Bad file number"
    );
}

/// Extract the long-flag name from a table row like
/// `| `-p` | `--pidfile PATH` | ... |`.
fn parse_long_flag(line: &str) -> Option<String> {
    let start = line.find("`--")? + 3;
    let name: String = line[start..]
        .chars()
        .take_while(|c| c.is_ascii_alphanumeric() || *c == '-')
        .collect();
    (!name.is_empty()).then_some(name)
}

#[test]
fn parse_long_flag_extracts_name() {
    assert_eq!(
        parse_long_flag("| `-p` | `--pidfile PATH` | Write PID |").as_deref(),
        Some("pidfile")
    );
    assert_eq!(
        parse_long_flag("| `-f` | `--foreground` | Stay |").as_deref(),
        Some("foreground")
    );
    assert_eq!(
        parse_long_flag("|      | `--no-lock` | Do not lock |").as_deref(),
        Some("no-lock")
    );
}

#[test]
fn parse_octal_mode_valid() {
    assert_eq!(parse_octal_mode("022").unwrap(), 0o022);
}

#[test]
fn parse_octal_mode_zero() {
    assert_eq!(parse_octal_mode("000").unwrap(), 0);
}

#[test]
fn parse_octal_mode_full() {
    assert_eq!(parse_octal_mode("7777").unwrap(), 0o7777);
}

#[test]
fn parse_octal_mode_invalid() {
    assert!(parse_octal_mode("999").is_err());
    assert!(parse_octal_mode("abc").is_err());
    assert!(parse_octal_mode("").is_err());
}

#[test]
fn parse_octal_mode_out_of_range() {
    // Valid octal but wider than the 12 permission bits.
    assert!(parse_octal_mode("10000").is_err());
}

#[test]
fn parse_octal_mode_messages_are_those_of_integers() {
    for text in ["", "+", "-", "9", "-1", "1x", "77777777777", "7777777777777x"] {
        let wanted = u32::from_str_radix(text, 8).unwrap_err();
        assert_eq!(
            parse_octal_mode(text).unwrap_err(),
            format!("invalid octal umask: {wanted}")
        );
    }
    assert_eq!(parse_octal_mode("+22"), Ok(0o22));
    assert_eq!(
        parse_octal_mode("10000").unwrap_err(),
        "umask out of range (max 7777): 10000"
    );
}

#[test]
fn parse_env_pair_key_value() {
    assert_eq!(parse_env_pair("FOO=bar"), ("FOO".into(), "bar".into()));
}

#[test]
fn parse_env_pair_empty_value() {
    assert_eq!(parse_env_pair("FOO="), ("FOO".into(), String::new()));
}

#[test]
fn parse_env_pair_no_equals() {
    assert_eq!(parse_env_pair("FOO"), ("FOO".into(), String::new()));
}

#[test]
fn parse_env_pair_multiple_equals() {
    assert_eq!(
        parse_env_pair("FOO=bar=baz"),
        ("FOO".into(), "bar=baz".into())
    );
}

#[test]
fn parse_env_pair_without_key() {
    assert_eq!(parse_env_pair("=x"), (String::new(), "x".into()));
    assert_eq!(parse_env_pair("ä=ö"), ("ä".into(), "ö".into()));
}

#[test]
fn derive_stderr_stdout_extension() {
    let result = derive_stderr_path(&UnixPath::new("/var/log/app.stdout"));
    assert_eq!(result, UnixPath::new("/var/log/app.stderr"));
}

#[test]
fn derive_stderr_out_extension() {
    let result = derive_stderr_path(&UnixPath::new("/var/log/app.out"));
    assert_eq!(result, UnixPath::new("/var/log/app.err"));
}

#[test]
fn derive_stderr_other_extension() {
    let result = derive_stderr_path(&UnixPath::new("/var/log/app.log"));
    assert_eq!(result, UnixPath::new("/var/log/app.log"));
}

#[test]
fn derive_stderr_no_extension() {
    let result = derive_stderr_path(&UnixPath::new("/var/log/app"));
    assert_eq!(result, UnixPath::new("/var/log/app"));
}

/// The extension rule as the paths of the standard library have it.
fn derived_by_std(text: &str) -> String {
    let p = std::path::Path::new(text);
    let derived = match p.extension() {
        Some(ext) if ext == "stdout" => p.with_extension("stderr"),
        Some(ext) if ext == "out" => p.with_extension("err"),
        _ => p.to_path_buf(),
    };
    derived.to_str().unwrap().to_string()
}

#[test]
fn derive_stderr_agrees_with_standard_paths() {
    for text in [
        "a.out", ".out", "a..out", "/x.out/", "/x.out/.", "/x.out//./", "/x.out/..",
        "out", "/a.b/out", "/a.out/b", "x.stdout", "/.stdout", ".a.stdout", "", "/", ".", "..",
        "a.", "a.out.", "./a.out",
    ] {
        assert_eq!(
            derive_stderr_path(&UnixPath::new(text)).display(),
            derived_by_std(text),
            "stderr for {text:?}"
        );
    }
}

fn args() -> CliArgs {
    CliArgs {
        pidfile: None,
        chdir: None,
        umask: None,
        stdout: None,
        stderr: None,
        append: false,
        lockfile: None,
        no_lock: false,
        env: vec![],
        user: None,
        group: None,
        foreground: false,
        verbose: false,
        program: vec!["prog".into()],
    }
}

#[test]
fn no_arguments_ask_for_the_defaults() {
    assert_eq!(args().to_config(), DaemonConfig::new());
}

#[test]
fn arguments_become_the_configuration() {
    let mut a = args();
    a.pidfile = Some(UnixPath::new("/run/p"));
    a.chdir = Some(UnixPath::new("/srv"));
    a.umask = Some(0o27);
    a.stdout = Some(UnixPath::new("/log/a.out"));
    a.append = true;
    a.env = vec!["A=1".into(), "B".into()];
    a.user = Some("u".into());
    a.group = Some("g".into());
    a.foreground = true;
    let mut wanted = DaemonConfig::new();
    wanted
        .pidfile("/run/p")
        .chdir("/srv")
        .umask(0o27)
        .stdout("/log/a.out")
        .stderr("/log/a.err")
        .append(true)
        .env("A", "1")
        .env("B", "")
        .user("u")
        .group("g")
        .foreground(true);
    assert_eq!(a.to_config(), wanted);
    a.stderr = Some(UnixPath::new("/log/e"));
    a.lockfile = Some(UnixPath::new("/run/l"));
    let config = a.to_config();
    assert_eq!(config.stderr, Some(UnixPath::new("/log/e")));
    assert_eq!(
        config.lockfile,
        LockfileSetting::Explicit(UnixPath::new("/run/l"))
    );
    a.no_lock = true;
    assert_eq!(a.to_config().lockfile, LockfileSetting::Disabled);
}

#[test]
fn diagnostics_show_what_is_set() {
    let mut a = args();
    a.pidfile = Some(UnixPath::new("/run/p"));
    assert!(a.diagnostics("/bin/x").is_empty());
    a.verbose = true;
    a.umask = Some(0o7);
    a.stdout = Some(UnixPath::new("/log/a.stdout"));
    a.append = true;
    a.env = vec!["A=1".into(), "B".into()];
    assert_eq!(
        a.diagnostics("/bin/x"),
        vec![
            "daemonize: program=/bin/x",
            "daemonize: pidfile=/run/p",
            "daemonize: lockfile=/run/p",
            "daemonize: umask=007",
            "daemonize: stdout=/log/a.stdout",
            "daemonize: stderr=/log/a.stderr",
            "daemonize: append=true",
            "daemonize: env=A=1",
            "daemonize: env=B",
        ]
    );
    a.umask = Some(0o7777);
    a.no_lock = true;
    let lines = a.diagnostics("x");
    assert!(lines.contains(&"daemonize: umask=7777".to_string()));
    assert!(!lines.iter().any(|l| l.contains("lockfile")));
}

#[test]
fn programs_named_by_a_path_are_resolved() {
    assert!(is_path("./x"));
    assert!(is_path("/x"));
    assert!(!is_path("x"));
    assert_eq!(resolve_program_path("x", None).unwrap(), "x");
    // What stands at a bare name in the working directory does not matter.
    let here = ProgramFacts::Resolved {
        path: "/tmp/x".into(),
        executable: false,
    };
    assert_eq!(resolve_program_path("x", Some(here)).unwrap(), "x");
    let found = ProgramFacts::Resolved {
        path: "/bin/x".into(),
        executable: true,
    };
    assert_eq!(resolve_program_path("./x", Some(found)).unwrap(), "/bin/x");
    let text = |facts| {
        let e = resolve_program_path("./x", Some(facts)).unwrap_err();
        assert_eq!(e.exit_code(), 66);
        e.to_string()
    };
    assert_eq!(
        text(ProgramFacts::Unresolved("gone".into())),
        "program not found: cannot resolve ./x: gone"
    );
    assert_eq!(
        text(ProgramFacts::NotUtf8),
        "program not found: path is not valid UTF-8"
    );
    assert_eq!(
        text(ProgramFacts::Resolved {
            path: "/etc/x".into(),
            executable: false
        }),
        "program not found: not executable: /etc/x"
    );
}

#[test]
fn argv_starts_with_the_resolved_program() {
    let program: Vec<String> = vec!["./x".into(), "-a".into(), "b".into()];
    assert_eq!(
        build_argv("/bin/x", &program).unwrap(),
        vec!["/bin/x", "-a", "b"]
    );
    assert_eq!(
        build_argv("/bin/\0", &program).unwrap_err().to_string(),
        "exec failed: program path contains null byte"
    );
    let program: Vec<String> = vec!["x\0".into(), "ok".into(), "a\0b".into(), "c\0".into()];
    assert_eq!(
        build_argv("/bin/x", &program).unwrap_err().to_string(),
        "exec failed: argument contains null byte: a\0b"
    );
    assert_eq!(build_argv("x", &vec![]).unwrap(), vec!["x"]);
}
