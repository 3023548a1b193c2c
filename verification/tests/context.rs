use blivet::context::{notify_outcome, FinalAction};
use blivet::install::InstallStep;
use blivet::notify::{decode, error_bytes, unnotified_bytes, NotifyPipe, Outcome};
use blivet::path::UnixPath;
use blivet::{DaemonConfig, DaemonContext, DaemonizeError};

use nix::fcntl::{open, Flock, FlockArg, OFlag};
use nix::sys::stat::Mode;

fn ctx(
    config: &DaemonConfig,
    lockfile: Option<i32>,
    notify_pipe: Option<NotifyPipe>,
) -> DaemonContext {
    DaemonContext::new(config.clone(), lockfile, notify_pipe)
}

/// Context with all defaults and no runtime resources.
fn default_ctx() -> DaemonContext {
    ctx(&DaemonConfig::new(), None, None)
}

fn pidfile_config(pidfile: &str) -> DaemonConfig {
    let mut config = DaemonConfig::new();
    config.pidfile(pidfile).cleanup_on_drop(false);
    config
}

fn touch(path: &str) {
    open(
        path,
        OFlag::O_WRONLY | OFlag::O_CREAT,
        Mode::from_bits_truncate(0o644),
    )
    .unwrap();
}

/// Carries the actions out on disk and returns the messages and the exit code.
fn carry_out(actions: Vec<FinalAction>) -> (Vec<Vec<u8>>, Option<i32>) {
    let mut messages = Vec::new();
    let mut exit = None;
    for action in actions {
        assert!(exit.is_none(), "nothing happens after the exit");
        match action {
            FinalAction::RemovePidfile(path) => {
                let _ = nix::unistd::unlink(path.display().as_str());
            }
            FinalAction::WritePipe(write) => messages.push(write.bytes),
            FinalAction::ReleaseLock(_) => {}
            FinalAction::Exit(code) => exit = Some(code),
        }
    }
    (messages, exit)
}

fn remove(path: Option<UnixPath>) {
    if let Some(p) = path {
        let _ = nix::unistd::unlink(p.display().as_str());
    }
}

fn present(path: &str) -> bool {
    nix::sys::stat::stat(path).is_ok()
}

#[test]
fn notify_parent_writes_success_byte() {
    let mut ctx = ctx(&DaemonConfig::new(), None, Some(NotifyPipe::new(7)));
    let write = ctx.notify_parent().unwrap().unwrap();
    assert_eq!(write.fd, 7);
    assert_eq!(write.bytes, vec![0x00]);
}

#[test]
fn notify_parent_or_report_writes_success_byte() {
    let mut ctx = ctx(&DaemonConfig::new(), None, Some(NotifyPipe::new(7)));
    let write = ctx.notify_parent_or_report().unwrap().unwrap();
    assert_eq!(write.bytes, vec![0x00]);
}

#[test]
fn notify_parent_idempotent() {
    let mut ctx = ctx(&DaemonConfig::new(), None, Some(NotifyPipe::new(7)));
    assert!(ctx.notify_parent().unwrap().is_some());
    assert!(ctx.notify_parent().unwrap().is_none());
}

#[test]
fn notify_parent_noop_without_pipe() {
    let mut ctx = default_ctx();
    assert!(ctx.notify_parent().is_ok());
    assert!(ctx.notify_parent().unwrap().is_none());
}

#[test]
fn notify_outcome_names_the_failure() {
    assert!(notify_outcome(None).is_ok());
    assert_eq!(
        notify_outcome(Some("gone".into())).unwrap_err().to_string(),
        "failed to notify parent: gone"
    );
}

#[test]
fn notify_refused_before_privileges_are_dropped() {
    let mut config = DaemonConfig::new();
    config.group("0");
    let mut ctx = ctx(&config, None, Some(NotifyPipe::new(7)));
    assert!(matches!(
        ctx.notify_parent(),
        Err(DaemonizeError::PrivilegesNotDropped)
    ));
    // A task that changes nothing does not lift the refusal.
    let task = default_ctx().drop_privileges_unchecked();
    assert!(!ctx.privileges_dropped(&task));
    assert!(ctx.notify_parent().is_err());
    // The change that was configured does.
    let mut task = ctx.drop_privileges_unchecked();
    assert!(!ctx.privileges_dropped(&task));
    assert!(task.answer(blivet::privileges::PrivEvent::Done).is_none());
    assert!(ctx.privileges_dropped(&task));
    assert_eq!(ctx.notify_parent().unwrap().unwrap().bytes, vec![0x00]);
}

#[test]
fn notify_or_report_reports_the_refusal() {
    let mut config = DaemonConfig::new();
    config.user("nobody");
    let mut ctx = ctx(&config, None, Some(NotifyPipe::new(7)));
    let (messages, exit) = carry_out(ctx.notify_parent_or_report().unwrap_err());
    assert_eq!(exit, Some(70));
    assert_eq!(messages.len(), 1);
    assert_eq!(
        messages[0],
        error_bytes(&DaemonizeError::PrivilegesNotDropped)
    );
}

#[test]
fn cleanup_on_signals_noop_without_pidfile() {
    let dctx = default_ctx();
    assert!(dctx.cleanup_on_signals(&[libc::SIGTERM]).unwrap().is_none());
    assert!(dctx.cleanup_on_term_signals().unwrap().is_none());
    // Empty signal list is also a no-op.
    let dir = tempfile::tempdir().unwrap();
    let mut cfg = DaemonConfig::new();
    cfg.pidfile(dir.path().join("x.pid").to_str().unwrap());
    assert!(ctx(&cfg, None, None)
        .cleanup_on_signals(&[])
        .unwrap()
        .is_none());
}

#[test]
fn cleanup_on_signals_uncatchable_signal_rejected() {
    let dir = tempfile::tempdir().unwrap();
    let mut cfg = DaemonConfig::new();
    cfg.pidfile(dir.path().join("x.pid").to_str().unwrap());
    // SIGKILL cannot be caught -> sigaction EINVAL -> ValidationError.
    let mut task = ctx(&cfg, None, None)
        .cleanup_on_signals(&[libc::SIGKILL])
        .unwrap()
        .unwrap();
    assert_eq!(task.step(), InstallStep::Publish);
    assert!(task.answer(None).is_none());
    assert_eq!(task.step(), InstallStep::Install(libc::SIGKILL));
    let back = task
        .answer(Some("Invalid argument (os error 22)".into()))
        .unwrap();
    assert!(back.restore.is_empty());
    assert!(back.restore_path);
    assert!(matches!(back.error, DaemonizeError::ValidationError(_)));
}

#[test]
fn cleanup_on_term_signals_covers_int_and_term() {
    let ctx = ctx(&pidfile_config("/run/x.pid"), None, None);
    let mut task = ctx.cleanup_on_term_signals().unwrap().unwrap();
    assert_eq!(task.path(), &UnixPath::new("/run/x.pid"));
    assert_eq!(task.step(), InstallStep::Publish);
    assert!(task.answer(None).is_none());
    assert_eq!(task.step(), InstallStep::Install(libc::SIGINT));
    assert!(task.answer(None).is_none());
    assert_eq!(task.step(), InstallStep::Install(libc::SIGTERM));
    assert!(task.answer(None).is_none());
    assert_eq!(task.step(), InstallStep::Finished);
}

#[test]
fn cleanup_on_signals_nul_path_rejected() {
    let ctx = ctx(&pidfile_config("/run/x\0.pid"), None, None);
    assert_eq!(
        ctx.cleanup_on_signals(&[libc::SIGTERM])
            .unwrap_err()
            .to_string(),
        "validation error: pidfile path contains NUL byte"
    );
}

#[test]
fn drop_writes_failure_when_not_notified() {
    let mut ctx = ctx(&DaemonConfig::new(), None, Some(NotifyPipe::new(7)));
    let (messages, exit) = carry_out(ctx.finish());
    assert_eq!(exit, None);
    assert_eq!(messages.len(), 1);
    let buf = &messages[0];
    assert_eq!(buf[0], 1u8);
    assert_eq!(
        std::str::from_utf8(&buf[1..]).unwrap(),
        "daemon exited without signaling readiness"
    );
    assert_eq!(*buf, unnotified_bytes());
}

#[test]
fn report_error_removes_pidfile_before_signaling_parent() {
    let dir = tempfile::tempdir().unwrap();
    let pidfile = dir.path().join("daemon.pid");
    let pidfile = pidfile.to_str().unwrap();
    touch(pidfile);

    let mut cfg = DaemonConfig::new();
    cfg.pidfile(pidfile);
    let mut ctx = ctx(&cfg, None, Some(NotifyPipe::new(7)));

    let actions = ctx.report_error(&DaemonizeError::ExecFailed("boom".into()));
    assert!(matches!(actions[0], FinalAction::RemovePidfile(_)));
    assert!(matches!(actions[1], FinalAction::WritePipe(_)));
    assert!(matches!(actions[2], FinalAction::Exit(71)));
    let (messages, code) = carry_out(actions);

    assert_eq!(code, Some(71), "ExecFailed maps to exit 71");
    assert!(
        !present(pidfile),
        "pidfile must be removed before the parent is signaled"
    );
    let buf = &messages[0];
    assert_eq!(buf[0], 71, "error code byte signaled to parent");
    assert_eq!(std::str::from_utf8(&buf[1..]).unwrap(), "exec failed: boom");
}

#[test]
fn report_error_respects_cleanup_on_drop_disabled() {
    // With cleanup_on_drop=false the pidfile is intentionally preserved.
    let dir = tempfile::tempdir().unwrap();
    let pidfile = dir.path().join("daemon.pid");
    let pidfile = pidfile.to_str().unwrap();
    touch(pidfile);

    let mut cfg = DaemonConfig::new();
    cfg.pidfile(pidfile).cleanup_on_drop(false);
    let mut ctx = ctx(&cfg, None, Some(NotifyPipe::new(7)));

    carry_out(ctx.report_error(&DaemonizeError::ExecFailed("boom".into())));

    assert!(present(pidfile), "cleanup_on_drop=false keeps the pidfile");
}

#[test]
fn report_error_msg_uses_the_callers_code() {
    let mut ctx = ctx(&DaemonConfig::new(), None, Some(NotifyPipe::new(7)));
    let (messages, code) = carry_out(ctx.report_error_msg(75, "bind failed"));
    assert_eq!(code, Some(75));
    assert_eq!(
        decode(&messages[0]),
        Outcome::Failure {
            code: 75,
            message: "application error: bind failed".into()
        }
    );
    // Nothing more is said afterwards.
    assert!(ctx.notify_parent().unwrap().is_none());
    assert!(ctx.finish().is_empty());
}

#[test]
fn drop_no_write_after_notify() {
    let mut ctx = ctx(&DaemonConfig::new(), None, Some(NotifyPipe::new(7)));
    let write = ctx.notify_parent().unwrap().unwrap();
    let (messages, _) = carry_out(ctx.finish());
    assert_eq!(write.bytes, vec![0x00]);
    assert!(messages.is_empty());
}

#[test]
fn drop_releases_the_lock() {
    let mut ctx = ctx(&DaemonConfig::new(), Some(9), None);
    assert_eq!(ctx.finish(), vec![FinalAction::ReleaseLock(9)]);
    assert_eq!(ctx.lockfile_fd(), None);
    assert!(ctx.finish().is_empty());
}

#[test]
fn debug_format() {
    let ctx = default_ctx();
    let debug = ctx.debug_text();
    assert!(
        debug.contains("none"),
        "all-None ctx should show 'none': {debug}"
    );
    assert!(
        !debug.contains("Some"),
        "should not contain 'Some': {debug}"
    );
    assert!(
        !debug.contains("None"),
        "should not contain 'None': {debug}"
    );
}

#[test]
fn debug_format_in_full() {
    let mut config = DaemonConfig::new();
    config.pidfile("/run/\"x\".pid").user("nobody");
    let ctx = ctx(&config, Some(41), Some(NotifyPipe::new(42)));
    assert_eq!(
        ctx.debug_text(),
        "DaemonContext { lockfile: \"held\", notify_pipe: \"open\", \
         pidfile: \"/run/\\\"x\\\".pid\", lockfile_path: \"/run/\\\"x\\\".pid\", \
         stdout: none, stderr: none, user: \"nobody\", group: none, \
         cleanup_on_drop: true }"
    );
}

#[test]
fn debug_quotes_paths_as_paths() {
    let name = "/run/it's \"d\".pid";
    let mut config = DaemonConfig::new();
    config.pidfile(name).user("o'neil");
    let debug = ctx(&config, None, None).debug_text();
    let path = format!("pidfile: {:?}, ", std::path::Path::new(name));
    assert!(debug.contains(&path), "{debug}");
    assert!(debug.contains("user: \"o'neil\", "), "{debug}");
}

#[test]
fn debug_fields_of_a_daemon() {
    let mut config = DaemonConfig::new();
    config
        .stdout("/log/o")
        .group("staff")
        .cleanup_on_drop(false)
        .no_lockfile();
    let fields = ctx(&config, None, Some(NotifyPipe::new(3))).debug_fields();
    assert_eq!(fields.lockfile, None);
    assert_eq!(fields.notify_pipe, Some("open".into()));
    assert_eq!(fields.stdout, Some("/log/o".into()));
    assert_eq!(
        fields.line(),
        "DaemonContext { lockfile: none, notify_pipe: open, pidfile: none, \
         lockfile_path: none, stdout: /log/o, stderr: none, user: none, group: staff, \
         cleanup_on_drop: false }"
    );
}

#[test]
fn lockfile_fd_returns_some_with_lockfile() {
    let dir = tempfile::tempdir().unwrap();
    let path = dir.path().join("test.lock");
    let fd = open(
        &path,
        OFlag::O_WRONLY | OFlag::O_CREAT | OFlag::O_CLOEXEC,
        Mode::from_bits_truncate(0o644),
    )
    .unwrap();
    let flock = Flock::lock(fd, FlockArg::LockExclusiveNonblock).unwrap();
    let ctx = ctx(&DaemonConfig::new(), Some(11), None);
    assert!(ctx.lockfile_fd().is_some());
    assert_eq!(ctx.lockfile_fd(), Some(11));
    drop(flock);
}

#[test]
fn lockfile_fd_returns_none_without_lockfile() {
    let ctx = default_ctx();
    assert!(ctx.lockfile_fd().is_none());
}

#[test]
fn context_stores_config_fields() {
    let mut config = DaemonConfig::new();
    config
        .pidfile("/var/run/test.pid")
        .lockfile("/var/run/test.lock")
        .stdout("/var/log/test.out")
        .stderr("/var/log/test.err")
        .user("nobody")
        .group("nogroup");
    let ctx = ctx(&config, None, None);
    let debug = ctx.debug_text();
    assert!(debug.contains("test.pid"));
    assert!(debug.contains("nobody"));
    assert!(debug.contains("nogroup"));
}

#[test]
fn cleanup_removes_pidfile() {
    let dir = tempfile::tempdir().unwrap();
    let pidfile = dir.path().join("test.pid");
    let pidfile = pidfile.to_str().unwrap();
    touch(pidfile);

    let mut ctx = ctx(&pidfile_config(pidfile), None, None);
    remove(ctx.cleanup());
    assert!(!present(pidfile), "pidfile should be removed after cleanup");
}

#[test]
fn cleanup_idempotent() {
    let dir = tempfile::tempdir().unwrap();
    let pidfile = dir.path().join("test.pid");
    let pidfile = pidfile.to_str().unwrap();
    touch(pidfile);

    let mut ctx = ctx(&pidfile_config(pidfile), None, None);
    remove(ctx.cleanup());
    assert!(ctx.cleanup().is_none()); // second call has nothing to remove
    assert!(!present(pidfile));
}

#[test]
fn cleanup_noop_without_pidfile() {
    let mut config = DaemonConfig::new();
    config.cleanup_on_drop(false);
    let mut ctx = ctx(&config, None, None);
    assert!(ctx.cleanup().is_none());
}

#[test]
fn cleanup_ignores_missing_pidfile() {
    let mut ctx = ctx(&pidfile_config("/nonexistent_xyz/test.pid"), None, None);
    remove(ctx.cleanup()); // best-effort
}

#[test]
fn drop_cleans_up_when_configured() {
    let dir = tempfile::tempdir().unwrap();
    let pidfile = dir.path().join("test.pid");
    let pidfile = pidfile.to_str().unwrap();
    touch(pidfile);

    let mut config = DaemonConfig::new();
    config.pidfile(pidfile); // cleanup_on_drop defaults to true
    carry_out(ctx(&config, None, None).finish());
    assert!(!present(pidfile), "pidfile should be removed on drop");
}

#[test]
fn drop_skips_cleanup_when_disabled() {
    let dir = tempfile::tempdir().unwrap();
    let pidfile = dir.path().join("test.pid");
    let pidfile = pidfile.to_str().unwrap();
    touch(pidfile);

    carry_out(ctx(&pidfile_config(pidfile), None, None).finish());
    assert!(
        present(pidfile),
        "pidfile should survive drop when cleanup_on_drop=false"
    );
}

#[test]
fn set_cleanup_on_drop_overrides_config() {
    let dir = tempfile::tempdir().unwrap();
    let pidfile = dir.path().join("test.pid");
    let pidfile = pidfile.to_str().unwrap();
    touch(pidfile);

    let mut ctx = ctx(&pidfile_config(pidfile), None, None);
    ctx.set_cleanup_on_drop(true);
    carry_out(ctx.finish());
    assert!(
        !present(pidfile),
        "pidfile should be removed after runtime override"
    );
}

#[test]
fn cleanup_leaves_standalone_lockfile() {
    let dir = tempfile::tempdir().unwrap();
    let pidfile = dir.path().join("test.pid");
    let lockfile_path = dir.path().join("test.lock");
    let (pidfile, lockfile) = (pidfile.to_str().unwrap(), lockfile_path.to_str().unwrap());
    touch(pidfile);
    touch(lockfile);

    let mut config = pidfile_config(pidfile);
    config.lockfile(lockfile);
    let mut ctx = ctx(&config, None, None);
    remove(ctx.cleanup());
    assert!(!present(pidfile), "pidfile should be removed");
    assert!(
        present(lockfile),
        "standalone lockfile should be left on disk"
    );
}
