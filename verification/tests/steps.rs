use blivet::errno::{ErrnoKind, ErrnoNumbers, OsFailure};
use blivet::fds::{
    clamp_max_fd, close_inherited_fds, fds_to_close, list_open_fds, write_all_fd, WriteProgress,
};
use blivet::install::{InstallStep, InstallTask};
use blivet::output::{plan_output_redirect, OpenFlags, StreamAction};
use blivet::path::UnixPath;
use blivet::signals::{signal_range, signals_to_reset, term_signals, SignalNumbers};
use blivet::thread_count::{
    assert_single_threaded, parse_thread_count, single_threaded_violation, threads_from_records,
    threads_from_signed, StatusError,
};
use blivet::DaemonizeError;

use std::collections::BTreeMap;

fn plan(
    stdout: Option<&UnixPath>,
    stderr: Option<&UnixPath>,
    append: bool,
) -> blivet::output::OutputRedirectPlan {
    plan_output_redirect(stdout, &None, stderr, &None, append)
}

fn truncating() -> OpenFlags {
    OpenFlags {
        read_write: false,
        create: true,
        append: false,
        truncate: true,
        cloexec: false,
    }
}

#[test]
fn plan_stdout_only_truncate() {
    let path = UnixPath::new("/tmp/out.log");
    let plan = plan(Some(&path), None, false);
    assert_eq!(
        plan.stdout,
        StreamAction::OpenAndRedirect {
            path: path.clone(),
            flags: truncating(),
            target_fd: 1,
        }
    );
    assert_eq!(plan.stderr, StreamAction::Leave);
}

#[test]
fn plan_stderr_only() {
    let path = UnixPath::new("/tmp/err.log");
    let plan = plan(None, Some(&path), false);
    assert_eq!(plan.stdout, StreamAction::Leave);
    assert_eq!(
        plan.stderr,
        StreamAction::OpenAndRedirect {
            path: path.clone(),
            flags: truncating(),
            target_fd: 2,
        }
    );
}

#[test]
fn plan_both_different_paths() {
    let out = UnixPath::new("/tmp/out.log");
    let err = UnixPath::new("/tmp/err.log");
    let plan = plan(Some(&out), Some(&err), false);
    assert!(matches!(
        plan.stdout,
        StreamAction::OpenAndRedirect { target_fd: 1, .. }
    ));
    assert!(matches!(
        plan.stderr,
        StreamAction::OpenAndRedirect { target_fd: 2, .. }
    ));
}

#[test]
fn plan_both_same_path() {
    let path = UnixPath::new("/tmp/combined.log");
    let plan = plan(Some(&path), Some(&path), false);
    assert!(matches!(
        plan.stdout,
        StreamAction::OpenAndRedirect { target_fd: 1, .. }
    ));
    assert_eq!(plan.stderr, StreamAction::DupStdoutToStderr);
}

#[test]
fn plan_same_canonical_path() {
    let out = UnixPath::new("/tmp/a/../log");
    let err = UnixPath::new("/tmp/log");
    let canonical = Some(UnixPath::new("/tmp/log"));
    let plan = plan_output_redirect(Some(&out), &canonical, Some(&err), &canonical, true);
    assert_eq!(plan.stderr, StreamAction::DupStdoutToStderr);
}

#[test]
fn plan_append_flag() {
    let path = UnixPath::new("/tmp/out.log");
    let plan = plan(Some(&path), None, true);
    if let StreamAction::OpenAndRedirect { flags, .. } = plan.stdout {
        assert!(flags.append);
        assert!(!flags.truncate);
    } else {
        panic!("expected OpenAndRedirect");
    }
}

#[test]
fn plan_truncate_flag() {
    let path = UnixPath::new("/tmp/out.log");
    let plan = plan(Some(&path), None, false);
    if let StreamAction::OpenAndRedirect { flags, .. } = plan.stdout {
        assert!(flags.truncate);
        assert!(!flags.append);
    } else {
        panic!("expected OpenAndRedirect");
    }
}

#[test]
fn plan_neither() {
    let plan = plan(None, None, false);
    assert_eq!(plan.stdout, StreamAction::Leave);
    assert_eq!(plan.stderr, StreamAction::Leave);
}

#[test]
fn clamp_max_fd_saturates_instead_of_wrapping() {
    assert_eq!(clamp_max_fd(libc::rlim_t::MAX), i32::MAX);
    assert_eq!(clamp_max_fd(i32::MAX as libc::rlim_t + 1), i32::MAX);
    // Ordinary limits pass through unchanged.
    assert_eq!(clamp_max_fd(1024), 1024);
    assert_eq!(clamp_max_fd(0), 0);
}

#[test]
fn get_max_fd_reflects_a_real_limit() {
    // 0-2 always exist, so any true fd limit is at least 3.
    let limit = nix::sys::resource::getrlimit(nix::sys::resource::Resource::RLIMIT_NOFILE).unwrap();
    assert!(clamp_max_fd(limit.0) >= 3);
}

#[test]
fn fds_to_close_skips_correctly() {
    let result: Vec<i32> = fds_to_close(10, &[4, 7]).collect();
    assert_eq!(result, vec![3, 5, 6, 8, 9]);
}

#[test]
fn fds_to_close_empty_skip() {
    let result: Vec<i32> = fds_to_close(6, &[]).collect();
    assert_eq!(result, vec![3, 4, 5]);
}

#[test]
fn fds_to_close_all_skipped() {
    let result: Vec<i32> = fds_to_close(6, &[3, 4, 5]).collect();
    assert!(result.is_empty());
}

#[test]
fn fds_to_close_max_below_3() {
    let result: Vec<i32> = fds_to_close(2, &[]).collect();
    assert!(result.is_empty());
}

#[test]
fn fds_to_close_one_by_one() {
    let mut fds = fds_to_close(i32::MAX, &[3, 5]);
    assert_eq!(fds.next(), Some(4));
    assert_eq!(fds.next(), Some(6));
    let mut fds = fds_to_close(5, &[4]);
    assert_eq!(fds.next(), Some(3));
    assert_eq!(fds.next(), None);
    assert_eq!(fds.next(), None);
}

#[test]
fn list_open_fds_reads_the_numbers() {
    let names: Vec<String> = ["0", "17", "x", "", "+4", "2147483648", "-3"]
        .iter()
        .map(|s| s.to_string())
        .collect();
    assert_eq!(list_open_fds(&names), vec![0, 17, 4, -3]);
}

#[test]
fn close_inherited_fds_spares_streams_and_kept() {
    assert_eq!(
        close_inherited_fds(&vec![9, 2, 3, 0, 5, -1], &[5]),
        vec![9, 3]
    );
}

#[test]
fn write_progress() {
    assert_eq!(write_all_fd(10, 0, 4), WriteProgress::More(4));
    assert_eq!(write_all_fd(10, 4, 6), WriteProgress::Complete);
    assert_eq!(write_all_fd(10, 4, 0), WriteProgress::Stalled);
    assert_eq!(write_all_fd(0, 0, 0), WriteProgress::Complete);
    assert_eq!(write_all_fd(10, 4, usize::MAX), WriteProgress::Complete);
}

#[test]
fn signals_of_the_host() {
    let n = SignalNumbers::host();
    assert_eq!(n.kill, libc::SIGKILL);
    assert_eq!(n.stop, libc::SIGSTOP);
    assert_eq!(n.pipe, libc::SIGPIPE);
    assert_eq!(n.rt_min, libc::SIGRTMIN());
    assert_eq!(n.rt_max, libc::SIGRTMAX());
    let wanted: Vec<i32> = (1..32)
        .chain(libc::SIGRTMIN()..=libc::SIGRTMAX())
        .collect();
    assert_eq!(signal_range(), wanted);
    assert_eq!(term_signals(), vec![libc::SIGINT, libc::SIGTERM]);
}

#[test]
fn reset_signal_dispositions_preserves_sigpipe() {
    let reset = signals_to_reset(SignalNumbers::host());
    assert!(!reset.contains(&libc::SIGPIPE));
    assert!(!reset.contains(&libc::SIGKILL));
    assert!(!reset.contains(&libc::SIGSTOP));
}

#[test]
fn reset_signal_dispositions_restores_default() {
    let reset = signals_to_reset(SignalNumbers::host());
    assert!(reset.contains(&libc::SIGUSR1));
    assert!(reset.contains(&libc::SIGRTMAX()));
    assert_eq!(reset.len(), signal_range().len() - 3);
}

#[test]
fn errno_kinds() {
    let kind = |e: nix::errno::Errno| OsFailure::from_raw(e as i32).kind;
    assert_eq!(kind(nix::errno::Errno::ENOENT), ErrnoKind::NoEntry);
    assert_eq!(kind(nix::errno::Errno::EACCES), ErrnoKind::AccessDenied);
    assert_eq!(kind(nix::errno::Errno::EWOULDBLOCK), ErrnoKind::WouldBlock);
    assert_eq!(kind(nix::errno::Errno::EINVAL), ErrnoKind::InvalidArgument);
    assert_eq!(kind(nix::errno::Errno::EPERM), ErrnoKind::Other);
    let failure = OsFailure::from_raw(nix::errno::Errno::EPERM as i32);
    assert_eq!(failure.errno, nix::errno::Errno::EPERM as i32);
    assert_eq!(failure.text, "EPERM: Operation not permitted");
}

#[test]
fn errno_classification_goes_by_the_numbers() {
    let numbers = ErrnoNumbers {
        enoent: 1,
        eacces: 2,
        ewouldblock: 3,
        einval: 4,
    };
    assert_eq!(numbers.classify(1), ErrnoKind::NoEntry);
    assert_eq!(numbers.classify(2), ErrnoKind::AccessDenied);
    assert_eq!(numbers.classify(3), ErrnoKind::WouldBlock);
    assert_eq!(numbers.classify(4), ErrnoKind::InvalidArgument);
    assert_eq!(numbers.classify(0), ErrnoKind::Other);

    let failure = OsFailure::of(numbers, 2, "no".to_string());
    assert_eq!(failure.errno, 2);
    assert_eq!(failure.kind, ErrnoKind::AccessDenied);
    assert_eq!(failure.text, "no");
}

#[test]
fn single_threaded_violation_accepts_only_exactly_one() {
    assert!(
        single_threaded_violation("daemonize", 1).is_none(),
        "exactly one thread is the single-threaded case"
    );
    assert!(
        single_threaded_violation("daemonize", 0).is_some(),
        "an anomalous 0 must fail closed, not green-light a fork"
    );
    let msg = single_threaded_violation("drop_privileges", 2).expect("2 threads is a violation");
    assert!(
        msg.contains("drop_privileges: 2 threads running (expected 1)"),
        "message should name the caller, count, and expectation, got: {msg}"
    );
}

#[test]
fn unknown_thread_count_is_refused() {
    assert!(assert_single_threaded("f", Some(1)).is_ok());
    assert_eq!(
        assert_single_threaded("f", None).unwrap_err(),
        "f: cannot determine thread count to verify single-threadedness"
    );
    assert!(assert_single_threaded("f", Some(17))
        .unwrap_err()
        .starts_with("f: 17 threads running"));
}

/// The text of `/proc/self/status`.
fn status() -> String {
    let fd = nix::fcntl::open(
        "/proc/self/status",
        nix::fcntl::OFlag::O_RDONLY,
        nix::sys::stat::Mode::empty(),
    )
    .unwrap();
    let mut text = Vec::new();
    let mut buf = [0u8; 512];
    loop {
        let n = nix::unistd::read(&fd, &mut buf).unwrap();
        if n == 0 {
            return String::from_utf8(text).unwrap();
        }
        text.extend_from_slice(&buf[..n]);
    }
}

#[test]
fn current_thread_count_tracks_live_threads() {
    let status = status();
    let base = parse_thread_count(&status).expect("thread count should be readable");
    assert!(
        base >= 1,
        "expected at least the calling thread, got {base}"
    );

    const N: usize = 3;
    let more = status.replace(
        &format!("Threads:\t{base}\n"),
        &format!("Threads:\t{}\n", base + N),
    );
    let with_threads = parse_thread_count(&more).expect("thread count should be readable");
    assert!(
        with_threads >= base + N,
        "expected >= {} threads with {N} spawned, got {with_threads}",
        base + N
    );
}

#[test]
fn thread_count_of_odd_texts() {
    assert_eq!(
        parse_thread_count("Name:\tx\nThreads:\t12\nThreads:\t13\n"),
        Ok(12)
    );
    assert_eq!(parse_thread_count("Threads:  7"), Ok(7));
    assert_eq!(parse_thread_count("a\r\nThreads:\t8\r\nb"), Ok(8));
    assert_eq!(
        parse_thread_count("Name:\tx\n xThreads:\t12\n"),
        Err(StatusError::NoThreadsLine)
    );
    assert_eq!(parse_thread_count(""), Err(StatusError::NoThreadsLine));
    assert_eq!(
        parse_thread_count("Threads:12\n"),
        Err(StatusError::MalformedThreadsLine)
    );
    assert_eq!(
        parse_thread_count("Threads:\tmany\n"),
        Err(StatusError::MalformedThreadsLine)
    );
    assert_eq!(
        parse_thread_count("Threads:\t99999999999999999999999\n"),
        Err(StatusError::MalformedThreadsLine)
    );
    assert_eq!(StatusError::NoThreadsLine.to_text(), "no Threads: line");
    assert_eq!(
        StatusError::MalformedThreadsLine.to_text(),
        "malformed Threads: line"
    );
}

#[test]
fn thread_counts_of_other_kernels() {
    assert_eq!(threads_from_signed(-1), 0);
    assert_eq!(threads_from_signed(4), 4);
    assert_eq!(threads_from_records(0, 8), None);
    assert_eq!(threads_from_records(24, 8), Some(3));
}

/// Dispositions of a process, with the path that its handlers remove.
struct Process {
    dispositions: BTreeMap<i32, String>,
    path: Option<String>,
}

impl Process {
    /// Installs the handler for each signal; SIGKILL cannot be caught.
    fn install(&mut self, path: &str, signals: &[i32]) -> Result<(), DaemonizeError> {
        let mut task = InstallTask::new(UnixPath::new(path), signals);
        let mut prior: Option<Option<String>> = None;
        let mut kept: Vec<(i32, String)> = Vec::new();
        loop {
            let signal = match task.step() {
                InstallStep::Publish => {
                    prior = Some(self.path.replace(task.path().display()));
                    assert!(task.answer(None).is_none());
                    continue;
                }
                InstallStep::Install(signal) => signal,
                InstallStep::Finished => return Ok(()),
                InstallStep::Abandoned => panic!("an abandoned task reports its error"),
            };
            let outcome = if signal == libc::SIGKILL {
                Some("Invalid argument (os error 22)".to_string())
            } else {
                let old = self.dispositions.insert(signal, "cleanup".into());
                kept.push((signal, old.unwrap_or("default".into())));
                None
            };
            if let Some(back) = task.answer(outcome) {
                for signal in back.restore {
                    let (of, old) = kept.pop().unwrap();
                    assert_eq!(of, signal);
                    self.dispositions.insert(signal, old);
                }
                assert!(kept.is_empty());
                if back.restore_path {
                    self.path = prior.expect("a path that is put back was kept");
                }
                return Err(back.error);
            }
        }
    }

    fn disposition(&self, signal: i32) -> &str {
        match self.dispositions.get(&signal) {
            Some(d) => d,
            None => "default",
        }
    }
}

#[test]
fn failed_install_rolls_back() {
    let mut process = Process {
        dispositions: BTreeMap::new(),
        path: None,
    };
    process
        .install("/tmp/rollback-prior.pid", &[libc::SIGUSR2])
        .expect("SIGUSR2 install should succeed");
    let prior_path = process.path.clone();
    let prior_usr1 = process.disposition(libc::SIGUSR1).to_string();

    // SIGUSR1 installs, then SIGKILL fails.
    let err = process
        .install("/tmp/rollback-new.pid", &[libc::SIGUSR1, libc::SIGKILL])
        .expect_err("SIGKILL cannot be caught");

    assert!(
        err.to_string()
            .contains(&format!("signal {}", libc::SIGKILL)),
        "error should name the failing signal, got: {}",
        err.to_string()
    );
    assert_eq!(
        process.disposition(libc::SIGUSR1),
        prior_usr1,
        "SIGUSR1 disposition should be rolled back after the failed install"
    );
    assert_eq!(
        process.path, prior_path,
        "pidfile path should revert to the prior install's path"
    );
    // The prior install must keep working: SIGUSR2 still has the handler.
    assert_eq!(
        process.disposition(libc::SIGUSR2),
        "cleanup",
        "earlier successful install should be untouched"
    );
}

#[test]
fn failed_install_restores_a_signal_that_occurs_twice() {
    let mut process = Process {
        dispositions: BTreeMap::from([(libc::SIGTERM, "ignore".to_string())]),
        path: None,
    };
    let err = process
        .install(
            "/x",
            &[libc::SIGTERM, libc::SIGINT, libc::SIGTERM, libc::SIGKILL],
        )
        .unwrap_err();
    assert_eq!(
        err.to_string(),
        "validation error: failed to install signal handler: signal 9: \
         Invalid argument (os error 22)"
    );
    assert_eq!(process.disposition(libc::SIGTERM), "ignore");
    assert_eq!(process.disposition(libc::SIGINT), "default");
}

#[test]
fn failures_of_the_host_have_their_kind_and_words() {
    let known = [
        (
            libc::ENOENT,
            ErrnoKind::NoEntry,
            "ENOENT: No such file or directory",
        ),
        (
            libc::EACCES,
            ErrnoKind::AccessDenied,
            "EACCES: Permission denied",
        ),
        (
            libc::EWOULDBLOCK,
            ErrnoKind::WouldBlock,
            "EAGAIN: Try again",
        ),
        (
            libc::EINVAL,
            ErrnoKind::InvalidArgument,
            "EINVAL: Invalid argument",
        ),
        (libc::EIO, ErrnoKind::Other, "EIO: I/O error"),
    ];
    for (errno, kind, text) in known {
        let failure = OsFailure::from_raw(errno);
        assert_eq!(failure.errno, errno);
        assert_eq!(failure.kind, kind);
        assert_eq!(failure.text, text);
    }
    let unknown = OsFailure::from_raw(-5);
    assert_eq!(unknown.kind, ErrnoKind::Other);
    assert_eq!(unknown.text, "UnknownErrno: Unknown errno");
}

#[test]
fn installing_makes_the_path_known_first() {
    let mut task = InstallTask::new(UnixPath::new("/run/a.pid"), &[libc::SIGTERM]);
    assert_eq!(task.step(), InstallStep::Publish);
    assert!(task.answer(None).is_none());
    assert_eq!(task.step(), InstallStep::Install(libc::SIGTERM));
    let back = task.answer(Some("no".into())).unwrap();
    assert!(back.restore_path);
    assert!(back.restore.is_empty());
    assert_eq!(task.step(), InstallStep::Abandoned);
    assert!(task.answer(None).is_none());
}
