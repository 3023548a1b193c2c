use blivet::calls::{DupReason, Event, Op, OpenPurpose};
use blivet::errno::OsFailure;
use blivet::host::{HostFacts, PathFacts};
use blivet::notify::{decode, error_bytes, unnotified_bytes, Outcome};
use blivet::output::{OpenFlags, FILE_MODE};
use blivet::path::UnixPath;
use blivet::sequence::{
    daemonize, daemonize_inner, daemonize_unchecked, error_of, parent_pipe_reader,
    signal_error_to_parent, write_pidfile, Daemonization, Refusal, Step,
};
use blivet::signals::SignalNumbers;
use blivet::{DaemonConfig, DaemonContext, DaemonizeError};

use nix::errno::Errno;
use nix::fcntl::{open, Flock, FlockArg, OFlag};
use nix::sys::signal::{sigprocmask, SigSet, SigmaskHow, Signal};
use nix::sys::stat::{fstat, stat, Mode};

fn start(config: &DaemonConfig) -> Daemonization {
    daemonize_inner(config, SignalNumbers::host())
}

/// Answers the calls until the sequence ends.
fn drive<F: FnMut(&Op) -> Event>(mut d: Daemonization, mut answer: F) -> Step {
    loop {
        let event = answer(d.op().expect("there is a call as long as it goes on"));
        match d.advance(event) {
            Step::Continue(next) => d = next,
            end => return end,
        }
    }
}

/// What comes of a call when everything goes well.
fn smooth(op: &Op) -> Event {
    match op {
        Op::CreatePipe => Event::Pipe {
            read: 90,
            write: 91,
        },
        Op::FirstFork | Op::SecondFork => Event::Child,
        Op::Open { .. } => Event::Opened(50),
        Op::QueryPidfile { .. } => Event::Pidfile {
            pid: 4711,
            pidfile: None,
            lockfile: None,
        },
        Op::QueryOutputs { .. } => Event::Outputs {
            stdout: None,
            stderr: None,
        },
        Op::ListFds => Event::Fds(None),
        Op::QueryFdLimit => Event::Limit(64),
        Op::ReadPipe(_) => Event::Bytes(Vec::new()),
        _ => Event::Done,
    }
}

fn failure(errno: Errno) -> Event {
    Event::Failed(OsFailure::from_raw(errno as i32))
}

fn context(step: Step) -> DaemonContext {
    match step {
        Step::Return(ctx) => ctx,
        Step::Fail { error, .. } => panic!("failed: {}", error.to_string()),
        _ => panic!("the sequence should return a context"),
    }
}

fn error(step: Step) -> DaemonizeError {
    match step {
        Step::Fail { error, .. } => error,
        _ => panic!("the sequence should return an error"),
    }
}

/// Opens and locks like [`open`] and `flock`, keeping the lock held.
fn flags_of(flags: &OpenFlags) -> OFlag {
    let mut o = if flags.read_write {
        OFlag::O_RDWR
    } else {
        OFlag::O_WRONLY
    };
    if flags.create {
        o |= OFlag::O_CREAT;
    }
    if flags.append {
        o |= OFlag::O_APPEND;
    }
    if flags.truncate {
        o |= OFlag::O_TRUNC;
    }
    if flags.cloexec {
        o |= OFlag::O_CLOEXEC;
    }
    o
}

#[test]
fn both_forks_child_succeeds() {
    let mut config = DaemonConfig::new();
    config.close_fds(false);
    let mut made = Vec::new();
    let step = drive(start(&config), |op| {
        made.push(format!("{op:?}"));
        smooth(op)
    });
    let result = context(step);
    assert!(result.lockfile_fd().is_none());
    assert_eq!(
        made[..7].to_vec(),
        vec![
            "CreatePipe".to_string(),
            "FirstFork".to_string(),
            "CloseEnd(90)".to_string(),
            "Setsid".to_string(),
            "SecondFork".to_string(),
            "SetUmask(0)".to_string(),
            format!("Chdir({:?})", UnixPath::new("/")),
        ]
    );
}

#[test]
fn first_fork_parent_exits() {
    let config = DaemonConfig::new();
    let mut made = Vec::new();
    let step = drive(start(&config), |op| {
        made.push(format!("{op:?}"));
        match op {
            Op::FirstFork => Event::Parent,
            _ => smooth(op),
        }
    });
    assert!(matches!(
        step,
        Step::Exit {
            write: None,
            message: None,
            code: 0
        }
    ));
    assert_eq!(
        made,
        vec!["CreatePipe", "FirstFork", "CloseEnd(91)", "ReadPipe(90)"]
    );
}

#[test]
fn exit_panic_contains_code() {
    // The process that waits exits with code 0 when the pipe ends without a word.
    let config = DaemonConfig::new();
    let step = drive(start(&config), |op| match op {
        Op::FirstFork => Event::Parent,
        _ => smooth(op),
    });
    match step {
        Step::Exit { code, .. } => assert_eq!(code, 0),
        _ => panic!("the waiting process should exit"),
    }
}

#[test]
fn second_fork_parent_exits() {
    let config = DaemonConfig::new();
    let step = drive(start(&config), |op| match op {
        Op::SecondFork => Event::Parent,
        _ => smooth(op),
    });
    assert!(matches!(
        step,
        Step::Exit {
            write: None,
            message: None,
            code: 0
        }
    ));
}

#[test]
fn first_fork_fails_returns_error() {
    let config = DaemonConfig::new();
    let step = drive(start(&config), |op| match op {
        Op::FirstFork => failure(Errno::EAGAIN),
        _ => smooth(op),
    });
    match step {
        Step::Fail { error, close } => {
            assert!(matches!(error, DaemonizeError::ForkFailed(_)));
            assert_eq!(close, vec![90, 91]);
        }
        _ => panic!("the caller should get the error"),
    }
}

#[test]
fn pipe_failure_returns_error() {
    let step = drive(start(&DaemonConfig::new()), |_| failure(Errno::EMFILE));
    assert!(matches!(error(step), DaemonizeError::SystemError(_)));
}

#[test]
fn setsid_fails_exits() {
    let config = DaemonConfig::new();
    let step = drive(start(&config), |op| match op {
        Op::Setsid => failure(Errno::EPERM),
        _ => smooth(op),
    });
    match step {
        Step::Exit {
            write: Some(write),
            message: None,
            code,
        } => {
            assert_eq!(write.fd, 91);
            assert_eq!(code, 71);
            assert!(matches!(
                decode(&write.bytes),
                Outcome::Failure { code: 71, message } if message.starts_with("setsid failed: ")
            ));
        }
        _ => panic!("the process should exit with a message"),
    }
}

#[test]
fn second_fork_fails_exits() {
    let config = DaemonConfig::new();
    let step = drive(start(&config), |op| match op {
        Op::SecondFork => failure(Errno::EAGAIN),
        _ => smooth(op),
    });
    match step {
        Step::Exit {
            write: Some(write),
            code: 71,
            ..
        } => assert!(matches!(
            decode(&write.bytes),
            Outcome::Failure { code: 71, message } if message.starts_with("fork failed: ")
        )),
        _ => panic!("the process should exit with a message"),
    }
}

#[test]
fn signal_error_to_parent_noop_with_none() {
    assert!(signal_error_to_parent(None, &DaemonizeError::ForkFailed("test".into())).is_none());
}

#[test]
fn signal_error_to_parent_writes_protocol() {
    let err = DaemonizeError::ForkFailed("test error".into());
    let write = signal_error_to_parent(Some(5), &err).unwrap();
    assert_eq!(write.fd, 5);
    let buf = write.bytes;
    assert_eq!(buf[0], 71); // EX_OSERR
    assert_eq!(
        std::str::from_utf8(&buf[1..]).unwrap(),
        "fork failed: test error"
    );
}

#[test]
fn parent_reader_prints_and_exits_with_the_code() {
    let err = DaemonizeError::PidfileError("open /x: EACCES".into());
    match parent_pipe_reader(&error_bytes(&err)) {
        Step::Exit {
            write: None,
            message: Some(message),
            code: 73,
        } => assert_eq!(message, "pidfile error: open /x: EACCES"),
        _ => panic!("the waiting process should fail"),
    }
    assert!(matches!(
        parent_pipe_reader(&unnotified_bytes()),
        Step::Exit {
            write: None,
            message: Some(_),
            code: 1
        }
    ));
    assert!(matches!(
        parent_pipe_reader(&[0]),
        Step::Exit {
            write: None,
            message: None,
            code: 0
        }
    ));
}

#[test]
fn foreground_mode_skips_fork() {
    let mut config = DaemonConfig::new();
    config.foreground(true).close_fds(false);
    let step = drive(start(&config), |op| match op {
        Op::CreatePipe | Op::FirstFork | Op::SecondFork | Op::Setsid => {
            panic!("no fork in the foreground")
        }
        _ => smooth(op),
    });
    let ctx = context(step);
    assert!(ctx.lockfile_fd().is_none());
}

#[test]
fn foreground_mode_notify_parent_noop() {
    let mut config = DaemonConfig::new();
    config.foreground(true).close_fds(false);
    let mut ctx = context(drive(start(&config), smooth));
    assert!(ctx.notify_parent().is_ok());
    assert!(ctx.notify_parent().unwrap().is_none());
}

#[test]
fn foreground_leaves_stdout_and_stderr() {
    let mut config = DaemonConfig::new();
    config.foreground(true).close_fds(false);
    let mut dups = Vec::new();
    drive(start(&config), |op| {
        if let Op::Dup2 { source, target, .. } = op {
            dups.push((*source, *target));
        }
        smooth(op)
    });
    assert_eq!(dups, vec![(50, 0)]);
}

#[test]
fn daemon_sends_all_streams_to_devnull() {
    let mut config = DaemonConfig::new();
    config.close_fds(false);
    let mut calls = Vec::new();
    drive(start(&config), |op| {
        match op {
            Op::Dup2 { source, target, .. } => calls.push((*source, *target, true)),
            Op::Release { fd, close, .. } => calls.push((*fd, -1, *close)),
            Op::Open { path, flags, .. } => {
                assert_eq!(path, &UnixPath::new("/dev/null"));
                assert_eq!(flags_of(flags), OFlag::O_RDWR);
            }
            _ => {}
        }
        smooth(op)
    });
    assert_eq!(
        calls,
        vec![
            (50, 0, true),
            (50, 1, true),
            (50, 2, true),
            (50, -1, true)
        ]
    );
    // /dev/null that came as one of the streams is neither duplicated onto itself
    // nor closed.
    let mut calls = Vec::new();
    drive(start(&config), |op| match op {
        Op::Open { .. } => Event::Opened(1),
        Op::Dup2 { source, target, .. } => {
            calls.push((*source, *target, true));
            Event::Done
        }
        Op::Release { fd, close, .. } => {
            calls.push((*fd, -1, *close));
            Event::Done
        }
        _ => smooth(op),
    });
    assert_eq!(calls, vec![(1, 0, true), (1, 2, true), (1, -1, false)]);
}

#[test]
fn pidfile_only_holds_derived_lock() {
    let dir = tempfile::tempdir().unwrap();
    let pidfile = dir.path().join("app.pid");
    let pidfile = pidfile.to_str().unwrap();
    let mut config = DaemonConfig::new();
    config.foreground(true).close_fds(false).pidfile(pidfile);

    let mut files = Vec::new();
    let mut locks = Vec::new();
    let step = drive(start(&config), |op| match op {
        Op::Open {
            path,
            flags,
            purpose: OpenPurpose::Lock,
        } => {
            let mode = Mode::from_bits_truncate(FILE_MODE);
            files.push(open(path.display().as_str(), flags_of(flags), mode).unwrap());
            Event::Opened(1000)
        }
        Op::Flock { fd, .. } => {
            assert_eq!(*fd, 1000);
            let file = files.pop().unwrap();
            locks.push(Flock::lock(file, FlockArg::LockExclusiveNonblock).unwrap());
            Event::Done
        }
        _ => smooth(op),
    });
    let ctx = context(step);
    let lock_fd = ctx
        .lockfile_fd()
        .expect("a lone pidfile should be flock'd by default");
    assert_eq!(lock_fd, 1000);
    // The held lock must be on the pidfile itself, not some other file.
    let lock_stat = fstat(&*locks[0]).unwrap();
    let pidfile_stat = stat(pidfile).unwrap();
    assert_eq!(
        (lock_stat.st_dev, lock_stat.st_ino),
        (pidfile_stat.st_dev, pidfile_stat.st_ino),
        "derived lock fd should refer to the pidfile"
    );
    // A second acquisition of the same path must conflict.
    let file = open(
        pidfile,
        OFlag::O_WRONLY | OFlag::O_CREAT | OFlag::O_CLOEXEC,
        Mode::from_bits_truncate(FILE_MODE),
    )
    .unwrap();
    let (_file, errno) = Flock::lock(file, FlockArg::LockExclusiveNonblock).unwrap_err();
    let op = Op::Flock {
        fd: 1001,
        path: UnixPath::new(pidfile),
    };
    let second = error_of(&op, &OsFailure::from_raw(errno as i32));
    assert!(matches!(second, DaemonizeError::LockConflict { .. }));
}

#[test]
fn foreground_lock_conflict_returns_err() {
    let dir = tempfile::tempdir().unwrap();
    let pidfile = dir.path().join("app.pid");
    let pidfile = pidfile.to_str().unwrap();
    let held = open(
        pidfile,
        OFlag::O_WRONLY | OFlag::O_CREAT | OFlag::O_CLOEXEC,
        Mode::from_bits_truncate(FILE_MODE),
    )
    .unwrap();
    let _held = Flock::lock(held, FlockArg::LockExclusiveNonblock).unwrap();
    let mut config = DaemonConfig::new();
    config.foreground(true).close_fds(false).pidfile(pidfile);
    let mut files = Vec::new();
    let step = drive(start(&config), |op| match op {
        Op::Open {
            path,
            flags,
            purpose: OpenPurpose::Lock,
        } => {
            let mode = Mode::from_bits_truncate(FILE_MODE);
            files.push(open(path.display().as_str(), flags_of(flags), mode).unwrap());
            Event::Opened(1000)
        }
        Op::Flock { .. } => match Flock::lock(
            files.pop().unwrap(),
            FlockArg::LockExclusiveNonblock,
        ) {
            Ok(_) => Event::Done,
            Err((_, errno)) => failure(errno),
        },
        _ => smooth(op),
    });
    match step {
        Step::Fail { error, close } => {
            assert!(
                matches!(error, DaemonizeError::LockConflict { .. }),
                "foreground mode should surface setup errors as Err, not exit"
            );
            assert_eq!(close, vec![1000]);
        }
        _ => panic!("foreground mode should surface setup errors as Err, not exit"),
    }
}

#[test]
fn open_and_lock_creates_and_locks() {
    let dir = tempfile::tempdir().unwrap();
    let path = dir.path().join("test.lock");
    let mut config = DaemonConfig::new();
    config
        .foreground(true)
        .close_fds(false)
        .lockfile(path.to_str().unwrap());
    let mut locks = Vec::new();
    let mut files = Vec::new();
    let ctx = context(drive(start(&config), |op| match op {
        Op::Open {
            path,
            flags,
            purpose: OpenPurpose::Lock,
        } => {
            assert_eq!(
                flags_of(flags),
                OFlag::O_WRONLY | OFlag::O_CREAT | OFlag::O_CLOEXEC
            );
            let mode = Mode::from_bits_truncate(FILE_MODE);
            files.push(open(path.display().as_str(), flags_of(flags), mode).unwrap());
            Event::Opened(33)
        }
        Op::Flock { .. } => {
            let file = files.pop().unwrap();
            locks.push(Flock::lock(file, FlockArg::LockExclusiveNonblock).unwrap());
            Event::Done
        }
        _ => smooth(op),
    }));
    assert!(path.exists());
    assert!(ctx.lockfile_fd().unwrap() >= 0);
    assert_eq!(ctx.lockfile_fd(), Some(33));
}

#[test]
fn open_and_lock_conflict() {
    let dir = tempfile::tempdir().unwrap();
    let path = dir.path().join("test.lock");
    let path = path.to_str().unwrap();
    let again = || {
        open(
            path,
            OFlag::O_WRONLY | OFlag::O_CREAT | OFlag::O_CLOEXEC,
            Mode::from_bits_truncate(FILE_MODE),
        )
        .unwrap()
    };
    let _first = Flock::lock(again(), FlockArg::LockExclusiveNonblock).unwrap();
    let (_, errno) = Flock::lock(again(), FlockArg::LockExclusiveNonblock).unwrap_err();
    let op = Op::Flock {
        fd: 3,
        path: UnixPath::new(path),
    };
    match error_of(&op, &OsFailure::from_raw(errno as i32)) {
        DaemonizeError::LockConflict { path: conflicting } => {
            assert_eq!(conflicting, UnixPath::new(path));
        }
        other => panic!("expected LockConflict, got {other:?}"),
    }
    // Any other failure is no conflict.
    let other = error_of(&op, &OsFailure::from_raw(Errno::EIO as i32));
    assert!(matches!(&other, DaemonizeError::LockfileError(m) if m.starts_with("flock ")));
}

#[test]
fn close_fds_false_preserves_fds() {
    let (rd, wr) = nix::unistd::pipe().unwrap();

    let mut config = DaemonConfig::new();
    config.close_fds(false);
    let _ctx = context(drive(start(&config), |op| match op {
        Op::ListFds | Op::QueryFdLimit | Op::CloseFds(_) | Op::CloseRange { .. } => {
            panic!("nothing is closed with close_fds=false")
        }
        _ => smooth(op),
    }));

    assert!(
        nix::unistd::write(&wr, b"alive").is_ok(),
        "write fd should still be open with close_fds=false"
    );
    let mut buf = [0u8; 5];
    assert!(
        nix::unistd::read(&rd, &mut buf).is_ok(),
        "read fd should still be open with close_fds=false"
    );
}

#[test]
fn close_inherited_fds_preserves_skipped() {
    let mut config = DaemonConfig::new();
    config.pidfile("/run/a.pid");
    let mut closed = Vec::new();
    context(drive(start(&config), |op| match op {
        Op::Open {
            purpose: OpenPurpose::Lock,
            ..
        } => Event::Opened(60),
        Op::ListFds => Event::Fds(Some(
            ["0", "1", "2", "3", "60", "61", "91", "junk", "-4"]
                .iter()
                .map(|s| s.to_string())
                .collect(),
        )),
        Op::CloseFds(fds) => {
            closed = fds.clone();
            Event::Done
        }
        _ => smooth(op),
    }));
    assert_eq!(closed, vec![3, 61]);
    // Without a listing the whole range is closed, but not what is kept.
    let mut range = None;
    context(drive(start(&config), |op| match op {
        Op::Open {
            purpose: OpenPurpose::Lock,
            ..
        } => Event::Opened(60),
        Op::QueryFdLimit => Event::Limit(u64::MAX),
        Op::CloseRange { max_fd, skip } => {
            range = Some((*max_fd, skip.clone()));
            Event::Done
        }
        _ => smooth(op),
    }));
    assert_eq!(range, Some((i32::MAX, vec![60, 91])));
}

#[test]
fn context_carries_config_fields() {
    let dir = tempfile::tempdir().unwrap();
    let pidfile = dir.path().join("test.pid");
    let stdout = dir.path().join("out.log");

    let mut config = DaemonConfig::new();
    config
        .pidfile(pidfile.to_str().unwrap())
        .stdout(stdout.to_str().unwrap())
        .user("nobody")
        .group("nogroup")
        .foreground(true)
        .close_fds(false);

    let ctx = context(drive(start(&config), smooth));

    let debug = ctx.debug_text();
    assert!(
        debug.contains("test.pid"),
        "context should contain pidfile path"
    );
    assert!(
        debug.contains("out.log"),
        "context should contain stdout path"
    );
    assert!(debug.contains("nobody"), "context should contain user");
    assert!(debug.contains("nogroup"), "context should contain group");
}

#[test]
fn calls_come_in_the_order_of_the_sequence() {
    let mut config = DaemonConfig::new();
    config
        .umask(0o22)
        .chdir("/srv")
        .pidfile("/run/a.pid")
        .lockfile("/run/a.lock")
        .env("A", "1")
        .env("A", "2")
        .stdout("/log/o")
        .stderr("/log/e");
    let signals = SignalNumbers {
        kill: 9,
        stop: 19,
        pipe: 13,
        rt_min: 34,
        rt_max: 34,
    };
    let mut made: Vec<String> = Vec::new();
    let mut resets = Vec::new();
    let ctx = context(drive(daemonize_inner(&config, signals), |op| {
        match op {
            Op::ResetSignal(n) => resets.push(*n),
            Op::Open { path, .. } => made.push(format!("open {}", path.display())),
            Op::Dup2 { target, .. } => made.push(format!("dup {target}")),
            Op::SetEnv { key, value } => made.push(format!("env {key}={value}")),
            Op::Write { bytes, .. } => {
                made.push(format!("write {}", String::from_utf8_lossy(bytes)))
            }
            Op::Release { .. } => {}
            Op::Chdir(path) => made.push(format!("chdir {}", path.display())),
            Op::QueryPidfile { .. } => made.push("pidfile".into()),
            Op::QueryOutputs { .. } => made.push("outputs".into()),
            Op::Flock { .. } => made.push("flock".into()),
            Op::CloseRange { .. } => made.push("close".into()),
            other => made.push(format!("{other:?}")),
        }
        smooth(op)
    }));
    assert_eq!(ctx.lockfile_fd(), Some(50));
    assert_eq!(
        made,
        vec![
            "CreatePipe",
            "FirstFork",
            "CloseEnd(90)",
            "Setsid",
            "SecondFork",
            "SetUmask(18)",
            "chdir /srv",
            "open /dev/null",
            "dup 0",
            "dup 1",
            "dup 2",
            "open /run/a.lock",
            "flock",
            "pidfile",
            "open /run/a.pid",
            "write 4711\n",
            "ClearSignalMask",
            "env A=1",
            "env A=2",
            "outputs",
            "open /log/o",
            "dup 1",
            "open /log/e",
            "dup 2",
            "ListFds",
            "QueryFdLimit",
            "close",
        ]
    );
    let wanted: Vec<i32> = (1..32)
        .chain(34..=34)
        .filter(|n| ![9, 13, 19].contains(n))
        .collect();
    assert_eq!(resets, wanted);
}

#[test]
fn shared_pidfile_is_written_through_the_lock() {
    let dir = tempfile::tempdir().unwrap();
    let path = dir.path().join("shared.pid");
    let path = path.to_str().unwrap();
    let mut config = DaemonConfig::new();
    config.foreground(true).close_fds(false).pidfile(path);
    let mut files = Vec::new();
    let mut locks = Vec::new();
    context(drive(start(&config), |op| match op {
        Op::Open {
            path,
            flags,
            purpose: OpenPurpose::Lock,
        } => {
            let mode = Mode::from_bits_truncate(FILE_MODE);
            files.push(open(path.display().as_str(), flags_of(flags), mode).unwrap());
            Event::Opened(70)
        }
        Op::Flock { .. } => {
            let file = files.pop().unwrap();
            nix::unistd::write(&file, b"999999999999\n").unwrap();
            locks.push(Flock::lock(file, FlockArg::LockExclusiveNonblock).unwrap());
            Event::Done
        }
        Op::SeekStart(fd) => {
            assert_eq!(*fd, 70);
            nix::unistd::lseek(&*locks[0], 0, nix::unistd::Whence::SeekSet).unwrap();
            Event::Done
        }
        Op::Truncate(_) => {
            nix::unistd::ftruncate(&*locks[0], 0).unwrap();
            Event::Done
        }
        Op::Write { fd, bytes, file } => {
            assert_eq!(*fd, 70);
            assert!(file.is_none());
            nix::unistd::write(&*locks[0], bytes).unwrap();
            Event::Done
        }
        Op::Open {
            purpose: OpenPurpose::Pidfile(_),
            ..
        } => panic!("the locked pidfile must not be opened again"),
        _ => smooth(op),
    }));
    let mut buf = [0u8; 64];
    let file = open(path, OFlag::O_RDONLY, Mode::empty()).unwrap();
    let n = nix::unistd::read(&file, &mut buf).unwrap();
    assert_eq!(&buf[..n], b"4711\n");
}

#[test]
fn write_pidfile_standalone() {
    let ops = write_pidfile(UnixPath::new("/run/x.pid"), 42, None);
    assert_eq!(
        ops,
        vec![Op::Open {
            path: UnixPath::new("/run/x.pid"),
            flags: OpenFlags {
                read_write: false,
                create: true,
                append: false,
                truncate: true,
                cloexec: true,
            },
            purpose: OpenPurpose::Pidfile(42),
        }]
    );
    assert_eq!(FILE_MODE, 0o644);
}

#[test]
fn write_pidfile_standalone_open_error() {
    let ops = write_pidfile(UnixPath::new("/nonexistent_blivet_dir/x.pid"), 42, None);
    let errno = open(
        "/nonexistent_blivet_dir/x.pid",
        OFlag::O_WRONLY | OFlag::O_CREAT | OFlag::O_TRUNC | OFlag::O_CLOEXEC,
        Mode::from_bits_truncate(FILE_MODE),
    )
    .unwrap_err();
    let result = error_of(&ops[0], &OsFailure::from_raw(errno as i32));
    assert!(matches!(result, DaemonizeError::PidfileError(msg) if msg.contains("open")));
}

#[test]
fn write_pidfile_shared_with_lockfile() {
    let ops = write_pidfile(UnixPath::new("/run/x.pid"), u32::MAX, Some(8));
    assert_eq!(
        ops,
        vec![
            Op::SeekStart(8),
            Op::Truncate(8),
            Op::Write {
                fd: 8,
                bytes: b"4294967295\n".to_vec(),
                file: None
            },
        ]
    );
}

#[test]
fn write_pidfile_with_different_lockfile_path() {
    let mut config = DaemonConfig::new();
    config
        .foreground(true)
        .close_fds(false)
        .pidfile("/run/test.pid")
        .lockfile("/run/test.lock");
    let mut opened = Vec::new();
    context(drive(start(&config), |op| {
        if let Op::Open { path, purpose, .. } = op {
            opened.push((path.display(), *purpose));
        }
        smooth(op)
    }));
    assert_eq!(
        opened[1..].to_vec(),
        vec![
            ("/run/test.lock".to_string(), OpenPurpose::Lock),
            ("/run/test.pid".to_string(), OpenPurpose::Pidfile(4711)),
        ]
    );
}

#[test]
fn shared_pidfile_by_canonical_path() {
    let mut config = DaemonConfig::new();
    config
        .foreground(true)
        .close_fds(false)
        .pidfile("/run/test.pid")
        .lockfile("/run/./test.pid");
    let mut through_lock = false;
    context(drive(start(&config), |op| match op {
        Op::QueryPidfile { .. } => Event::Pidfile {
            pid: 1,
            pidfile: Some(UnixPath::new("/run/test.pid")),
            lockfile: Some(UnixPath::new("/run/test.pid")),
        },
        Op::SeekStart(fd) => {
            through_lock = *fd == 50;
            Event::Done
        }
        _ => smooth(op),
    }));
    assert!(through_lock);
}

#[test]
fn change_dir_nonexistent_fails() {
    let mut config = DaemonConfig::new();
    config
        .foreground(true)
        .chdir("/nonexistent_daemonize_test_path");
    let step = drive(start(&config), |op| match op {
        Op::Chdir(path) => match nix::unistd::chdir(path.display().as_str()) {
            Ok(()) => Event::Done,
            Err(e) => failure(e),
        },
        _ => smooth(op),
    });
    assert!(matches!(error(step), DaemonizeError::ChdirFailed(_)));
}

#[test]
fn reset_signal_tolerates_invalid_numbers_only() {
    let mut config = DaemonConfig::new();
    config.foreground(true).close_fds(false);
    let end = drive(start(&config), |op| match op {
        Op::ResetSignal(_) => failure(Errno::EINVAL),
        _ => smooth(op),
    });
    assert!(matches!(end, Step::Return(_)));
    let end = drive(start(&config), |op| match op {
        Op::ResetSignal(15) => failure(Errno::EPERM),
        _ => smooth(op),
    });
    assert!(
        matches!(error(end), DaemonizeError::SystemError(m) if m.starts_with("sigaction(15): "))
    );
}

#[test]
fn every_failing_call_has_its_error() {
    let f = |text: &str| OsFailure {
        errno: 5,
        kind: blivet::errno::ErrnoKind::Other,
        text: text.into(),
    };
    let path = || UnixPath::new("/p");
    let flags = OpenFlags {
        read_write: false,
        create: true,
        append: false,
        truncate: false,
        cloexec: false,
    };
    let open_for = |purpose: OpenPurpose| Op::Open {
        path: UnixPath::new("/p"),
        flags,
        purpose,
    };
    let cases: Vec<(Op, &str)> = vec![
        (Op::CreatePipe, "system error: failed to create notification pipe: E"),
        (Op::FirstFork, "fork failed: E"),
        (Op::SecondFork, "fork failed: E"),
        (Op::Setsid, "setsid failed: E"),
        (Op::Chdir(path()), "chdir failed: /p: E"),
        (open_for(OpenPurpose::DevNull), "system error: open /dev/null: E"),
        (open_for(OpenPurpose::Lock), "lockfile error: cannot open /p: E"),
        (open_for(OpenPurpose::Pidfile(1)), "pidfile error: open /p: E"),
        (open_for(OpenPurpose::Output(1)), "output file error: cannot open /p: E"),
        (
            Op::Dup2 {
                source: 5,
                target: 0,
                reason: DupReason::DevNull,
            },
            "system error: dup2 /dev/null -> stdin: E",
        ),
        (
            Op::Dup2 {
                source: 5,
                target: 2,
                reason: DupReason::DevNull,
            },
            "system error: dup2 /dev/null -> stderr: E",
        ),
        (
            Op::Dup2 {
                source: 5,
                target: 2,
                reason: DupReason::Output,
            },
            "output file error: dup2 fd 2: E",
        ),
        (
            Op::Dup2 {
                source: 1,
                target: 2,
                reason: DupReason::Share,
            },
            "output file error: dup2 stdout -> stderr: E",
        ),
        (
            Op::Flock {
                fd: 3,
                path: path(),
            },
            "lockfile error: flock /p: E",
        ),
        (Op::SeekStart(3), "pidfile error: seek: E"),
        (Op::Truncate(3), "pidfile error: truncate: E"),
        (
            Op::Write {
                fd: 3,
                bytes: vec![],
                file: None,
            },
            "pidfile error: write: E",
        ),
        (
            Op::Write {
                fd: 3,
                bytes: vec![],
                file: Some(path()),
            },
            "pidfile error: write /p: E",
        ),
        (Op::ResetSignal(64), "system error: sigaction(64): E"),
        (Op::ClearSignalMask, "system error: sigprocmask: E"),
        (Op::QueryFdLimit, "system error: getrlimit(RLIMIT_NOFILE): E"),
    ];
    for (op, text) in &cases {
        assert_eq!(error_of(op, &f("E")).to_string(), *text);
    }
}

#[test]
fn a_failure_reaches_the_waiting_process() {
    let mut config = DaemonConfig::new();
    config.pidfile("/run/a.pid");
    let step = drive(start(&config), |op| match op {
        Op::ClearSignalMask => failure(Errno::EPERM),
        _ => smooth(op),
    });
    let (bytes, code) = match step {
        Step::Exit {
            write: Some(write),
            message: None,
            code,
        } => (write.bytes, code),
        _ => panic!("the daemon should exit with a message"),
    };
    let step = drive(start(&config), |op| match op {
        Op::FirstFork => Event::Parent,
        Op::ReadPipe(_) => Event::Bytes(bytes.clone()),
        _ => smooth(op),
    });
    match step {
        Step::Exit {
            write: None,
            message: Some(message),
            code: parent_code,
        } => {
            assert_eq!(parent_code, code);
            assert_eq!(code, 71);
            assert!(message.starts_with("system error: sigprocmask: "));
        }
        _ => panic!("the waiting process should exit with the message"),
    }
}

#[test]
fn answers_that_do_not_fit_change_nothing() {
    let config = DaemonConfig::new();
    let d = match start(&config).advance(Event::Done) {
        Step::Continue(d) => d,
        _ => panic!("nothing has come of the call yet"),
    };
    assert_eq!(d.op(), Some(&Op::CreatePipe));
}

#[test]
fn same_output_file_is_shared() {
    let mut config = DaemonConfig::new();
    config
        .foreground(true)
        .close_fds(false)
        .stdout("/log/o")
        .stderr("/log/o");
    let mut made = Vec::new();
    context(drive(start(&config), |op| {
        match op {
            Op::Open {
                purpose: OpenPurpose::Output(fd),
                ..
            } => made.push(("open", *fd)),
            Op::Dup2 {
                source,
                reason: DupReason::Share,
                target,
            } => {
                assert_eq!(*source, 1);
                made.push(("share", *target));
            }
            _ => {}
        }
        smooth(op)
    }));
    assert_eq!(made, vec![("open", 1), ("share", 2)]);
}

#[test]
fn output_file_that_takes_the_place_at_once() {
    let mut config = DaemonConfig::new();
    config.foreground(true).close_fds(false).stderr("/log/e");
    let mut released = None;
    context(drive(start(&config), |op| match op {
        Op::Open {
            purpose: OpenPurpose::Output(2),
            ..
        } => Event::Opened(2),
        Op::Dup2 {
            reason: DupReason::Output,
            ..
        } => panic!("the file is already in place"),
        Op::Release {
            fd,
            close,
            purpose: OpenPurpose::Output(_),
        } => {
            released = Some((*fd, *close));
            Event::Done
        }
        _ => smooth(op),
    }));
    assert_eq!(released, Some((2, false)));
}

fn sound_host() -> HostFacts {
    let root = PathFacts {
        path: UnixPath::new("/"),
        present: true,
        is_dir: true,
        writable: false,
        canonical: None,
    };
    HostFacts::new(1000, vec![root])
}

#[test]
fn daemonize_refuses_without_exactly_one_thread() {
    let config = DaemonConfig::new();
    assert!(daemonize(&config, &sound_host(), Some(1)).is_ok());
    match daemonize(&config, &sound_host(), Some(2)) {
        Err(Refusal::Threads(message)) => {
            assert!(message.starts_with("daemonize: 2 threads running (expected 1)."))
        }
        _ => panic!("two threads are one too many"),
    }
    assert!(matches!(
        daemonize(&config, &sound_host(), Some(0)),
        Err(Refusal::Threads(_))
    ));
    match daemonize(&config, &sound_host(), None) {
        Err(Refusal::Threads(message)) => assert_eq!(
            message,
            "daemonize: cannot determine thread count to verify single-threadedness"
        ),
        _ => panic!("an unknown number of threads is not one"),
    }
}

#[test]
fn daemonize_validates_before_anything_else() {
    let mut config = DaemonConfig::new();
    config.stdout("relative");
    assert!(matches!(
        daemonize(&config, &sound_host(), Some(1)),
        Err(Refusal::Invalid(DaemonizeError::ValidationError(_)))
    ));
    assert!(daemonize_unchecked(&config, &sound_host()).is_err());
    let fresh = daemonize_unchecked(&DaemonConfig::new(), &sound_host()).unwrap();
    assert_eq!(fresh.op(), Some(&Op::CreatePipe));
}

#[test]
fn the_pidfile_is_not_touched_without_the_lock() {
    let mut config = DaemonConfig::new();
    config.foreground(true).pidfile("/run/app.pid");
    let mut made = Vec::new();
    let step = drive(start(&config), |op| {
        made.push(format!("{op:?}"));
        match op {
            Op::Flock { .. } => failure(Errno::EWOULDBLOCK),
            _ => smooth(op),
        }
    });
    assert!(matches!(error(step), DaemonizeError::LockConflict { .. }));
    assert!(made.last().unwrap().starts_with("Flock"));

    let mut locked = false;
    drive(start(&config), |op| {
        match op {
            Op::Flock { .. } => locked = true,
            Op::QueryPidfile { .. } | Op::Truncate(_) | Op::Write { .. } => assert!(locked),
            _ => {}
        }
        smooth(op)
    });
    assert!(locked);
}

#[test]
fn set_umask_applies_and_can_be_read_back() {
    let old = nix::sys::stat::umask(Mode::from_bits_truncate(0o077));
    let mut config = DaemonConfig::new();
    config.foreground(true).umask(0o022);
    context(drive(start(&config), |op| {
        if let Op::SetUmask(mask) = op {
            nix::sys::stat::umask(Mode::from_bits_truncate(*mask as libc::mode_t));
        }
        smooth(op)
    }));
    let readback = nix::sys::stat::umask(old);
    assert_eq!(readback, Mode::from_bits_truncate(0o022));
}

#[test]
fn clear_signal_mask_empties() {
    let mut set = SigSet::empty();
    set.add(Signal::SIGUSR1);
    sigprocmask(SigmaskHow::SIG_BLOCK, Some(&set), None).unwrap();

    let mut config = DaemonConfig::new();
    config.foreground(true);
    context(drive(start(&config), |op| {
        if matches!(op, Op::ClearSignalMask) {
            sigprocmask(SigmaskHow::SIG_SETMASK, Some(&SigSet::empty()), None).unwrap();
        }
        smooth(op)
    }));

    let mut current = SigSet::empty();
    sigprocmask(SigmaskHow::SIG_SETMASK, None, Some(&mut current)).unwrap();
    assert!(!current.contains(Signal::SIGUSR1));
}

#[test]
fn execute_redirect_creates_files() {
    let dir = tempfile::tempdir().unwrap();
    let stdout_path = dir.path().join("stdout.log");
    let stderr_path = dir.path().join("stderr.log");
    let mut config = DaemonConfig::new();
    config
        .foreground(true)
        .stdout(stdout_path.to_str().unwrap())
        .stderr(stderr_path.to_str().unwrap());
    context(drive(start(&config), |op| {
        if let Op::Open {
            path,
            flags,
            purpose: OpenPurpose::Output(_),
        } = op
        {
            open(
                path.as_bytes(),
                flags_of(flags),
                Mode::from_bits_truncate(FILE_MODE as libc::mode_t),
            )
            .unwrap();
        }
        smooth(op)
    }));
    assert!(stdout_path.exists());
    assert!(stderr_path.exists());
}

/// The signals that a daemon resets on a host.
fn signals_reset(host: &HostFacts) -> Vec<i32> {
    let mut reset = Vec::new();
    let started = daemonize(&DaemonConfig::new(), host, Some(1)).unwrap();
    context(drive(started, |op| {
        if let Op::ResetSignal(signal) = op {
            reset.push(*signal);
        }
        smooth(op)
    }));
    reset
}

#[test]
fn signals_are_reset_but_for_sigpipe() {
    let host = sound_host();
    assert_eq!(host.signals.kill, libc::SIGKILL);
    assert_eq!(host.signals.stop, libc::SIGSTOP);
    assert_eq!(host.signals.pipe, libc::SIGPIPE);
    assert_eq!(host.signals.rt_min, libc::SIGRTMIN());
    assert_eq!(host.signals.rt_max, libc::SIGRTMAX());
    let reset = signals_reset(&host);
    let untouched = [libc::SIGKILL, libc::SIGSTOP, libc::SIGPIPE];
    for signal in (1..32).chain(libc::SIGRTMIN()..=libc::SIGRTMAX()) {
        assert_eq!(reset.contains(&signal), !untouched.contains(&signal));
    }
    assert!(!reset.contains(&32));
}

#[test]
fn the_numbers_of_the_host_decide_which_signals_are_reset() {
    let mut host = sound_host();
    host.signals = SignalNumbers {
        kill: 9,
        stop: 17,
        pipe: 13,
        rt_min: 40,
        rt_max: 41,
    };
    let expected: Vec<i32> = (1..32)
        .chain(40..42)
        .filter(|signal| ![9, 13, 17].contains(signal))
        .collect();
    assert_eq!(signals_reset(&host), expected);
}
