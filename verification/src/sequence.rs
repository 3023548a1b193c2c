//! The daemonization sequence, one system call at a time.
//!
//! [`Daemonization`] knows which call comes next. Its caller makes the call and
//! reports what came of it, until the sequence says that the process is to go on
//! as a daemon, to return an error, or to exit. After each fork the sequence goes
//! on in both processes.

use vstd::prelude::*;
use vstd::utf8::*;
use crate::calls::{calls, DupReason, Event, EventView, Op, OpView, OpenPurpose};
use crate::config::{env_view, ConfigView, DaemonConfig};
use crate::context::{new_context, opt_fd, opt_write, pipe_write, ContextView, DaemonContext};
use crate::errno::{ErrnoKind, OsFailure};
use crate::error::{DaemonizeError, ErrorView};
use crate::fds::{clamp_max_fd, closable, close_inherited_fds, list_open_fds, listed_fds};
use crate::host::HostFacts;
use crate::notify::{
    decode, error_message, outcome, NotifyPipe, Outcome, OutcomeView, PipeWrite, PipeWriteView,
};
use crate::output::{
    plan_output_redirect, redirect_to, same_output, stderr_action, OpenFlags, StreamAction,
    StreamView,
};
use crate::path::{clone_bytes, opt_bytes, paths_same, same_file, utf8_lossy, UnixPath};
use crate::signals::{signals_to_reset, SignalNumbers};
use crate::text::{cat, cat3, cat4, decimal, decimal_of, numeral, numeral_of, opt_text};
use crate::thread_count::{assert_single_threaded, unknown_text, violation_text};
use crate::validate::problem;

verus! {

/// What the sequence comes to.
pub enum Step {
    /// There is more to do.
    Continue(Daemonization),
    /// The process is a daemon.
    Return(DaemonContext),
    /// Close the descriptors and return the error to the caller.
    Fail { error: DaemonizeError, close: Vec<i32> },
    /// Write to the pipe if there is something to write, whether or not it
    /// succeeds; print the message to stderr if there is one; exit at once.
    Exit { write: Option<PipeWrite>, message: Option<String>, code: i32 },
}

/// A [`Daemonization`] as a mathematical value.
pub struct SeqView {
    pub config: ConfigView,
    /// The read end of the notification pipe.
    pub pipe_read: Option<i32>,
    /// The write end of the notification pipe.
    pub pipe: Option<i32>,
    /// The descriptor that holds the lock.
    pub lock: Option<i32>,
    /// A descriptor that is open for a short while.
    pub temp: Option<i32>,
    /// The calls to be made, in order.
    pub pending: Seq<OpView>,
}

/// A [`Step`] as a mathematical value.
pub enum StepView {
    Continue(SeqView),
    Return(ContextView),
    Fail { error: ErrorView, close: Seq<i32> },
    Exit { write: Option<PipeWriteView>, message: Option<Seq<char>>, code: int },
}

impl View for Step {
    type V = StepView;

    open spec fn view(&self) -> StepView {
        match self {
            Step::Continue(d) => StepView::Continue(d@),
            Step::Return(c) => StepView::Return(c@),
            Step::Fail { error, close } => StepView::Fail { error: error@, close: close@ },
            Step::Exit { write, message, code } => StepView::Exit {
                write: opt_write(*write),
                message: opt_text(*message),
                code: *code as int,
            },
        }
    }
}

/// The daemonization of the running process.
#[derive(Debug)]
pub struct Daemonization {
    config: DaemonConfig,
    pipe_read: Option<i32>,
    pipe: Option<i32>,
    lock: Option<i32>,
    temp: Option<i32>,
    pending: Vec<Op>,
}

impl View for Daemonization {
    type V = SeqView;

    closed spec fn view(&self) -> SeqView {
        SeqView {
            config: self.config@,
            pipe_read: self.pipe_read,
            pipe: self.pipe,
            lock: self.lock,
            temp: self.temp,
            pending: calls(self.pending@),
        }
    }
}

// ---------------------------------------------------------------------------
// What is done: the calls, in order
// ---------------------------------------------------------------------------

/// How the lockfile is opened.
pub open spec fn lock_flags() -> OpenFlags {
    OpenFlags { read_write: false, create: true, append: false, truncate: false, cloexec: true }
}

/// How a pidfile that is not the lockfile is opened.
pub open spec fn pidfile_flags() -> OpenFlags {
    OpenFlags { read_write: false, create: true, append: false, truncate: true, cloexec: true }
}

/// How `/dev/null` is opened.
pub open spec fn devnull_flags() -> OpenFlags {
    OpenFlags { read_write: true, create: false, append: false, truncate: false, cloexec: false }
}

/// The contents of a pidfile: the process id in decimal, and a newline.
pub open spec fn pidfile_content(pid: u32) -> Seq<u8> {
    encode_utf8(numeral(pid as nat, 10) + "\n"@)
}

/// The calls up to the daemon's own process.
pub open spec fn fork_calls(c: ConfigView) -> Seq<OpView> {
    if c.foreground {
        Seq::empty()
    } else {
        seq![OpView::CreatePipe, OpView::FirstFork, OpView::Setsid, OpView::SecondFork]
    }
}

/// The umask, the working directory and `/dev/null`.
pub open spec fn place_calls(c: ConfigView) -> Seq<OpView> {
    seq![
        OpView::SetUmask(c.umask),
        OpView::Chdir(c.chdir),
        OpView::Open {
            path: encode_utf8("/dev/null"@),
            flags: devnull_flags(),
            purpose: OpenPurpose::DevNull,
        },
    ]
}

/// The lock.
pub open spec fn lock_calls(c: ConfigView) -> Seq<OpView> {
    match c.effective_lockfile() {
        Some(path) => seq![OpView::Open { path, flags: lock_flags(), purpose: OpenPurpose::Lock }],
        None => Seq::empty(),
    }
}

/// The pidfile.
pub open spec fn pidfile_calls(c: ConfigView) -> Seq<OpView> {
    match c.pidfile {
        Some(pidfile) => seq![
            OpView::QueryPidfile { pidfile, lockfile: c.effective_lockfile() },
        ],
        None => Seq::empty(),
    }
}

/// The signals.
pub open spec fn signal_calls(n: SignalNumbers) -> Seq<OpView> {
    Seq::new(n.to_reset().len(), |i: int| OpView::ResetSignal(n.to_reset()[i])).push(
        OpView::ClearSignalMask,
    )
}

/// The environment.
pub open spec fn env_calls(env: Seq<(Seq<char>, Seq<char>)>) -> Seq<OpView> {
    Seq::new(env.len(), |i: int| OpView::SetEnv { key: env[i].0, value: env[i].1 })
}

/// What is done with an output stream.
pub open spec fn stream_calls(action: StreamView) -> Seq<OpView> {
    match action {
        StreamView::Leave => Seq::empty(),
        StreamView::OpenAndRedirect { path, flags, target_fd } => seq![
            OpView::Open { path, flags, purpose: OpenPurpose::Output(target_fd as i32) },
        ],
        StreamView::DupStdoutToStderr => seq![
            OpView::Dup2 { source: 1, target: 2, reason: DupReason::Share },
        ],
    }
}

/// What is done with the output streams once it is known whether they go to the
/// same file.
pub open spec fn redirect_calls(c: ConfigView, same: bool) -> Seq<OpView> {
    stream_calls(redirect_to(c.stdout, c.append, 1)) + stream_calls(
        stderr_action(same, c.stderr, c.append),
    )
}

/// The output streams. With two files it has to be found out first whether they
/// are the same.
pub open spec fn output_calls(c: ConfigView) -> Seq<OpView> {
    match (c.stdout, c.stderr) {
        (Some(stdout), Some(stderr)) => seq![OpView::QueryOutputs { stdout, stderr }],
        _ => redirect_calls(c, false),
    }
}

/// The inherited descriptors.
pub open spec fn close_calls(c: ConfigView) -> Seq<OpView> {
    if c.close_fds {
        seq![OpView::ListFds]
    } else {
        Seq::empty()
    }
}

/// Everything from the umask on, which happens in the foreground as well.
pub open spec fn setup_calls(c: ConfigView, n: SignalNumbers) -> Seq<OpView> {
    place_calls(c) + lock_calls(c) + pidfile_calls(c) + signal_calls(n) + env_calls(c.env)
        + output_calls(c) + close_calls(c)
}

/// The sequence at its start.
pub open spec fn started(c: ConfigView, n: SignalNumbers) -> SeqView {
    SeqView {
        config: c,
        pipe_read: None,
        pipe: None,
        lock: None,
        temp: None,
        pending: fork_calls(c) + setup_calls(c, n),
    }
}

// ---------------------------------------------------------------------------
// What follows from what came of a call
// ---------------------------------------------------------------------------

/// Whether `e` can be what came of `op`.
pub open spec fn fits(op: OpView, e: EventView) -> bool {
    match op {
        OpView::CreatePipe => e is Pipe || e is Failed,
        OpView::FirstFork => e is Parent || e is Child || e is Failed,
        OpView::SecondFork => e is Parent || e is Child || e is Failed,
        OpView::ReadPipe(_) => e is Bytes,
        OpView::Open { .. } => e is Opened || e is Failed,
        OpView::QueryPidfile { .. } => e is Pidfile,
        OpView::QueryOutputs { .. } => e is Outputs,
        OpView::ListFds => e is Fds,
        OpView::QueryFdLimit => e is Limit || e is Failed,
        OpView::CloseEnd(_) => e is Done,
        OpView::SetUmask(_) => e is Done,
        OpView::Release { .. } => e is Done,
        OpView::SetEnv { .. } => e is Done,
        OpView::CloseFds(_) => e is Done,
        OpView::CloseRange { .. } => e is Done,
        _ => e is Done || e is Failed,
    }
}

/// The name of a standard stream.
pub open spec fn stream_name(fd: i32) -> Seq<char> {
    if fd == 0 {
        "stdin"@
    } else if fd == 1 {
        "stdout"@
    } else {
        "stderr"@
    }
}

/// The error that a failed call means.
pub open spec fn call_error(op: OpView, kind: ErrnoKind, text: Seq<char>) -> ErrorView {
    match op {
        OpView::CreatePipe => ErrorView::SystemError(
            "failed to create notification pipe: "@ + text,
        ),
        OpView::FirstFork => ErrorView::ForkFailed(text),
        OpView::SecondFork => ErrorView::ForkFailed(text),
        OpView::Setsid => ErrorView::SetsidFailed(text),
        OpView::Chdir(path) => ErrorView::ChdirFailed(utf8_lossy(path) + ": "@ + text),
        OpView::Open { path, purpose, .. } => match purpose {
            OpenPurpose::DevNull => ErrorView::SystemError("open /dev/null: "@ + text),
            OpenPurpose::Lock => ErrorView::LockfileError(
                "cannot open "@ + utf8_lossy(path) + ": "@ + text,
            ),
            OpenPurpose::Pidfile(_) => ErrorView::PidfileError(
                "open "@ + utf8_lossy(path) + ": "@ + text,
            ),
            OpenPurpose::Output(_) => ErrorView::OutputFileError(
                "cannot open "@ + utf8_lossy(path) + ": "@ + text,
            ),
        },
        OpView::Dup2 { target, reason, .. } => match reason {
            DupReason::DevNull => ErrorView::SystemError(
                "dup2 /dev/null -> "@ + stream_name(target) + ": "@ + text,
            ),
            DupReason::Output => ErrorView::OutputFileError(
                "dup2 fd "@ + decimal(target as int) + ": "@ + text,
            ),
            DupReason::Share => ErrorView::OutputFileError("dup2 stdout -> stderr: "@ + text),
        },
        OpView::Flock { path, .. } => if kind is WouldBlock {
            ErrorView::LockConflict(path)
        } else {
            ErrorView::LockfileError("flock "@ + utf8_lossy(path) + ": "@ + text)
        },
        OpView::SeekStart(_) => ErrorView::PidfileError("seek: "@ + text),
        OpView::Truncate(_) => ErrorView::PidfileError("truncate: "@ + text),
        OpView::Write { file, .. } => ErrorView::PidfileError(
            match file {
                Some(path) => "write "@ + utf8_lossy(path) + ": "@ + text,
                None => "write: "@ + text,
            },
        ),
        OpView::ResetSignal(n) => ErrorView::SystemError(
            "sigaction("@ + decimal(n as int) + "): "@ + text,
        ),
        OpView::ClearSignalMask => ErrorView::SystemError("sigprocmask: "@ + text),
        OpView::QueryFdLimit => ErrorView::SystemError("getrlimit(RLIMIT_NOFILE): "@ + text),
        _ => ErrorView::SystemError(text),
    }
}

/// A failure that is none: there are signals that cannot be reset.
pub open spec fn tolerated(op: OpView, kind: ErrnoKind) -> bool {
    op is ResetSignal && kind is InvalidArgument
}

/// A descriptor or nothing.
pub open spec fn opt_one(fd: Option<i32>) -> Seq<i32> {
    match fd {
        Some(n) => seq![n],
        None => Seq::empty(),
    }
}

/// Goes on to the next call, or returns when there is none.
pub open spec fn next(s: SeqView) -> StepView {
    if s.pending.len() == 0 {
        StepView::Return(new_context(s.config, opt_fd(s.lock), opt_fd(s.pipe)))
    } else {
        StepView::Continue(s)
    }
}

/// Goes on with `calls` before what is pending.
pub open spec fn before_rest(s: SeqView, calls: Seq<OpView>) -> StepView {
    next(SeqView { pending: calls + s.pending, ..s })
}

/// An error before there is another process: it is returned, and the pipe is
/// closed without a word.
pub open spec fn fail_in_caller(s: SeqView, e: ErrorView) -> StepView {
    StepView::Fail { error: e, close: opt_one(s.pipe_read) + opt_one(s.pipe) }
}

/// An error: in the foreground it is returned, and what was opened is closed; in
/// a forked process it is written to the pipe, and the process exits.
pub open spec fn fail(s: SeqView, e: ErrorView) -> StepView {
    if s.config.foreground {
        StepView::Fail { error: e, close: opt_one(s.temp) + opt_one(s.lock) }
    } else {
        StepView::Exit {
            write: pipe_write(opt_fd(s.pipe), error_message(e)),
            message: None,
            code: e.code() as int,
        }
    }
}

/// The standard streams that `/dev/null` stands in for.
pub open spec fn devnull_dup(fd: i32, target: i32) -> Seq<OpView> {
    if fd == target {
        Seq::empty()
    } else {
        seq![OpView::Dup2 { source: fd, target, reason: DupReason::DevNull }]
    }
}

/// What is done with `/dev/null`: it stands in for stdin, and in a daemon for
/// stdout and stderr as well.
pub open spec fn devnull_calls(fd: i32, foreground: bool) -> Seq<OpView> {
    devnull_dup(fd, 0) + (if foreground {
        Seq::empty()
    } else {
        devnull_dup(fd, 1) + devnull_dup(fd, 2)
    }) + seq![OpView::Release { fd, close: fd > 2, purpose: OpenPurpose::DevNull }]
}

/// What is done with an output file.
pub open spec fn opened_output_calls(fd: i32, target: i32) -> Seq<OpView> {
    if fd == target {
        seq![OpView::Release { fd, close: false, purpose: OpenPurpose::Output(target) }]
    } else {
        seq![
            OpView::Dup2 { source: fd, target, reason: DupReason::Output },
            OpView::Release { fd, close: true, purpose: OpenPurpose::Output(target) },
        ]
    }
}

/// What follows when a file has been opened.
pub open spec fn opened(s: SeqView, path: Seq<u8>, purpose: OpenPurpose, fd: i32) -> StepView {
    let t = SeqView { temp: Some(fd), ..s };
    match purpose {
        OpenPurpose::DevNull => before_rest(t, devnull_calls(fd, s.config.foreground)),
        OpenPurpose::Lock => before_rest(t, seq![OpView::Flock { fd, path }]),
        OpenPurpose::Pidfile(pid) => before_rest(
            t,
            seq![
                OpView::Write { fd, bytes: pidfile_content(pid), file: Some(path) },
                OpView::Release { fd, close: true, purpose },
            ],
        ),
        OpenPurpose::Output(target) => before_rest(t, opened_output_calls(fd, target)),
    }
}

/// How the pidfile is written: through the lock where it is the locked file, else
/// by opening it.
pub open spec fn pid_calls(pidfile: Seq<u8>, pid: u32, shared: Option<i32>) -> Seq<OpView> {
    match shared {
        Some(fd) => seq![
            OpView::SeekStart(fd),
            OpView::Truncate(fd),
            OpView::Write { fd, bytes: pidfile_content(pid), file: None },
        ],
        None => seq![
            OpView::Open {
                path: pidfile,
                flags: pidfile_flags(),
                purpose: OpenPurpose::Pidfile(pid),
            },
        ],
    }
}

/// The lock's descriptor, if the pidfile is the locked file.
pub open spec fn shared_lock(
    lock: Option<i32>,
    pidfile: Seq<u8>,
    pidfile_canonical: Option<Seq<u8>>,
    lockfile: Option<Seq<u8>>,
    lockfile_canonical: Option<Seq<u8>>,
) -> Option<i32> {
    match lockfile {
        Some(path) => if same_file(pidfile, pidfile_canonical, path, lockfile_canonical) {
            lock
        } else {
            None
        },
        None => None,
    }
}

/// The descriptors that are not closed: the lock's and the pipe's.
pub open spec fn kept_fds(s: SeqView) -> Seq<i32> {
    opt_one(s.lock) + opt_one(s.pipe)
}

/// The end of a process that waited for the daemon.
pub open spec fn parent_exit(buf: Seq<u8>) -> StepView {
    match outcome(buf) {
        OutcomeView::Success => StepView::Exit { write: None, message: None, code: 0 },
        OutcomeView::Failure { code, message } => StepView::Exit {
            write: None,
            message: Some(message),
            code,
        },
    }
}

/// The exit of a process that has nothing to say.
pub open spec fn silent_exit() -> StepView {
    StepView::Exit { write: None, message: None, code: 0 }
}

/// What follows in the process that forked first: it lets go of the write end and
/// waits for the daemon's message.
pub open spec fn wait_for_daemon(s: SeqView) -> StepView {
    match (s.pipe_read, s.pipe) {
        (Some(read), Some(write)) => StepView::Continue(
            SeqView {
                pipe: None,
                pipe_read: None,
                pending: seq![OpView::CloseEnd(write), OpView::ReadPipe(read)],
                ..s
            },
        ),
        _ => silent_exit(),
    }
}

/// What follows when `e` came of `op`, with `s` pending after it.
pub open spec fn after(s: SeqView, op: OpView, e: EventView) -> StepView {
    match (op, e) {
        (OpView::CreatePipe, EventView::Pipe { read, write }) => next(
            SeqView { pipe_read: Some(read), pipe: Some(write), ..s },
        ),
        (OpView::CreatePipe, EventView::Failed(kind, text)) => fail_in_caller(
            s,
            call_error(op, kind, text),
        ),
        (OpView::FirstFork, EventView::Failed(kind, text)) => fail_in_caller(
            s,
            call_error(op, kind, text),
        ),
        (OpView::FirstFork, EventView::Parent) => wait_for_daemon(s),
        (OpView::FirstFork, EventView::Child) => match s.pipe_read {
            Some(read) => before_rest(
                SeqView { pipe_read: None, ..s },
                seq![OpView::CloseEnd(read)],
            ),
            None => next(s),
        },
        (OpView::SecondFork, EventView::Parent) => silent_exit(),
        (OpView::ReadPipe(_), EventView::Bytes(buf)) => parent_exit(buf),
        (OpView::Open { path, purpose, .. }, EventView::Opened(fd)) => opened(s, path, purpose, fd),
        (OpView::Release { .. }, EventView::Done) => next(SeqView { temp: None, ..s }),
        (OpView::Flock { fd, .. }, EventView::Done) => next(
            SeqView { lock: Some(fd), temp: None, ..s },
        ),
        (
            OpView::QueryPidfile { pidfile, lockfile },
            EventView::Pidfile { pid, pidfile: pidfile_canonical, lockfile: lockfile_canonical },
        ) => before_rest(
            s,
            pid_calls(
                pidfile,
                pid,
                shared_lock(s.lock, pidfile, pidfile_canonical, lockfile, lockfile_canonical),
            ),
        ),
        (
            OpView::QueryOutputs { stdout, stderr },
            EventView::Outputs { stdout: stdout_canonical, stderr: stderr_canonical },
        ) => before_rest(
            s,
            redirect_calls(
                s.config,
                same_output(
                    s.config.stdout,
                    stdout_canonical,
                    s.config.stderr,
                    stderr_canonical,
                ),
            ),
        ),
        (OpView::ListFds, EventView::Fds(Some(names))) => before_rest(
            s,
            seq![OpView::CloseFds(closable(listed_fds(names), kept_fds(s)))],
        ),
        (OpView::ListFds, EventView::Fds(None)) => before_rest(s, seq![OpView::QueryFdLimit]),
        (OpView::QueryFdLimit, EventView::Limit(limit)) => before_rest(
            s,
            seq![
                OpView::CloseRange {
                    max_fd: if limit <= i32::MAX {
                        limit as i32
                    } else {
                        i32::MAX
                    },
                    skip: kept_fds(s),
                },
            ],
        ),
        (_, EventView::Failed(kind, text)) => if tolerated(op, kind) {
            next(s)
        } else {
            fail(s, call_error(op, kind, text))
        },
        _ => next(s),
    }
}

/// The sequence after `e` came of the call that was to be made. What cannot have
/// come of it changes nothing.
pub open spec fn advanced(s: SeqView, e: EventView) -> StepView {
    if s.pending.len() == 0 {
        next(s)
    } else if !fits(s.pending[0], e) {
        StepView::Continue(s)
    } else {
        after(SeqView { pending: s.pending.skip(1), ..s }, s.pending[0], e)
    }
}

// ---------------------------------------------------------------------------
// The executable sequence
// ---------------------------------------------------------------------------

fn fits_event(op: &Op, e: &Event) -> (r: bool)
    ensures
        r == fits(op@, e@),
{
    match op {
        Op::CreatePipe => matches!(e, Event::Pipe { .. } | Event::Failed(_)),
        Op::FirstFork => matches!(e, Event::Parent | Event::Child | Event::Failed(_)),
        Op::SecondFork => matches!(e, Event::Parent | Event::Child | Event::Failed(_)),
        Op::ReadPipe(_) => matches!(e, Event::Bytes(_)),
        Op::Open { .. } => matches!(e, Event::Opened(_) | Event::Failed(_)),
        Op::QueryPidfile { .. } => matches!(e, Event::Pidfile { .. }),
        Op::QueryOutputs { .. } => matches!(e, Event::Outputs { .. }),
        Op::ListFds => matches!(e, Event::Fds(_)),
        Op::QueryFdLimit => matches!(e, Event::Limit(_) | Event::Failed(_)),
        Op::CloseEnd(_) => matches!(e, Event::Done),
        Op::SetUmask(_) => matches!(e, Event::Done),
        Op::Release { .. } => matches!(e, Event::Done),
        Op::SetEnv { .. } => matches!(e, Event::Done),
        Op::CloseFds(_) => matches!(e, Event::Done),
        Op::CloseRange { .. } => matches!(e, Event::Done),
        _ => matches!(e, Event::Done | Event::Failed(_)),
    }
}

fn name_of_stream(fd: i32) -> (r: &'static str)
    ensures
        r@ == stream_name(fd),
{
    if fd == 0 {
        "stdin"
    } else if fd == 1 {
        "stdout"
    } else {
        "stderr"
    }
}

/// The error that a failed call means.
pub fn error_of(op: &Op, failure: &OsFailure) -> (r: DaemonizeError)
    ensures
        r@ == call_error(op@, failure.kind, failure.text@),
{
    let text = failure.text.as_str();
    match op {
        Op::CreatePipe => DaemonizeError::SystemError(
            cat("failed to create notification pipe: ", text),
        ),
        Op::FirstFork => DaemonizeError::ForkFailed(text.to_owned()),
        Op::SecondFork => DaemonizeError::ForkFailed(text.to_owned()),
        Op::Setsid => DaemonizeError::SetsidFailed(text.to_owned()),
        Op::Chdir(path) => DaemonizeError::ChdirFailed(
            cat3(path.display().as_str(), ": ", text),
        ),
        Op::Open { path, purpose, .. } => match purpose {
            OpenPurpose::DevNull => DaemonizeError::SystemError(cat("open /dev/null: ", text)),
            OpenPurpose::Lock => DaemonizeError::LockfileError(
                cat4("cannot open ", path.display().as_str(), ": ", text),
            ),
            OpenPurpose::Pidfile(_) => DaemonizeError::PidfileError(
                cat4("open ", path.display().as_str(), ": ", text),
            ),
            OpenPurpose::Output(_) => DaemonizeError::OutputFileError(
                cat4("cannot open ", path.display().as_str(), ": ", text),
            ),
        },
        Op::Dup2 { target, reason, .. } => match reason {
            DupReason::DevNull => DaemonizeError::SystemError(
                cat4("dup2 /dev/null -> ", name_of_stream(*target), ": ", text),
            ),
            DupReason::Output => DaemonizeError::OutputFileError(
                cat4("dup2 fd ", decimal_of(*target as i64).as_str(), ": ", text),
            ),
            DupReason::Share => DaemonizeError::OutputFileError(
                cat("dup2 stdout -> stderr: ", text),
            ),
        },
        Op::Flock { path, .. } => match failure.kind {
            ErrnoKind::WouldBlock => DaemonizeError::LockConflict { path: path.clone() },
            _ => DaemonizeError::LockfileError(
                cat4("flock ", path.display().as_str(), ": ", text),
            ),
        },
        Op::SeekStart(_) => DaemonizeError::PidfileError(cat("seek: ", text)),
        Op::Truncate(_) => DaemonizeError::PidfileError(cat("truncate: ", text)),
        Op::Write { file, .. } => DaemonizeError::PidfileError(
            match file {
                Some(path) => cat4("write ", path.display().as_str(), ": ", text),
                None => cat("write: ", text),
            },
        ),
        Op::ResetSignal(n) => DaemonizeError::SystemError(
            cat4("sigaction(", decimal_of(*n as i64).as_str(), "): ", text),
        ),
        Op::ClearSignalMask => DaemonizeError::SystemError(cat("sigprocmask: ", text)),
        Op::QueryFdLimit => DaemonizeError::SystemError(cat("getrlimit(RLIMIT_NOFILE): ", text)),
        _ => DaemonizeError::SystemError(text.to_owned()),
    }
}

fn content_of_pidfile(pid: u32) -> (r: Vec<u8>)
    ensures
        r@ == pidfile_content(pid),
{
    let text = cat(numeral_of(pid as u64, 10).as_str(), "\n");
    clone_bytes(text.as_str().as_bytes())
}

fn push_fd(out: &mut Vec<i32>, fd: Option<i32>)
    ensures
        final(out)@ == old(out)@ + opt_one(fd),
{
    let ghost before = out@;
    match fd {
        Some(n) => out.push(n),
        None => {},
    }
    assert(out@ =~= before + opt_one(fd));
}

fn two_fds(a: Option<i32>, b: Option<i32>) -> (r: Vec<i32>)
    ensures
        r@ == opt_one(a) + opt_one(b),
{
    let mut out: Vec<i32> = Vec::new();
    push_fd(&mut out, a);
    push_fd(&mut out, b);
    assert(out@ =~= opt_one(a) + opt_one(b));
    out
}

fn push_stream(out: &mut Vec<Op>, action: StreamAction)
    ensures
        calls(final(out)@) == calls(old(out)@) + stream_calls(action@),
{
    let ghost before = out@;
    match action {
        StreamAction::Leave => {},
        StreamAction::OpenAndRedirect { path, flags, target_fd } => out.push(
            Op::Open { path, flags, purpose: OpenPurpose::Output(target_fd) },
        ),
        StreamAction::DupStdoutToStderr => out.push(
            Op::Dup2 { source: 1, target: 2, reason: DupReason::Share },
        ),
    }
    assert(calls(out@) =~= calls(before) + stream_calls(action@));
}

fn push_redirect(
    out: &mut Vec<Op>,
    config: &DaemonConfig,
    stdout_canonical: &Option<UnixPath>,
    stderr_canonical: &Option<UnixPath>,
)
    ensures
        calls(final(out)@) == calls(old(out)@) + redirect_calls(
            config@,
            same_output(
                config@.stdout,
                opt_bytes(*stdout_canonical),
                config@.stderr,
                opt_bytes(*stderr_canonical),
            ),
        ),
{
    let plan = plan_output_redirect(
        config.stdout.as_ref(),
        stdout_canonical,
        config.stderr.as_ref(),
        stderr_canonical,
        config.append,
    );
    let ghost before = out@;
    let ghost first = stream_calls(plan.stdout@);
    let ghost second = stream_calls(plan.stderr@);
    push_stream(out, plan.stdout);
    push_stream(out, plan.stderr);
    assert(calls(out@) =~= calls(before) + (first + second));
}

fn push_fork(out: &mut Vec<Op>, config: &DaemonConfig)
    ensures
        calls(final(out)@) == calls(old(out)@) + fork_calls(config@),
{
    let ghost before = out@;
    if !config.foreground {
        out.push(Op::CreatePipe);
        out.push(Op::FirstFork);
        out.push(Op::Setsid);
        out.push(Op::SecondFork);
    }
    assert(calls(out@) =~= calls(before) + fork_calls(config@));
}

fn push_place(out: &mut Vec<Op>, config: &DaemonConfig)
    ensures
        calls(final(out)@) == calls(old(out)@) + place_calls(config@),
{
    let ghost before = out@;
    out.push(Op::SetUmask(config.umask));
    out.push(Op::Chdir(config.chdir.clone()));
    out.push(
        Op::Open {
            path: UnixPath::new("/dev/null"),
            flags: OpenFlags {
                read_write: true,
                create: false,
                append: false,
                truncate: false,
                cloexec: false,
            },
            purpose: OpenPurpose::DevNull,
        },
    );
    assert(calls(out@) =~= calls(before) + place_calls(config@));
}

fn push_lock(out: &mut Vec<Op>, config: &DaemonConfig)
    ensures
        calls(final(out)@) == calls(old(out)@) + lock_calls(config@),
{
    let ghost before = out@;
    match config.effective_lockfile() {
        Some(path) => out.push(
            Op::Open {
                path: path.clone(),
                flags: OpenFlags {
                    read_write: false,
                    create: true,
                    append: false,
                    truncate: false,
                    cloexec: true,
                },
                purpose: OpenPurpose::Lock,
            },
        ),
        None => {},
    }
    assert(calls(out@) =~= calls(before) + lock_calls(config@));
}

fn push_pidfile(out: &mut Vec<Op>, config: &DaemonConfig)
    ensures
        calls(final(out)@) == calls(old(out)@) + pidfile_calls(config@),
{
    let ghost before = out@;
    match &config.pidfile {
        Some(pidfile) => {
            let lockfile = match config.effective_lockfile() {
                Some(p) => Some(p.clone()),
                None => None,
            };
            out.push(Op::QueryPidfile { pidfile: pidfile.clone(), lockfile });
        },
        None => {},
    }
    assert(calls(out@) =~= calls(before) + pidfile_calls(config@));
}

fn push_signals(out: &mut Vec<Op>, n: SignalNumbers)
    ensures
        calls(final(out)@) == calls(old(out)@) + signal_calls(n),
{
    let signals = signals_to_reset(n);
    let ghost before = out@;
    let mut i: usize = 0;
    while i < signals.len()
        invariant
            i <= signals@.len(),
            signals@ == n.to_reset(),
            out@.len() == before.len() + i,
            forall|j: int| 0 <= j < before.len() ==> out@[j] == before[j],
            forall|j: int|
                0 <= j < i ==> (#[trigger] out@[before.len() + j])@ == OpView::ResetSignal(
                    n.to_reset()[j],
                ),
        decreases signals@.len() - i,
    {
        out.push(Op::ResetSignal(signals[i]));
        i = i + 1;
    }
    out.push(Op::ClearSignalMask);
    let ghost wanted = calls(before) + signal_calls(n);
    assert forall|k: int| 0 <= k < wanted.len() implies calls(out@)[k] == wanted[k] by {
        if before.len() <= k < before.len() + i {
            let j = k - before.len();
            assert(out@[before.len() + j]@ == OpView::ResetSignal(n.to_reset()[j]));
        }
    }
    assert(calls(out@) =~= wanted);
}

fn push_env(out: &mut Vec<Op>, env: &Vec<(String, String)>)
    ensures
        calls(final(out)@) == calls(old(out)@) + env_calls(env_view(env@)),
{
    let ghost before = out@;
    let mut i: usize = 0;
    while i < env.len()
        invariant
            i <= env@.len(),
            out@.len() == before.len() + i,
            forall|j: int| 0 <= j < before.len() ==> out@[j] == before[j],
            forall|j: int|
                0 <= j < i ==> (#[trigger] out@[before.len() + j])@ == (OpView::SetEnv {
                    key: env@[j].0@,
                    value: env@[j].1@,
                }),
        decreases env@.len() - i,
    {
        out.push(Op::SetEnv { key: env[i].0.clone(), value: env[i].1.clone() });
        i = i + 1;
    }
    let ghost wanted = calls(before) + env_calls(env_view(env@));
    assert forall|k: int| 0 <= k < wanted.len() implies calls(out@)[k] == wanted[k] by {
        if before.len() <= k {
            let j = k - before.len();
            assert(out@[before.len() + j]@ == (OpView::SetEnv {
                key: env@[j].0@,
                value: env@[j].1@,
            }));
        }
    }
    assert(calls(out@) =~= wanted);
}

fn push_output(out: &mut Vec<Op>, config: &DaemonConfig)
    ensures
        calls(final(out)@) == calls(old(out)@) + output_calls(config@),
{
    let ghost before = out@;
    match (&config.stdout, &config.stderr) {
        (Some(stdout), Some(stderr)) => {
            out.push(Op::QueryOutputs { stdout: stdout.clone(), stderr: stderr.clone() });
            assert(calls(out@) =~= calls(before) + output_calls(config@));
        },
        _ => push_redirect(out, config, &None, &None),
    }
}

fn push_close(out: &mut Vec<Op>, config: &DaemonConfig)
    ensures
        calls(final(out)@) == calls(old(out)@) + close_calls(config@),
{
    let ghost before = out@;
    if config.close_fds {
        out.push(Op::ListFds);
    }
    assert(calls(out@) =~= calls(before) + close_calls(config@));
}

/// Starts the sequence for a valid configuration, with the signal numbers of the
/// host.
pub fn daemonize_inner(config: &DaemonConfig, signals: SignalNumbers) -> (r: Daemonization)
    ensures
        r@ == started(config@, signals),
{
    let mut pending: Vec<Op> = Vec::new();
    push_fork(&mut pending, config);
    push_place(&mut pending, config);
    push_lock(&mut pending, config);
    push_pidfile(&mut pending, config);
    push_signals(&mut pending, signals);
    push_env(&mut pending, &config.env);
    push_output(&mut pending, config);
    push_close(&mut pending, config);
    assert(calls(pending@) =~= fork_calls(config@) + setup_calls(config@, signals));
    Daemonization {
        config: config.clone(),
        pipe_read: None,
        pipe: None,
        lock: None,
        temp: None,
        pending,
    }
}

/// Validates the configuration and starts the sequence, with the signal numbers of
/// the host. The process must have one thread.
pub fn daemonize_unchecked(config: &DaemonConfig, host: &HostFacts) -> (r: Result<
    Daemonization,
    DaemonizeError,
>)
    ensures
        match r {
            Ok(d) => {
                &&& problem(config@, host@) is None
                &&& d@ == started(config@, host@.signals)
            },
            Err(e) => problem(config@, host@) == Some(e@),
        },
{
    match config.validate(host) {
        Ok(()) => Ok(daemonize_inner(config, host.signals)),
        Err(e) => Err(e),
    }
}

/// Why the sequence is not even started.
#[derive(Debug)]
pub enum Refusal {
    /// The process is not known to have one thread. The caller is at fault.
    Threads(String),
    /// The configuration is not valid.
    Invalid(DaemonizeError),
}

/// Starts the sequence like [`daemonize_unchecked`], if the number of threads is
/// known to be one.
pub fn daemonize(config: &DaemonConfig, host: &HostFacts, threads: Option<usize>) -> (r: Result<
    Daemonization,
    Refusal,
>)
    ensures
        threads != Some(1usize) ==> (r matches Err(Refusal::Threads(m)) && m@ == (match threads {
            Some(n) => violation_text("daemonize"@, n as nat),
            None => unknown_text("daemonize"@),
        })),
        threads == Some(1usize) ==> match r {
            Ok(d) => {
                &&& problem(config@, host@) is None
                &&& d@ == started(config@, host@.signals)
            },
            Err(refusal) => refusal matches Refusal::Invalid(e) && problem(config@, host@) == Some(
                e@,
            ),
        },
{
    match assert_single_threaded("daemonize", threads) {
        Err(message) => Err(Refusal::Threads(message)),
        Ok(()) => match daemonize_unchecked(config, host) {
            Ok(d) => Ok(d),
            Err(e) => Err(Refusal::Invalid(e)),
        },
    }
}

fn push_devnull(out: &mut Vec<Op>, fd: i32, target: i32)
    ensures
        calls(final(out)@) == calls(old(out)@) + devnull_dup(fd, target),
{
    let ghost before = out@;
    if fd != target {
        out.push(Op::Dup2 { source: fd, target, reason: DupReason::DevNull });
    }
    assert(calls(out@) =~= calls(before) + devnull_dup(fd, target));
}

fn calls_of_devnull(fd: i32, foreground: bool) -> (r: Vec<Op>)
    ensures
        calls(r@) == devnull_calls(fd, foreground),
{
    let mut out: Vec<Op> = Vec::new();
    push_devnull(&mut out, fd, 0);
    if !foreground {
        push_devnull(&mut out, fd, 1);
        push_devnull(&mut out, fd, 2);
    }
    let ghost dups = out@;
    assert(calls(dups) =~= devnull_dup(fd, 0) + (if foreground {
        Seq::empty()
    } else {
        devnull_dup(fd, 1) + devnull_dup(fd, 2)
    }));
    out.push(Op::Release { fd, close: fd > 2, purpose: OpenPurpose::DevNull });
    assert(calls(out@) =~= calls(dups) + seq![
        OpView::Release { fd, close: fd > 2, purpose: OpenPurpose::DevNull },
    ]);
    assert(calls(out@) =~= devnull_calls(fd, foreground));
    out
}

fn calls_of_output(fd: i32, target: i32) -> (r: Vec<Op>)
    ensures
        calls(r@) == opened_output_calls(fd, target),
{
    let mut out: Vec<Op> = Vec::new();
    if fd != target {
        out.push(Op::Dup2 { source: fd, target, reason: DupReason::Output });
    }
    out.push(Op::Release { fd, close: fd != target, purpose: OpenPurpose::Output(target) });
    assert(calls(out@) =~= opened_output_calls(fd, target));
    out
}

fn calls_of_opened_pidfile(fd: i32, pid: u32, path: UnixPath) -> (r: Vec<Op>)
    ensures
        calls(r@) == seq![
            OpView::Write { fd, bytes: pidfile_content(pid), file: Some(path@) },
            OpView::Release { fd, close: true, purpose: OpenPurpose::Pidfile(pid) },
        ],
{
    let mut out: Vec<Op> = Vec::new();
    let ghost name = path@;
    out.push(Op::Write { fd, bytes: content_of_pidfile(pid), file: Some(path) });
    out.push(Op::Release { fd, close: true, purpose: OpenPurpose::Pidfile(pid) });
    assert(calls(out@) =~= seq![
        OpView::Write { fd, bytes: pidfile_content(pid), file: Some(name) },
        OpView::Release { fd, close: true, purpose: OpenPurpose::Pidfile(pid) },
    ]);
    out
}

/// The calls that write the pidfile: through the lock's descriptor if it is given,
/// else by opening the file.
pub fn write_pidfile(pidfile: UnixPath, pid: u32, shared: Option<i32>) -> (r: Vec<Op>)
    ensures
        calls(r@) == pid_calls(pidfile@, pid, shared),
{
    let mut out: Vec<Op> = Vec::new();
    let ghost name = pidfile@;
    match shared {
        Some(fd) => {
            out.push(Op::SeekStart(fd));
            out.push(Op::Truncate(fd));
            out.push(Op::Write { fd, bytes: content_of_pidfile(pid), file: None });
        },
        None => out.push(
            Op::Open {
                path: pidfile,
                flags: OpenFlags {
                    read_write: false,
                    create: true,
                    append: false,
                    truncate: true,
                    cloexec: true,
                },
                purpose: OpenPurpose::Pidfile(pid),
            },
        ),
    }
    assert(calls(out@) =~= pid_calls(name, pid, shared));
    out
}

fn one_call(op: Op) -> (r: Vec<Op>)
    ensures
        calls(r@) == seq![op@],
{
    let mut out: Vec<Op> = Vec::new();
    let ghost view = op@;
    out.push(op);
    assert(calls(out@) =~= seq![view]);
    out
}

/// What a process that waited for the daemon does with what it read.
pub fn parent_pipe_reader(buf: &[u8]) -> (r: Step)
    ensures
        r@ == parent_exit(buf@),
{
    match decode(buf) {
        Outcome::Success => Step::Exit { write: None, message: None, code: 0 },
        Outcome::Failure { code, message } => Step::Exit {
            write: None,
            message: Some(message),
            code,
        },
    }
}

/// The message that tells the parent of an error, if there is a pipe to the
/// parent.
pub fn signal_error_to_parent(pipe: Option<i32>, err: &DaemonizeError) -> (r: Option<PipeWrite>)
    ensures
        opt_write(r) == pipe_write(opt_fd(pipe), error_message(err@)),
{
    match pipe {
        Some(fd) => Some(NotifyPipe::new(fd).signal_error(err)),
        None => None,
    }
}

impl Daemonization {
    /// The call to be made. There is one as long as the sequence goes on.
    pub fn op(&self) -> (r: Option<&Op>)
        ensures
            match r {
                Some(op) => self@.pending.len() > 0 && op@ == self@.pending[0],
                None => self@.pending.len() == 0,
            },
    {
        if self.pending.len() == 0 {
            None
        } else {
            Some(&self.pending[0])
        }
    }

    fn go_on(self) -> (r: Step)
        ensures
            r@ == next(self@),
    {
        if self.pending.len() == 0 {
            let pipe = match self.pipe {
                Some(fd) => Some(NotifyPipe::new(fd)),
                None => None,
            };
            Step::Return(DaemonContext::new(self.config, self.lock, pipe))
        } else {
            Step::Continue(self)
        }
    }

    fn go_on_with(self, first: Vec<Op>) -> (r: Step)
        ensures
            r@ == before_rest(self@, calls(first@)),
    {
        let mut s = self;
        let mut all = first;
        let ghost head = all@;
        let ghost tail = s.pending@;
        all.append(&mut s.pending);
        assert(calls(all@) =~= calls(head) + calls(tail));
        s.pending = all;
        s.go_on()
    }

    fn fail_in_caller(self, error: DaemonizeError) -> (r: Step)
        ensures
            r@ == fail_in_caller(self@, error@),
    {
        Step::Fail { error, close: two_fds(self.pipe_read, self.pipe) }
    }

    fn fail(self, error: DaemonizeError) -> (r: Step)
        ensures
            r@ == fail(self@, error@),
    {
        if self.config.foreground {
            Step::Fail { error, close: two_fds(self.temp, self.lock) }
        } else {
            let write = signal_error_to_parent(self.pipe, &error);
            Step::Exit { write, message: None, code: error.exit_code() as i32 }
        }
    }

    fn opened(self, path: UnixPath, purpose: OpenPurpose, fd: i32) -> (r: Step)
        ensures
            r@ == opened(self@, path@, purpose, fd),
    {
        let mut s = self;
        s.temp = Some(fd);
        match purpose {
            OpenPurpose::DevNull => {
                let foreground = s.config.foreground;
                s.go_on_with(calls_of_devnull(fd, foreground))
            },
            OpenPurpose::Lock => s.go_on_with(one_call(Op::Flock { fd, path })),
            OpenPurpose::Pidfile(pid) => s.go_on_with(calls_of_opened_pidfile(fd, pid, path)),
            OpenPurpose::Output(target) => s.go_on_with(calls_of_output(fd, target)),
        }
    }

    fn wait_for_daemon(self) -> (r: Step)
        ensures
            r@ == wait_for_daemon(self@),
    {
        match (self.pipe_read, self.pipe) {
            (Some(read), Some(write)) => {
                let mut s = self;
                s.pipe = None;
                s.pipe_read = None;
                let mut pending: Vec<Op> = Vec::new();
                pending.push(Op::CloseEnd(write));
                pending.push(Op::ReadPipe(read));
                assert(calls(pending@) =~= seq![OpView::CloseEnd(write), OpView::ReadPipe(read)]);
                s.pending = pending;
                Step::Continue(s)
            },
            _ => Step::Exit { write: None, message: None, code: 0 },
        }
    }

    fn failed(self, op: Op, failure: OsFailure) -> (r: Step)
        requires
            fits(op@, EventView::Failed(failure.kind, failure.text@)),
        ensures
            r@ == after(self@, op@, EventView::Failed(failure.kind, failure.text@)),
    {
        let error = error_of(&op, &failure);
        match op {
            Op::CreatePipe => self.fail_in_caller(error),
            Op::FirstFork => self.fail_in_caller(error),
            Op::ResetSignal(_) => match failure.kind {
                ErrnoKind::InvalidArgument => self.go_on(),
                _ => self.fail(error),
            },
            _ => self.fail(error),
        }
    }

    fn after_call(self, op: Op, event: Event) -> (r: Step)
        requires
            fits(op@, event@),
        ensures
            r@ == after(self@, op@, event@),
    {
        let mut s = self;
        match (op, event) {
            (op, Event::Failed(failure)) => s.failed(op, failure),
            (Op::CreatePipe, Event::Pipe { read, write }) => {
                s.pipe_read = Some(read);
                s.pipe = Some(write);
                s.go_on()
            },
            (Op::FirstFork, Event::Parent) => s.wait_for_daemon(),
            (Op::FirstFork, Event::Child) => match s.pipe_read {
                Some(read) => {
                    s.pipe_read = None;
                    s.go_on_with(one_call(Op::CloseEnd(read)))
                },
                None => s.go_on(),
            },
            (Op::SecondFork, Event::Parent) => Step::Exit { write: None, message: None, code: 0 },
            (Op::ReadPipe(_), Event::Bytes(buf)) => parent_pipe_reader(buf.as_slice()),
            (Op::Open { path, purpose, .. }, Event::Opened(fd)) => s.opened(path, purpose, fd),
            (Op::Release { .. }, Event::Done) => {
                s.temp = None;
                s.go_on()
            },
            (Op::Flock { fd, .. }, Event::Done) => {
                s.lock = Some(fd);
                s.temp = None;
                s.go_on()
            },
            (
                Op::QueryPidfile { pidfile, lockfile },
                Event::Pidfile { pid, pidfile: pidfile_canonical, lockfile: lockfile_canonical },
            ) => {
                let shared = match &lockfile {
                    Some(path) => if paths_same(
                        &pidfile,
                        &pidfile_canonical,
                        path,
                        &lockfile_canonical,
                    ) {
                        s.lock
                    } else {
                        None
                    },
                    None => None,
                };
                s.go_on_with(write_pidfile(pidfile, pid, shared))
            },
            (
                Op::QueryOutputs { .. },
                Event::Outputs { stdout: stdout_canonical, stderr: stderr_canonical },
            ) => {
                let mut first: Vec<Op> = Vec::new();
                push_redirect(&mut first, &s.config, &stdout_canonical, &stderr_canonical);
                assert(calls(first@) =~= redirect_calls(
                    s.config@,
                    same_output(
                        s.config@.stdout,
                        opt_bytes(stdout_canonical),
                        s.config@.stderr,
                        opt_bytes(stderr_canonical),
                    ),
                ));
                s.go_on_with(first)
            },
            (Op::ListFds, Event::Fds(Some(names))) => {
                let skip = two_fds(s.lock, s.pipe);
                let fds = list_open_fds(&names);
                let close = close_inherited_fds(&fds, skip.as_slice());
                s.go_on_with(one_call(Op::CloseFds(close)))
            },
            (Op::ListFds, Event::Fds(None)) => s.go_on_with(one_call(Op::QueryFdLimit)),
            (Op::QueryFdLimit, Event::Limit(limit)) => {
                let skip = two_fds(s.lock, s.pipe);
                s.go_on_with(one_call(Op::CloseRange { max_fd: clamp_max_fd(limit), skip }))
            },
            _ => s.go_on(),
        }
    }

    /// Takes what came of the call that was to be made. What cannot have come of
    /// it changes nothing.
    pub fn advance(self, event: Event) -> (r: Step)
        ensures
            r@ == advanced(self@, event@),
    {
        let mut s = self;
        if s.pending.len() == 0 {
            return s.go_on();
        }
        if !fits_event(&s.pending[0], &event) {
            return Step::Continue(s);
        }
        let ghost before = s.pending@;
        let op = s.pending.remove(0);
        assert(calls(s.pending@) =~= calls(before).skip(1));
        s.after_call(op, event)
    }
}

} // verus!
