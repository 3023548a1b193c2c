//! Where the daemonization sequence leads: to a daemon when every call succeeds, and
//! to the right error when one fails.

use vstd::prelude::*;
use vstd::utf8::*;
use crate::calls::{DupReason, EventView, OpView, OpenPurpose};
use crate::config::ConfigView;
use crate::errno::ErrnoKind;
use crate::error::ErrorView;
use crate::notify::PipeWriteView;
use crate::output::{redirect_to, same_output, stderr_action};
use crate::path::utf8_lossy;
use crate::sequence::{
    advanced, call_error, devnull_dup, fits, opt_one, redirect_calls, started, stream_calls, SeqView,
    StepView,
};
use crate::sequence_laws::{followers, lemma_followers, run};
use crate::signals::SignalNumbers;
use crate::text::decimal;

verus! {

// ---------------------------------------------------------------------------
// Success
// ---------------------------------------------------------------------------

/// Whether `e` says that `op` came off, in the process that goes on to be the
/// daemon.
pub open spec fn came_off(op: OpView, e: EventView) -> bool {
    match op {
        OpView::CreatePipe => e is Pipe,
        OpView::FirstFork => e is Child,
        OpView::SecondFork => e is Child,
        OpView::ReadPipe(_) => false,
        OpView::Open { .. } => e is Opened,
        OpView::QueryPidfile { .. } => e is Pidfile,
        OpView::QueryOutputs { .. } => e is Outputs,
        OpView::ListFds => e is Fds,
        OpView::QueryFdLimit => e is Limit,
        _ => e is Done,
    }
}

/// Whether `events` say that every call came off.
pub open spec fn all_came_off(s: SeqView, events: Seq<EventView>) -> bool
    decreases events.len(),
{
    if events.len() == 0 || s.pending.len() == 0 {
        true
    } else {
        &&& came_off(s.pending[0], events[0])
        &&& match advanced(s, events[0]) {
            StepView::Continue(t) => all_came_off(t, events.skip(1)),
            _ => true,
        }
    }
}

/// The most calls that come of one, itself among them.
pub open spec fn effort(op: OpView) -> nat {
    match op {
        OpView::FirstFork => 2,
        OpView::Open { purpose, .. } => match purpose {
            OpenPurpose::DevNull => 5,
            OpenPurpose::Lock => 2,
            OpenPurpose::Pidfile(_) => 3,
            OpenPurpose::Output(_) => 3,
        },
        OpView::QueryPidfile { .. } => 4,
        OpView::QueryOutputs { .. } => 7,
        OpView::ListFds => 3,
        OpView::QueryFdLimit => 2,
        _ => 1,
    }
}

/// The most calls that come of several.
pub open spec fn efforts(ops: Seq<OpView>) -> nat
    decreases ops.len(),
{
    if ops.len() == 0 {
        0
    } else {
        effort(ops[0]) + efforts(ops.skip(1))
    }
}

proof fn lemma_efforts_concat(a: Seq<OpView>, b: Seq<OpView>)
    ensures
        efforts(a + b) == efforts(a) + efforts(b),
    decreases a.len(),
{
    if a.len() == 0 {
        assert(a + b =~= b);
    } else {
        assert((a + b).skip(1) =~= a.skip(1) + b);
        lemma_efforts_concat(a.skip(1), b);
    }
}

proof fn lemma_efforts_one(op: OpView)
    ensures
        efforts(seq![op]) == effort(op),
{
    assert(seq![op].skip(1).len() == 0);
    assert(efforts(seq![op].skip(1)) == 0);
}

proof fn lemma_efforts_redirect(c: ConfigView, same: bool)
    ensures
        efforts(redirect_calls(c, same)) <= 6,
{
    let a = stream_calls(redirect_to(c.stdout, c.append, 1));
    let b = stream_calls(stderr_action(same, c.stderr, c.append));
    lemma_efforts_concat(a, b);
    if a.len() > 0 {
        assert(a =~= seq![a[0]]);
        lemma_efforts_one(a[0]);
    }
    if b.len() > 0 {
        assert(b =~= seq![b[0]]);
        lemma_efforts_one(b[0]);
    }
}

proof fn lemma_efforts_devnull(fd: i32, target: i32)
    ensures
        efforts(devnull_dup(fd, target)) <= 1,
{
    if fd != target {
        lemma_efforts_one(devnull_dup(fd, target)[0]);
    }
}

#[verifier::rlimit(40)]
proof fn lemma_efforts_followers(s: SeqView, op: OpView, e: EventView)
    requires
        came_off(op, e),
    ensures
        efforts(followers(s, op, e)) < effort(op),
{
    let first = followers(s, op, e);
    match (op, e) {
        (OpView::Open { purpose, .. }, EventView::Opened(fd)) => {
            match purpose {
                OpenPurpose::DevNull => {
                    let last = OpView::Release { fd, close: fd > 2, purpose };
                    let a = devnull_dup(fd, 0);
                    let b = if s.config.foreground {
                        Seq::empty()
                    } else {
                        devnull_dup(fd, 1) + devnull_dup(fd, 2)
                    };
                    lemma_efforts_devnull(fd, 0);
                    lemma_efforts_devnull(fd, 1);
                    lemma_efforts_devnull(fd, 2);
                    lemma_efforts_concat(devnull_dup(fd, 1), devnull_dup(fd, 2));
                    lemma_efforts_one(last);
                    lemma_efforts_concat(a, b);
                    lemma_efforts_concat(a + b, seq![last]);
                },
                OpenPurpose::Lock => lemma_efforts_one(first[0]),
                _ => {
                    if first.len() == 1 {
                        assert(first =~= seq![first[0]]);
                        lemma_efforts_one(first[0]);
                    } else {
                        assert(first =~= seq![first[0]] + seq![first[1]]);
                        lemma_efforts_one(first[0]);
                        lemma_efforts_one(first[1]);
                        lemma_efforts_concat(seq![first[0]], seq![first[1]]);
                    }
                },
            }
        },
        (OpView::QueryPidfile { .. }, EventView::Pidfile { .. }) => {
            lemma_efforts_one(first[0]);
            if first.len() == 3 {
                lemma_efforts_one(first[1]);
                lemma_efforts_one(first[2]);
                assert(first =~= seq![first[0]] + seq![first[1]] + seq![first[2]]);
                lemma_efforts_concat(seq![first[0]], seq![first[1]]);
                lemma_efforts_concat(seq![first[0]] + seq![first[1]], seq![first[2]]);
            } else {
                assert(first =~= seq![first[0]]);
            }
        },
        (OpView::QueryOutputs { .. }, EventView::Outputs { stdout, stderr }) => {
            lemma_efforts_redirect(
                s.config,
                same_output(s.config.stdout, stdout, s.config.stderr, stderr),
            );
        },
        _ => {
            if first.len() > 0 {
                assert(first =~= seq![first[0]]);
                lemma_efforts_one(first[0]);
            }
        },
    }
}

proof fn lemma_success(s: SeqView, events: Seq<EventView>)
    requires
        s.pending.len() > 0,
        all_came_off(s, events),
        events.len() >= efforts(s.pending),
    ensures
        run(s, events) is Return,
    decreases events.len(),
{
    let op = s.pending[0];
    let at = SeqView { pending: s.pending.skip(1), ..s };
    assert(efforts(s.pending) == effort(op) + efforts(at.pending));
    let e = events[0];
    let first = followers(at, op, e);
    lemma_followers(at, op, e);
    lemma_efforts_followers(at, op, e);
    lemma_efforts_concat(first, at.pending);
    match advanced(s, e) {
        StepView::Continue(t) => {
            lemma_success(t, events.skip(1));
        },
        _ => {},
    }
}

/// A process whose calls all come off becomes a daemon, after as many calls as its
/// configuration asks for.
pub proof fn success_makes_a_daemon(c: ConfigView, n: SignalNumbers, events: Seq<EventView>)
    requires
        all_came_off(started(c, n), events),
        events.len() >= efforts(started(c, n).pending),
    ensures
        run(started(c, n), events) is Return,
{
    let p = started(c, n).pending;
    assert(p.len() > 0);
    lemma_success(started(c, n), events);
}

// ---------------------------------------------------------------------------
// Failure
// ---------------------------------------------------------------------------

/// Whether a call can fail.
pub open spec fn can_fail(op: OpView) -> bool {
    match op {
        OpView::CloseEnd(_) => false,
        OpView::ReadPipe(_) => false,
        OpView::SetUmask(_) => false,
        OpView::Release { .. } => false,
        OpView::QueryPidfile { .. } => false,
        OpView::SetEnv { .. } => false,
        OpView::QueryOutputs { .. } => false,
        OpView::ListFds => false,
        OpView::CloseFds(_) => false,
        OpView::CloseRange { .. } => false,
        _ => true,
    }
}

/// What is said of a failure, which ends in the words of the system; or nothing
/// where it is no failure, because the system has no such signal to reset.
pub open spec fn complaint(op: OpView, kind: ErrnoKind, text: Seq<char>) -> Option<ErrorView> {
    match op {
        OpView::ResetSignal(signal) => if kind is InvalidArgument {
            None
        } else {
            Some(ErrorView::SystemError("sigaction("@ + decimal(signal as int) + "): "@ + text))
        },
        OpView::Flock { path, .. } => if kind is WouldBlock {
            Some(ErrorView::LockConflict(path))
        } else {
            Some(ErrorView::LockfileError("flock "@ + utf8_lossy(path) + ": "@ + text))
        },
        OpView::CreatePipe => Some(
            ErrorView::SystemError("failed to create notification pipe: "@ + text),
        ),
        OpView::FirstFork => Some(ErrorView::ForkFailed(text)),
        OpView::SecondFork => Some(ErrorView::ForkFailed(text)),
        OpView::Setsid => Some(ErrorView::SetsidFailed(text)),
        OpView::Chdir(path) => Some(ErrorView::ChdirFailed(utf8_lossy(path) + ": "@ + text)),
        OpView::Open { path, purpose, .. } => Some(
            match purpose {
                OpenPurpose::DevNull => ErrorView::SystemError("open /dev/null: "@ + text),
                OpenPurpose::Lock => ErrorView::LockfileError(
                    "cannot open "@ + utf8_lossy(path) + ": "@ + text,
                ),
                OpenPurpose::Pidfile(_) => ErrorView::PidfileError(
                    "open "@ + utf8_lossy(path) + ": "@ + text,
                ),
                OpenPurpose::Output(_) => ErrorView::OutputFileError(
                    "cannot open "@ + utf8_lossy(path) + ": "@ + text,
                ),
            },
        ),
        OpView::Dup2 { target, reason, .. } => Some(
            match reason {
                DupReason::DevNull => ErrorView::SystemError(
                    "dup2 /dev/null -> "@ + (if target == 0 {
                        "stdin"@
                    } else if target == 1 {
                        "stdout"@
                    } else {
                        "stderr"@
                    }) + ": "@ + text,
                ),
                DupReason::Output => ErrorView::OutputFileError(
                    "dup2 fd "@ + decimal(target as int) + ": "@ + text,
                ),
                DupReason::Share => ErrorView::OutputFileError("dup2 stdout -> stderr: "@ + text),
            },
        ),
        OpView::SeekStart(_) => Some(ErrorView::PidfileError("seek: "@ + text)),
        OpView::Truncate(_) => Some(ErrorView::PidfileError("truncate: "@ + text)),
        OpView::Write { file, .. } => Some(
            ErrorView::PidfileError(
                match file {
                    Some(path) => "write "@ + utf8_lossy(path) + ": "@ + text,
                    None => "write: "@ + text,
                },
            ),
        ),
        OpView::ClearSignalMask => Some(ErrorView::SystemError("sigprocmask: "@ + text)),
        OpView::QueryFdLimit => Some(
            ErrorView::SystemError("getrlimit(RLIMIT_NOFILE): "@ + text),
        ),
        _ => Some(ErrorView::SystemError(text)),
    }
}

/// A call that fails ends the sequence with an error that says what was tried and
/// why it failed. Before there is another process, or in the foreground, the error
/// is returned, and what was opened is closed. In a forked process the error goes to
/// the pipe, as its exit code and its text, and the process ends with that code.
/// Only a signal that the system does not have is passed over when it is reset.
pub proof fn a_failed_call_is_an_error(s: SeqView, kind: ErrnoKind, text: Seq<char>)
    requires
        s.pending.len() > 0,
        can_fail(s.pending[0]),
    ensures
        match complaint(s.pending[0], kind, text) {
            None => advanced(s, EventView::Failed(kind, text)) == advanced(s, EventView::Done),
            Some(error) => {
                let end = advanced(s, EventView::Failed(kind, text));
                if s.pending[0] is CreatePipe || s.pending[0] is FirstFork {
                    end == (StepView::Fail { error, close: opt_one(s.pipe_read) + opt_one(s.pipe) })
                } else if s.config.foreground {
                    end == (StepView::Fail { error, close: opt_one(s.temp) + opt_one(s.lock) })
                } else {
                    end == (StepView::Exit {
                        write: match s.pipe {
                            Some(fd) => Some(
                                PipeWriteView {
                                    fd: fd as int,
                                    bytes: seq![error.code()] + encode_utf8(error.message()),
                                },
                            ),
                            None => None,
                        },
                        message: None,
                        code: error.code() as int,
                    })
                }
            },
        },
{
}

/// The error of a failed call says what was tried and ends in the words of the system,
/// whatever call it is.
pub proof fn how_a_failed_call_is_worded(op: OpView, kind: ErrnoKind, text: Seq<char>)
    ensures
        call_error(op, kind, text) == (match complaint(op, kind, text) {
            Some(error) => error,
            None => ErrorView::SystemError(
                "sigaction("@ + decimal(op->ResetSignal_0 as int) + "): "@ + text,
            ),
        }),
{
}

/// What comes of a call is taken: that it came off, wherever it can come off; that
/// it failed, exactly where it can fail; and a fork in both processes. Anything else
/// changes nothing.
pub proof fn what_comes_of_a_call_is_taken(op: OpView, e: EventView, s: SeqView)
    requires
        s.pending.len() > 0,
    ensures
        came_off(op, e) ==> fits(op, e),
        e is Failed ==> (fits(op, e) <==> can_fail(op)),
        e is Parent ==> (fits(op, e) <==> op is FirstFork || op is SecondFork),
        op is ReadPipe ==> (fits(op, e) <==> e is Bytes),
        fits(op, e) ==> came_off(op, e) || e is Failed || e is Parent || e is Bytes,
        !fits(s.pending[0], e) ==> advanced(s, e) == StepView::Continue(s),
        forall|fd: i32| opt_one(Some(fd)) == seq![fd],
        opt_one(None) == Seq::<i32>::empty(),
{
}

/// Whether a call is made on a descriptor.
pub open spec fn is_made_on(op: OpView, fd: i32) -> bool {
    match op {
        OpView::Dup2 { source, .. } => source == fd,
        OpView::Write { fd: n, .. } => n == fd,
        OpView::Release { fd: n, .. } => n == fd,
        OpView::Flock { fd: n, .. } => n == fd,
        _ => false,
    }
}

/// Whether the calls start with those on a descriptor, up to the one that is done with it.
spec fn is_in_use(ops: Seq<OpView>, fd: i32) -> bool
    decreases ops.len(),
{
    &&& ops.len() > 0
    &&& is_made_on(ops[0], fd)
    &&& ops[0] is Release || ops[0] is Flock || is_in_use(ops.skip(1), fd)
}

proof fn lemma_in_use_concat(a: Seq<OpView>, b: Seq<OpView>, fd: i32)
    requires
        is_in_use(a, fd),
    ensures
        is_in_use(a + b, fd),
    decreases a.len(),
{
    assert((a + b)[0] == a[0]);
    assert((a + b).skip(1) =~= a.skip(1) + b);
    if !(a[0] is Release || a[0] is Flock) {
        lemma_in_use_concat(a.skip(1), b, fd);
    }
}

proof fn lemma_in_use_before(op: OpView, rest: Seq<OpView>, fd: i32)
    requires
        is_made_on(op, fd),
        is_in_use(rest, fd),
    ensures
        is_in_use(seq![op] + rest, fd),
{
    assert((seq![op] + rest).skip(1) =~= rest);
}

#[verifier::rlimit(40)]
proof fn lemma_opened_in_use(s: SeqView, op: OpView, fd: i32)
    requires
        op is Open,
    ensures
        is_in_use(followers(s, op, EventView::Opened(fd)), fd),
{
    let first = followers(s, op, EventView::Opened(fd));
    let last = seq![first[first.len() - 1]];
    assert(is_in_use(last, fd));
    match op->Open_purpose {
        OpenPurpose::DevNull => {
            let d0 = devnull_dup(fd, 0);
            let d1 = devnull_dup(fd, 1);
            let d2 = devnull_dup(fd, 2);
            let c = if s.config.foreground || fd == 2 {
                last
            } else {
                d2 + last
            };
            if !s.config.foreground && fd != 2 {
                lemma_in_use_before(d2[0], last, fd);
                assert(d2 =~= seq![d2[0]]);
            }
            let b = if s.config.foreground || fd == 1 {
                c
            } else {
                d1 + c
            };
            if !s.config.foreground && fd != 1 {
                lemma_in_use_before(d1[0], c, fd);
                assert(d1 =~= seq![d1[0]]);
            }
            if fd != 0 {
                lemma_in_use_before(d0[0], b, fd);
                assert(d0 =~= seq![d0[0]]);
                assert(first =~= d0 + b);
            } else {
                assert(first =~= b);
            }
        },
        _ => {
            if first.len() == 2 {
                lemma_in_use_before(first[0], last, fd);
                assert(first =~= seq![first[0]] + last);
            } else {
                assert(first =~= last);
            }
        },
    }
}

#[verifier::rlimit(40)]
proof fn lemma_in_use(s: SeqView, events: Seq<EventView>)
    requires
        s.temp matches Some(fd) ==> is_in_use(s.pending, fd),
    ensures
        run(s, events) matches StepView::Continue(t) ==> (t.temp matches Some(fd) ==> is_in_use(
            t.pending,
            fd,
        )),
    decreases events.len(),
{
    if events.len() > 0 {
        let e = events[0];
        if s.pending.len() > 0 && fits(s.pending[0], e) {
            let op = s.pending[0];
            let at = SeqView { pending: s.pending.skip(1), ..s };
            let first = followers(at, op, e);
            lemma_followers(at, op, e);
            if let (OpView::Open { .. }, EventView::Opened(fd)) = (op, e) {
                lemma_opened_in_use(at, op, fd);
                lemma_in_use_concat(first, at.pending, fd);
            }
            assert(Seq::<OpView>::empty() + at.pending =~= at.pending);
        }
        match advanced(s, e) {
            StepView::Continue(t) => lemma_in_use(t, events.skip(1)),
            _ => {},
        }
    }
}

/// A file counts as open for a short while, and is closed when a call fails, only as long
/// as the next call is made on it.
pub proof fn what_is_open_for_a_while_is_used_next(
    c: ConfigView,
    n: SignalNumbers,
    events: Seq<EventView>,
)
    ensures
        run(started(c, n), events) matches StepView::Continue(s) ==> (s.temp matches Some(fd)
            ==> s.pending.len() > 0 && is_made_on(s.pending[0], fd)),
{
    lemma_in_use(started(c, n), events);
}

// ---------------------------------------------------------------------------
// The processes that do not become the daemon
// ---------------------------------------------------------------------------

/// The process that was called lets go of the write end of the pipe, reads what the
/// daemon has to say, and ends: in silence and with success where the daemon says
/// that it is ready or has nothing to say, and else with the code and the text that
/// the daemon sent.
pub proof fn the_caller_waits_for_the_daemon(s: SeqView, read: i32, write: i32, buf: Seq<u8>)
    requires
        s.pending.len() > 0,
        s.pending[0] is FirstFork,
        s.pipe_read == Some(read),
        s.pipe == Some(write),
    ensures
        ({
            let waiting = advanced(s, EventView::Parent)->Continue_0;
            let reading = advanced(waiting, EventView::Done)->Continue_0;
            &&& advanced(s, EventView::Parent) is Continue
            &&& waiting.pending == seq![OpView::CloseEnd(write), OpView::ReadPipe(read)]
            &&& advanced(waiting, EventView::Done) is Continue
            &&& reading.pending == seq![OpView::ReadPipe(read)]
            &&& advanced(reading, EventView::Bytes(buf)) == (if buf.len() == 0 || buf[0] == 0 {
                StepView::Exit { write: None, message: None, code: 0 }
            } else {
                StepView::Exit {
                    write: None,
                    message: Some(utf8_lossy(buf.skip(1))),
                    code: buf[0] as int,
                }
            })
        }),
{
    let waiting = advanced(s, EventView::Parent)->Continue_0;
    assert(waiting.pending.skip(1) =~= seq![OpView::ReadPipe(read)]);
}

/// The process that leads the session ends as soon as it has forked off the daemon,
/// without a word.
pub proof fn the_session_leader_ends_in_silence(s: SeqView)
    requires
        s.pending.len() > 0,
        s.pending[0] is SecondFork,
    ensures
        advanced(s, EventView::Parent) == (StepView::Exit { write: None, message: None, code: 0 }),
{
}

} // verus!
