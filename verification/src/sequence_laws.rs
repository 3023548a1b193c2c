//! What holds of the daemonization sequence whatever comes of the calls.

use vstd::prelude::*;
use vstd::utf8::*;
use crate::calls::{DupReason, EventView, OpView, OpenPurpose};
use crate::config::{ConfigView, LockfileView};
use crate::context::pipe_write;
use crate::errno::ErrnoKind;
use crate::error::ErrorView;
use crate::fds::{closable, listed_fds, range, without};
use crate::notify::{error_message, error_round_trip};
use crate::output::{redirect_to, stderr_action, OpenFlags};
use crate::sequence::{
    advanced, after, call_error, close_calls, devnull_calls, devnull_dup, env_calls, fits,
    fork_calls, kept_fds, lock_calls, opened_output_calls, opt_one, output_calls, pid_calls,
    pidfile_calls, pidfile_content, place_calls, redirect_calls, setup_calls, shared_lock,
    signal_calls, silent_exit, started, stream_calls, tolerated, SeqView, StepView,
};
use crate::signals::SignalNumbers;
use crate::text::{numeral, numeral_reads_back, read_unsigned, NumberError};

verus! {

/// What the sequence comes to when `events` come of the calls, one after the
/// other.
pub open spec fn run(s: SeqView, events: Seq<EventView>) -> StepView
    decreases events.len(),
{
    if events.len() == 0 {
        StepView::Continue(s)
    } else {
        match advanced(s, events[0]) {
            StepView::Continue(t) => run(t, events.skip(1)),
            end => end,
        }
    }
}

/// The calls that are made when `events` come of them.
pub open spec fn performed(s: SeqView, events: Seq<EventView>) -> Seq<OpView>
    decreases events.len(),
{
    if events.len() == 0 || s.pending.len() == 0 {
        Seq::empty()
    } else if !fits(s.pending[0], events[0]) {
        performed(s, events.skip(1))
    } else {
        seq![s.pending[0]] + (match advanced(s, events[0]) {
            StepView::Continue(t) => performed(t, events.skip(1)),
            _ => Seq::empty(),
        })
    }
}

// ---------------------------------------------------------------------------
// Order
// ---------------------------------------------------------------------------

/// The place of a call in the sequence.
pub open spec fn rank(op: OpView) -> int {
    match op {
        OpView::CreatePipe => 1,
        OpView::FirstFork => 1,
        OpView::CloseEnd(_) => 1,
        OpView::ReadPipe(_) => 1,
        OpView::Setsid => 2,
        OpView::SecondFork => 3,
        OpView::SetUmask(_) => 4,
        OpView::Chdir(_) => 5,
        OpView::Open { purpose, .. } => purpose_rank(purpose),
        OpView::Release { purpose, .. } => purpose_rank(purpose),
        OpView::Dup2 { reason, .. } => match reason {
            DupReason::DevNull => 6,
            _ => 12,
        },
        OpView::Flock { .. } => 7,
        OpView::QueryPidfile { .. } => 8,
        OpView::SeekStart(_) => 8,
        OpView::Truncate(_) => 8,
        OpView::Write { .. } => 8,
        OpView::ResetSignal(_) => 9,
        OpView::ClearSignalMask => 10,
        OpView::SetEnv { .. } => 11,
        OpView::QueryOutputs { .. } => 12,
        OpView::ListFds => 13,
        OpView::QueryFdLimit => 13,
        OpView::CloseFds(_) => 13,
        OpView::CloseRange { .. } => 13,
    }
}

/// The place of what is done with an opened file.
pub open spec fn purpose_rank(p: OpenPurpose) -> int {
    match p {
        OpenPurpose::DevNull => 6,
        OpenPurpose::Lock => 7,
        OpenPurpose::Pidfile(_) => 8,
        OpenPurpose::Output(_) => 12,
    }
}

/// Whether the calls are in the order of the sequence.
pub open spec fn in_order(ops: Seq<OpView>) -> bool {
    forall|i: int, j: int| 0 <= i < j < ops.len() ==> rank(#[trigger] ops[i]) <= rank(#[trigger] ops[j])
}

/// Whether all calls have their place between two.
pub open spec fn placed(ops: Seq<OpView>, lo: int, hi: int) -> bool {
    forall|i: int| 0 <= i < ops.len() ==> lo <= rank(#[trigger] ops[i]) <= hi
}

proof fn lemma_order_concat(a: Seq<OpView>, b: Seq<OpView>, lo: int, mid: int, hi: int)
    requires
        in_order(a),
        in_order(b),
        placed(a, lo, mid),
        placed(b, mid, hi),
        lo <= mid <= hi,
    ensures
        in_order(a + b),
        placed(a + b, lo, hi),
{
    let c = a + b;
    assert forall|i: int| 0 <= i < c.len() implies lo <= rank(#[trigger] c[i]) <= hi by {
        if i < a.len() {
            assert(c[i] == a[i]);
        } else {
            assert(c[i] == b[i - a.len()]);
        }
    }
    assert forall|i: int, j: int| 0 <= i < j < c.len() implies rank(#[trigger] c[i]) <= rank(
        #[trigger] c[j],
    ) by {
        if j < a.len() {
            assert(c[i] == a[i] && c[j] == a[j]);
        } else if i < a.len() {
            assert(c[i] == a[i] && c[j] == b[j - a.len()]);
        } else {
            assert(c[i] == b[i - a.len()] && c[j] == b[j - a.len()]);
        }
    }
}

proof fn lemma_start_order(c: ConfigView, n: SignalNumbers)
    ensures
        in_order(started(c, n).pending),
{
    let fork = fork_calls(c);
    let place = place_calls(c);
    let lock = lock_calls(c);
    let pid = pidfile_calls(c);
    let signals = signal_calls(n);
    let env = env_calls(c.env);
    let output = output_calls(c);
    let close = close_calls(c);
    assert(placed(fork, 1, 4) && in_order(fork));
    assert(placed(place, 4, 7) && in_order(place));
    assert(placed(lock, 7, 8) && in_order(lock));
    assert(placed(pid, 8, 9) && in_order(pid));
    assert(placed(signals, 9, 11) && in_order(signals));
    assert(placed(env, 11, 12) && in_order(env));
    assert(placed(output, 12, 13) && in_order(output)) by {
        lemma_redirect_placed(c, false);
    }
    assert(placed(close, 13, 13) && in_order(close));
    lemma_order_concat(place, lock, 4, 7, 8);
    lemma_order_concat(place + lock, pid, 4, 8, 9);
    lemma_order_concat(place + lock + pid, signals, 4, 9, 11);
    lemma_order_concat(place + lock + pid + signals, env, 4, 11, 12);
    lemma_order_concat(place + lock + pid + signals + env, output, 4, 12, 13);
    lemma_order_concat(place + lock + pid + signals + env + output, close, 4, 13, 13);
    lemma_order_concat(fork, setup_calls(c, n), 1, 4, 13);
}

proof fn lemma_redirect_placed(c: ConfigView, same: bool)
    ensures
        placed(redirect_calls(c, same), 12, 12),
        in_order(redirect_calls(c, same)),
{
    let a = stream_calls(redirect_to(c.stdout, c.append, 1));
    let b = stream_calls(stderr_action(same, c.stderr, c.append));
    assert(placed(a, 12, 12) && in_order(a));
    assert(placed(b, 12, 12) && in_order(b));
    lemma_order_concat(a, b, 12, 12, 12);
}

/// What follows a call keeps its place: nothing that is pending comes before it.
proof fn lemma_step_order(s: SeqView, e: EventView)
    requires
        s.pending.len() > 0,
        fits(s.pending[0], e),
        in_order(s.pending),
    ensures
        advanced(s, e) matches StepView::Continue(t) ==> in_order(t.pending) && placed(
            t.pending,
            rank(s.pending[0]),
            13,
        ),
{
    let op = s.pending[0];
    let rest = s.pending.skip(1);
    let r = rank(op);
    assert(in_order(rest)) by {
        assert forall|i: int, j: int| 0 <= i < j < rest.len() implies rank(#[trigger] rest[i])
            <= rank(#[trigger] rest[j]) by {
            assert(rest[i] == s.pending[i + 1] && rest[j] == s.pending[j + 1]);
        }
    }
    assert(placed(rest, r, 13)) by {
        assert forall|i: int| 0 <= i < rest.len() implies r <= rank(#[trigger] rest[i]) <= 13 by {
            assert(rest[i] == s.pending[i + 1]);
        }
    }
    let first = followers(SeqView { pending: rest, ..s }, op, e);
    assert(placed(first, r, r) && in_order(first)) by {
        lemma_followers_placed(SeqView { pending: rest, ..s }, op, e);
    }
    lemma_order_concat(first, rest, r, r, 13);
    lemma_followers(SeqView { pending: rest, ..s }, op, e);
    assert(Seq::<OpView>::empty() + rest =~= rest);
}

/// The calls that become pending when `e` came of `op`.
pub open spec fn followers(s: SeqView, op: OpView, e: EventView) -> Seq<OpView> {
    match (op, e) {
        (OpView::FirstFork, EventView::Child) => match s.pipe_read {
            Some(read) => seq![OpView::CloseEnd(read)],
            None => Seq::empty(),
        },
        (OpView::Open { path, purpose, .. }, EventView::Opened(fd)) => match purpose {
            OpenPurpose::DevNull => devnull_calls(fd, s.config.foreground),
            OpenPurpose::Lock => seq![OpView::Flock { fd, path }],
            OpenPurpose::Pidfile(pid) => seq![
                OpView::Write { fd, bytes: pidfile_content(pid), file: Some(path) },
                OpView::Release { fd, close: true, purpose },
            ],
            OpenPurpose::Output(target) => opened_output_calls(fd, target),
        },
        (
            OpView::QueryPidfile { pidfile, lockfile },
            EventView::Pidfile { pid, pidfile: pidfile_canonical, lockfile: lockfile_canonical },
        ) => pid_calls(
            pidfile,
            pid,
            shared_lock(s.lock, pidfile, pidfile_canonical, lockfile, lockfile_canonical),
        ),
        (
            OpView::QueryOutputs { .. },
            EventView::Outputs { stdout: stdout_canonical, stderr: stderr_canonical },
        ) => redirect_calls(
            s.config,
            crate::output::same_output(
                s.config.stdout,
                stdout_canonical,
                s.config.stderr,
                stderr_canonical,
            ),
        ),
        (OpView::ListFds, EventView::Fds(Some(names))) => seq![
            OpView::CloseFds(closable(listed_fds(names), kept_fds(s))),
        ],
        (OpView::ListFds, EventView::Fds(None)) => seq![OpView::QueryFdLimit],
        (OpView::QueryFdLimit, EventView::Limit(limit)) => seq![
            OpView::CloseRange {
                max_fd: if limit <= i32::MAX {
                    limit as i32
                } else {
                    i32::MAX
                },
                skip: kept_fds(s),
            },
        ],
        _ => Seq::empty(),
    }
}

/// What is pending after a call: what follows from it, then what was pending
/// before; or the process waits for the daemon.
pub proof fn lemma_followers(s: SeqView, op: OpView, e: EventView)
    requires
        fits(op, e),
    ensures
        after(s, op, e) matches StepView::Continue(t) ==> (t.pending == followers(s, op, e)
            + s.pending || (op is FirstFork && e is Parent && t.pending.len() == 2
            && t.pending[0] is CloseEnd && t.pending[1] is ReadPipe)),
        after(s, op, e) is Return ==> followers(s, op, e) + s.pending == Seq::<OpView>::empty(),
{
    assert(Seq::<OpView>::empty() + s.pending =~= s.pending);
}

/// What follows from a call has the place of the call.
pub proof fn lemma_followers_placed(s: SeqView, op: OpView, e: EventView)
    requires
        fits(op, e),
    ensures
        placed(followers(s, op, e), rank(op), rank(op)),
        in_order(followers(s, op, e)),
{
    match (op, e) {
        (OpView::QueryOutputs { .. }, EventView::Outputs { stdout, stderr }) => {
            lemma_redirect_placed(
                s.config,
                crate::output::same_output(s.config.stdout, stdout, s.config.stderr, stderr),
            );
        },
        (OpView::Open { path, purpose, .. }, EventView::Opened(fd)) => {
            if purpose is DevNull {
                let a = devnull_dup(fd, 0);
                let b = devnull_dup(fd, 1) + devnull_dup(fd, 2);
                assert(placed(a, 6, 6) && placed(b, 6, 6));
                assert(placed(devnull_calls(fd, s.config.foreground), 6, 6));
            }
        },
        _ => {},
    }
}

proof fn lemma_performed_order(s: SeqView, events: Seq<EventView>, lo: int)
    requires
        in_order(s.pending),
        placed(s.pending, lo, 13),
        lo <= 13,
    ensures
        in_order(performed(s, events)),
        placed(performed(s, events), lo, 13),
    decreases events.len(),
{
    if events.len() > 0 && s.pending.len() > 0 {
        let rest = events.skip(1);
        if !fits(s.pending[0], events[0]) {
            lemma_performed_order(s, rest, lo);
        } else {
            let op = s.pending[0];
            lemma_step_order(s, events[0]);
            let tail = match advanced(s, events[0]) {
                StepView::Continue(t) => performed(t, rest),
                _ => Seq::empty(),
            };
            match advanced(s, events[0]) {
                StepView::Continue(t) => {
                    lemma_performed_order(t, rest, rank(op));
                },
                _ => {},
            }
            let head = seq![op];
            assert(placed(head, lo, rank(op)) && in_order(head));
            lemma_order_concat(head, tail, lo, rank(op), 13);
        }
    }
}

/// Whatever comes of the calls, they are made in the order of the sequence: pipe
/// and fork, session, second fork, umask, working directory, `/dev/null`, lock,
/// pidfile, signals, signal mask, environment, output files, descriptors.
pub proof fn calls_are_made_in_order(c: ConfigView, n: SignalNumbers, events: Seq<EventView>)
    ensures
        in_order(performed(started(c, n), events)),
{
    lemma_start_order(c, n);
    let p = started(c, n).pending;
    assert(placed(p, 1, 13)) by {
        assert forall|i: int| 0 <= i < p.len() implies 1 <= rank(#[trigger] p[i]) <= 13 by {}
    }
    lemma_performed_order(started(c, n), events, 1);
}

// ---------------------------------------------------------------------------
// Completeness
// ---------------------------------------------------------------------------

/// Whether each of `ops` is among the calls that were made.
pub open spec fn all_made(ops: Seq<OpView>, made: Seq<OpView>) -> bool {
    forall|i: int| 0 <= i < ops.len() ==> made.contains(#[trigger] ops[i])
}

proof fn lemma_all_made(s: SeqView, events: Seq<EventView>)
    requires
        run(s, events) is Return,
    ensures
        all_made(s.pending, performed(s, events)),
    decreases events.len(),
{
    if events.len() > 0 {
        let rest = events.skip(1);
        if s.pending.len() > 0 {
            if !fits(s.pending[0], events[0]) {
                lemma_all_made(s, rest);
            } else {
                let op = s.pending[0];
                let after_op = SeqView { pending: s.pending.skip(1), ..s };
                let made = performed(s, events);
                lemma_followers(after_op, op, events[0]);
                let first = followers(after_op, op, events[0]);
                match advanced(s, events[0]) {
                    StepView::Continue(t) => {
                        lemma_all_made(t, rest);
                        let tail = performed(t, rest);
                        if t.pending == first + after_op.pending {
                            assert forall|i: int| 0 <= i < s.pending.len() implies made.contains(
                                #[trigger] s.pending[i],
                            ) by {
                                if i == 0 {
                                    assert(made[0] == op);
                                } else {
                                    assert(t.pending[first.len() + i - 1] == s.pending[i]);
                                    let k = choose|k: int|
                                        0 <= k < tail.len() && tail[k] == s.pending[i];
                                    assert(made[k + 1] == s.pending[i]);
                                }
                            }
                        } else {
                            lemma_waiting_never_returns(t, rest);
                        }
                    },
                    _ => {
                        assert((first + after_op.pending).len() == 0);
                        assert(made[0] == op);
                    },
                }
            }
        }
    }
}

/// The state of the process that waits for the daemon.
pub open spec fn waiting(s: SeqView) -> bool {
    ||| s.pending.len() == 1 && s.pending[0] is ReadPipe
    ||| s.pending.len() == 2 && s.pending[0] is CloseEnd && s.pending[1] is ReadPipe
}

proof fn lemma_waiting_step(s: SeqView, e: EventView)
    requires
        waiting(s),
    ensures
        match advanced(s, e) {
            StepView::Continue(t) => waiting(t),
            StepView::Exit { write, .. } => write is None,
            _ => false,
        },
{
    if fits(s.pending[0], e) && s.pending.len() == 2 {
        assert(s.pending.skip(1)[0] is ReadPipe);
    }
}

/// A process that waits for the daemon does not become one.
pub proof fn lemma_waiting_never_returns(s: SeqView, events: Seq<EventView>)
    requires
        waiting(s),
    ensures
        match run(s, events) {
            StepView::Continue(t) => waiting(t),
            StepView::Exit { write, .. } => write is None,
            _ => false,
        },
    decreases events.len(),
{
    if events.len() > 0 {
        lemma_waiting_step(s, events[0]);
        match advanced(s, events[0]) {
            StepView::Continue(t) => lemma_waiting_never_returns(t, events.skip(1)),
            _ => {},
        }
    }
}

/// A process that becomes a daemon has made every call that its configuration
/// asks for: nothing is skipped.
pub proof fn no_call_is_skipped(c: ConfigView, n: SignalNumbers, events: Seq<EventView>)
    requires
        run(started(c, n), events) is Return,
    ensures
        all_made(fork_calls(c) + setup_calls(c, n), performed(started(c, n), events)),
{
    lemma_all_made(started(c, n), events);
}

// ---------------------------------------------------------------------------
// Signals
// ---------------------------------------------------------------------------

proof fn lemma_no_other_reset(s: SeqView, events: Seq<EventView>, signal: i32)
    requires
        !s.pending.contains(OpView::ResetSignal(signal)),
    ensures
        !performed(s, events).contains(OpView::ResetSignal(signal)),
    decreases events.len(),
{
    if events.len() > 0 && s.pending.len() > 0 {
        let rest = events.skip(1);
        let op = s.pending[0];
        let reset = OpView::ResetSignal(signal);
        if !fits(op, events[0]) {
            lemma_no_other_reset(s, rest, signal);
        } else {
            let at = SeqView { pending: s.pending.skip(1), ..s };
            let first = followers(at, op, events[0]);
            let made = performed(s, events);
            lemma_followers(at, op, events[0]);
            lemma_followers_placed(at, op, events[0]);
            assert(s.pending.contains(op));
            match advanced(s, events[0]) {
                StepView::Continue(t) => {
                    assert(!t.pending.contains(reset)) by {
                        if t.pending.contains(reset) {
                            let i = choose|i: int| 0 <= i < t.pending.len() && t.pending[i] == reset;
                            if t.pending == first + at.pending {
                                if i < first.len() {
                                    assert(first[i] == reset);
                                    assert(rank(first[i]) == rank(op));
                                } else {
                                    assert(s.pending[i - first.len() + 1] == reset);
                                }
                            }
                        }
                    }
                    lemma_no_other_reset(t, rest, signal);
                    if made.contains(reset) {
                        let i = choose|i: int| 0 <= i < made.len() && made[i] == reset;
                        assert(i > 0);
                        assert(performed(t, rest)[i - 1] == reset);
                    }
                },
                _ => {
                    assert(made =~= seq![op]);
                },
            }
        }
    }
}

proof fn lemma_reset_at_start(c: ConfigView, n: SignalNumbers, signal: i32)
    ensures
        started(c, n).pending.contains(OpView::ResetSignal(signal)) <==> n.to_reset().contains(
            signal,
        ),
{
    let p = started(c, n).pending;
    let reset = OpView::ResetSignal(signal);
    let before = fork_calls(c) + place_calls(c) + lock_calls(c) + pidfile_calls(c);
    let signals = signal_calls(n);
    let behind = env_calls(c.env) + output_calls(c) + close_calls(c);
    assert(p =~= before + signals + behind);
    if p.contains(reset) {
        let i = choose|i: int| 0 <= i < p.len() && p[i] == reset;
        assert(!(i < before.len())) by {
            if i < before.len() {
                assert(p[i] == before[i]);
            }
        }
        assert(i < before.len() + signals.len()) by {
            if i >= before.len() + signals.len() {
                assert(p[i] == behind[i - before.len() - signals.len()]);
            }
        }
        assert(p[i] == signals[i - before.len()]);
        assert(n.to_reset()[i - before.len()] == signal);
    }
    if n.to_reset().contains(signal) {
        let i = choose|i: int| 0 <= i < n.to_reset().len() && n.to_reset()[i] == signal;
        assert(signals[i] == reset);
        assert(p[before.len() + i] == reset);
    }
}

/// Whatever comes of the calls, `SIGPIPE` keeps its disposition, as do `SIGKILL`
/// and `SIGSTOP`; and a process that becomes a daemon has reset every other
/// signal of the host, real-time signals included.
pub proof fn all_signals_but_the_untouched_are_reset(
    c: ConfigView,
    n: SignalNumbers,
    events: Seq<EventView>,
    signal: i32,
)
    ensures
        signal == n.pipe || signal == n.kill || signal == n.stop ==> !performed(
            started(c, n),
            events,
        ).contains(OpView::ResetSignal(signal)),
        run(started(c, n), events) is Return && (1 <= signal < 32 || n.rt_min <= signal <= n.rt_max)
            && signal != n.pipe && signal != n.kill && signal != n.stop ==> performed(
            started(c, n),
            events,
        ).contains(OpView::ResetSignal(signal)),
{
    let s = started(c, n);
    lemma_reset_at_start(c, n, signal);
    crate::signals::reset_spares_exactly_the_untouched(n, signal);
    if !n.to_reset().contains(signal) {
        lemma_no_other_reset(s, events, signal);
    }
    let low = range(1, 32);
    let high = range(n.rt_min as int, n.rt_max + 1);
    if 1 <= signal < 32 {
        assert(low[signal - 1] == signal);
        assert(n.all()[signal - 1] == signal);
    } else if n.rt_min <= signal <= n.rt_max {
        assert(high[signal - n.rt_min] == signal);
        assert(n.all()[low.len() + signal - n.rt_min] == signal);
    }
    if run(s, events) is Return && n.to_reset().contains(signal) {
        lemma_all_made(s, events);
        let i = choose|i: int|
            0 <= i < s.pending.len() && s.pending[i] == OpView::ResetSignal(signal);
        assert(performed(s, events).contains(s.pending[i]));
    }
}

/// Whatever comes of the calls, no signal is reset but those from 1 to 31 and the
/// real-time signals, and of these neither `SIGKILL` nor `SIGSTOP` nor `SIGPIPE`.
pub proof fn no_other_signal_is_reset(
    c: ConfigView,
    n: SignalNumbers,
    events: Seq<EventView>,
    signal: i32,
)
    requires
        performed(started(c, n), events).contains(OpView::ResetSignal(signal)),
    ensures
        1 <= signal <= 31 || n.rt_min <= signal <= n.rt_max,
        signal != n.kill && signal != n.stop && signal != n.pipe,
{
    lemma_reset_at_start(c, n, signal);
    crate::signals::which_signals_are_reset(n, signal);
    if !n.to_reset().contains(signal) {
        lemma_no_other_reset(started(c, n), events, signal);
    }
}

// ---------------------------------------------------------------------------
// Silence
// ---------------------------------------------------------------------------

/// The process that was called and the one between it and the daemon write
/// nothing to the pipe: the first waits for the message and exits, the second
/// exits at once.
pub proof fn only_the_daemon_writes(s: SeqView, events: Seq<EventView>)
    requires
        s.pending.len() > 0,
    ensures
        s.pending[0] is FirstFork ==> match advanced(s, EventView::Parent) {
            StepView::Continue(t) => match run(t, events) {
                StepView::Continue(_) => true,
                StepView::Exit { write, .. } => write is None,
                _ => false,
            },
            end => end == silent_exit(),
        },
        s.pending[0] is SecondFork ==> advanced(s, EventView::Parent) == silent_exit(),
{
    if s.pending[0] is FirstFork {
        match advanced(s, EventView::Parent) {
            StepView::Continue(t) => lemma_waiting_never_returns(t, events),
            _ => {},
        }
    }
}

// ---------------------------------------------------------------------------
// Foreground
// ---------------------------------------------------------------------------

/// A call that a process in the foreground does not make.
pub open spec fn is_fork_call(op: OpView) -> bool {
    op is CreatePipe || op is FirstFork || op is SecondFork || op is Setsid || op is CloseEnd
        || op is ReadPipe
}

spec fn no_fork_call(ops: Seq<OpView>) -> bool {
    forall|i: int| 0 <= i < ops.len() ==> !is_fork_call(#[trigger] ops[i])
}

spec fn foreground_state(s: SeqView) -> bool {
    s.config.foreground && s.pipe is None && s.pipe_read is None && no_fork_call(s.pending)
}

proof fn lemma_placed_no_fork(ops: Seq<OpView>)
    requires
        placed(ops, 4, 13),
    ensures
        no_fork_call(ops),
{
    assert forall|i: int| 0 <= i < ops.len() implies !is_fork_call(#[trigger] ops[i]) by {
        assert(4 <= rank(ops[i]));
    }
}

proof fn lemma_foreground_step(s: SeqView, e: EventView)
    requires
        foreground_state(s),
        in_order(s.pending),
        placed(s.pending, 4, 13),
    ensures
        match advanced(s, e) {
            StepView::Continue(t) => foreground_state(t) && in_order(t.pending) && placed(
                t.pending,
                4,
                13,
            ) && t.config == s.config,
            StepView::Return(c) => c.pipe is None,
            StepView::Fail { .. } => true,
            StepView::Exit { .. } => false,
        },
{
    if s.pending.len() > 0 && fits(s.pending[0], e) {
        let op = s.pending[0];
        lemma_step_order(s, e);
        match advanced(s, e) {
            StepView::Continue(t) => {
                assert(placed(t.pending, 4, 13)) by {
                    assert forall|i: int| 0 <= i < t.pending.len() implies 4 <= rank(
                        #[trigger] t.pending[i],
                    ) <= 13 by {
                        assert(rank(op) <= rank(t.pending[i]));
                    }
                }
                lemma_placed_no_fork(t.pending);
            },
            _ => {},
        }
    }
}

proof fn lemma_foreground(s: SeqView, events: Seq<EventView>)
    requires
        foreground_state(s),
        in_order(s.pending),
        placed(s.pending, 4, 13),
    ensures
        match run(s, events) {
            StepView::Continue(t) => foreground_state(t),
            StepView::Return(c) => c.pipe is None,
            StepView::Fail { .. } => true,
            StepView::Exit { .. } => false,
        },
        no_fork_call(performed(s, events)),
    decreases events.len(),
{
    if events.len() > 0 {
        let rest = events.skip(1);
        lemma_foreground_step(s, events[0]);
        match advanced(s, events[0]) {
            StepView::Continue(t) => {
                lemma_foreground(t, rest);
            },
            _ => {},
        }
        if s.pending.len() > 0 && !fits(s.pending[0], events[0]) {
            lemma_foreground(s, rest);
        }
    }
}

proof fn lemma_setup_placed(c: ConfigView, n: SignalNumbers)
    requires
        c.foreground,
    ensures
        placed(started(c, n).pending, 4, 13),
{
    let p = started(c, n).pending;
    lemma_start_order(c, n);
    assert(p =~= setup_calls(c, n));
    assert(p[0] == OpView::SetUmask(c.umask));
    assert forall|i: int| 0 <= i < p.len() implies 4 <= rank(#[trigger] p[i]) <= 13 by {
        if i > 0 {
            assert(rank(p[0]) <= rank(p[i]));
        }
    }
}

/// In the foreground the process neither forks nor makes a session or a pipe, and
/// it is never made to exit: every error is returned.
pub proof fn foreground_stays_in_the_caller(
    c: ConfigView,
    n: SignalNumbers,
    events: Seq<EventView>,
)
    requires
        c.foreground,
    ensures
        !(run(started(c, n), events) is Exit),
        run(started(c, n), events) matches StepView::Return(context) ==> context.pipe is None,
        forall|i: int|
            0 <= i < performed(started(c, n), events).len() ==> !is_fork_call(
                #[trigger] performed(started(c, n), events)[i],
            ),
{
    lemma_start_order(c, n);
    lemma_setup_placed(c, n);
    lemma_placed_no_fork(started(c, n).pending);
    lemma_foreground(started(c, n), events);
}

/// A call that fails in the foreground returns its error, and what was opened is
/// closed.
pub proof fn foreground_failure_is_returned(s: SeqView, kind: ErrnoKind, text: Seq<char>)
    requires
        s.config.foreground,
        s.pending.len() > 0,
        fits(s.pending[0], EventView::Failed(kind, text)),
        !is_fork_call(s.pending[0]),
        !tolerated(s.pending[0], kind),
    ensures
        advanced(s, EventView::Failed(kind, text)) == (StepView::Fail {
            error: call_error(s.pending[0], kind, text),
            close: opt_one(s.temp) + opt_one(s.lock),
        }),
{
}

// ---------------------------------------------------------------------------
// Failures of a daemon
// ---------------------------------------------------------------------------

/// A fork that fails in the caller is an error of the caller: it is returned, and
/// both ends of the pipe are closed without a word.
pub proof fn first_fork_failure_is_returned(s: SeqView, kind: ErrnoKind, text: Seq<char>)
    requires
        s.pending.len() > 0,
        s.pending[0] is FirstFork,
    ensures
        advanced(s, EventView::Failed(kind, text)) == (StepView::Fail {
            error: ErrorView::ForkFailed(text),
            close: opt_one(s.pipe_read) + opt_one(s.pipe),
        }),
{
}

/// A call that fails in a forked process reaches the caller: what is written to
/// the pipe makes the waiting process print the error and exit with its code,
/// which is also the code of the failed process and never that of success.
pub proof fn failure_reaches_the_waiting_process(
    s: SeqView,
    kind: ErrnoKind,
    text: Seq<char>,
    waiter: SeqView,
)
    requires
        !s.config.foreground,
        s.pipe is Some,
        s.pending.len() > 0,
        fits(s.pending[0], EventView::Failed(kind, text)),
        !(s.pending[0] is CreatePipe),
        !(s.pending[0] is FirstFork),
        !tolerated(s.pending[0], kind),
        waiter.pending.len() > 0,
        waiter.pending[0] is ReadPipe,
    ensures
        ({
            let error = call_error(s.pending[0], kind, text);
            &&& advanced(s, EventView::Failed(kind, text)) == (StepView::Exit {
                write: pipe_write(Some(s.pipe->0 as int), error_message(error)),
                message: None,
                code: error.code() as int,
            })
            &&& advanced(waiter, EventView::Bytes(error_message(error))) == (StepView::Exit {
                write: None,
                message: Some(error.message()),
                code: error.code() as int,
            })
            &&& error.code() != 0
        }),
{
    error_round_trip(call_error(s.pending[0], kind, text));
}

// ---------------------------------------------------------------------------
// What a daemon holds
// ---------------------------------------------------------------------------

spec fn is_lock_call(op: OpView) -> bool {
    op is Flock || (op is Open && op->Open_purpose is Lock)
}

spec fn lock_pending(ops: Seq<OpView>) -> bool {
    exists|i: int| 0 <= i < ops.len() && is_lock_call(#[trigger] ops[i])
}

spec fn pipe_pending(ops: Seq<OpView>) -> bool {
    exists|i: int| 0 <= i < ops.len() && #[trigger] ops[i] is CreatePipe
}

spec fn holding(s: SeqView) -> bool {
    &&& s.config.effective_lockfile() is Some <==> s.lock is Some || lock_pending(s.pending)
    &&& !s.config.foreground <==> s.pipe is Some || pipe_pending(s.pending)
}

proof fn lemma_start_holding(c: ConfigView, n: SignalNumbers)
    ensures
        holding(started(c, n)),
{
    let p = started(c, n).pending;
    let fork = fork_calls(c);
    let at = fork.len() + 3;
    lemma_start_order(c, n);
    if c.effective_lockfile() is Some {
        assert(p[at as int] == lock_calls(c)[0]);
        assert(is_lock_call(p[at as int]));
    }
    if !c.foreground {
        assert(p[0] == OpView::CreatePipe);
    }
    if lock_pending(p) {
        let i = choose|i: int| 0 <= i < p.len() && is_lock_call(#[trigger] p[i]);
        lemma_rank_seven(c, n, i);
    }
    if pipe_pending(p) && c.foreground {
        lemma_setup_placed(c, n);
        let i = choose|i: int| 0 <= i < p.len() && #[trigger] p[i] is CreatePipe;
        assert(4 <= rank(p[i]));
    }
}

/// The only call at the start that is about the lock is the one for a configured
/// lockfile.
proof fn lemma_rank_seven(c: ConfigView, n: SignalNumbers, i: int)
    requires
        0 <= i < started(c, n).pending.len(),
        rank(started(c, n).pending[i]) == 7,
    ensures
        c.effective_lockfile() is Some,
{
    let p = started(c, n).pending;
    let fork = fork_calls(c);
    let place = place_calls(c);
    let lock = lock_calls(c);
    let tail = pidfile_calls(c) + signal_calls(n) + env_calls(c.env) + output_calls(c)
        + close_calls(c);
    if c.effective_lockfile() is None {
        assert(p =~= fork + place + tail);
        lemma_tail_placed(c, n);
        assert(placed(fork, 1, 3));
        assert(placed(place, 4, 6));
        if i < fork.len() {
            assert(p[i] == fork[i]);
        } else if i < fork.len() + place.len() {
            assert(p[i] == place[i - fork.len()]);
        } else {
            assert(p[i] == tail[i - fork.len() - place.len()]);
        }
    }
}

proof fn lemma_tail_placed(c: ConfigView, n: SignalNumbers)
    ensures
        placed(
            pidfile_calls(c) + signal_calls(n) + env_calls(c.env) + output_calls(c) + close_calls(
                c,
            ),
            8,
            13,
        ),
{
    let pid = pidfile_calls(c);
    let signals = signal_calls(n);
    let env = env_calls(c.env);
    let output = output_calls(c);
    let close = close_calls(c);
    assert(placed(pid, 8, 9) && in_order(pid));
    assert(placed(signals, 9, 11) && in_order(signals));
    assert(placed(env, 11, 12) && in_order(env));
    assert(placed(output, 12, 13) && in_order(output)) by {
        lemma_redirect_placed(c, false);
    }
    assert(placed(close, 13, 13) && in_order(close));
    lemma_order_concat(pid, signals, 8, 9, 11);
    lemma_order_concat(pid + signals, env, 8, 11, 12);
    lemma_order_concat(pid + signals + env, output, 8, 12, 13);
    lemma_order_concat(pid + signals + env + output, close, 8, 13, 13);
}

proof fn lemma_pending_concat(a: Seq<OpView>, b: Seq<OpView>)
    ensures
        lock_pending(a + b) <==> lock_pending(a) || lock_pending(b),
        pipe_pending(a + b) <==> pipe_pending(a) || pipe_pending(b),
{
    let c = a + b;
    if lock_pending(c) {
        let i = choose|i: int| 0 <= i < c.len() && is_lock_call(#[trigger] c[i]);
        if i < a.len() {
            assert(is_lock_call(a[i]));
        } else {
            assert(is_lock_call(b[i - a.len()]));
        }
    }
    if lock_pending(a) {
        let i = choose|i: int| 0 <= i < a.len() && is_lock_call(#[trigger] a[i]);
        assert(is_lock_call(c[i]));
    }
    if lock_pending(b) {
        let i = choose|i: int| 0 <= i < b.len() && is_lock_call(#[trigger] b[i]);
        assert(is_lock_call(c[i + a.len()]));
    }
    if pipe_pending(c) {
        let i = choose|i: int| 0 <= i < c.len() && #[trigger] c[i] is CreatePipe;
        if i < a.len() {
            assert(a[i] is CreatePipe);
        } else {
            assert(b[i - a.len()] is CreatePipe);
        }
    }
    if pipe_pending(a) {
        let i = choose|i: int| 0 <= i < a.len() && #[trigger] a[i] is CreatePipe;
        assert(c[i] is CreatePipe);
    }
    if pipe_pending(b) {
        let i = choose|i: int| 0 <= i < b.len() && #[trigger] b[i] is CreatePipe;
        assert(c[i + a.len()] is CreatePipe);
    }
}

proof fn lemma_holding_step(s: SeqView, e: EventView)
    requires
        holding(s),
        !(s.pending.len() > 0 && s.pending[0] is FirstFork && e is Parent),
    ensures
        match advanced(s, e) {
            StepView::Continue(t) => holding(t) && t.config == s.config,
            StepView::Return(c) => {
                &&& c.config == s.config
                &&& c.lock is Some <==> s.config.effective_lockfile() is Some
                &&& c.pipe is Some <==> !s.config.foreground
                &&& !c.cleaned_up
                &&& !c.privileges_dropped
            },
            _ => true,
        },
{
    if s.pending.len() == 0 {
    } else if fits(s.pending[0], e) {
        let op = s.pending[0];
        let rest = s.pending.skip(1);
        let after_op = SeqView { pending: rest, ..s };
        let first = followers(after_op, op, e);
        lemma_followers(after_op, op, e);
        lemma_followers_placed(after_op, op, e);
        assert(s.pending =~= seq![op] + rest);
        lemma_pending_concat(seq![op], rest);
        lemma_pending_concat(first, rest);
        assert(seq![op][0] == op);
        assert(lock_pending(seq![op]) <==> is_lock_call(op)) by {
            if is_lock_call(op) {
                assert(is_lock_call(seq![op][0]));
            }
        }
        assert(pipe_pending(seq![op]) <==> op is CreatePipe) by {
            if op is CreatePipe {
                assert(seq![op][0] is CreatePipe);
            }
        }
        assert(lock_pending(first) <==> op is Open && op->Open_purpose is Lock && e is Opened) by {
            if op is Open && op->Open_purpose is Lock && e is Opened {
                assert(is_lock_call(first[0]));
            }
            if lock_pending(first) {
                let i = choose|i: int| 0 <= i < first.len() && is_lock_call(#[trigger] first[i]);
                assert(rank(first[i]) == 7);
                assert(rank(op) == 7);
            }
        }
        assert(!pipe_pending(first)) by {
            if pipe_pending(first) {
                let i = choose|i: int| 0 <= i < first.len() && #[trigger] first[i] is CreatePipe;
                assert(rank(first[i]) == 1 && rank(op) == 1);
            }
        }
        if first + rest == Seq::<OpView>::empty() {
            assert(!lock_pending(first + rest));
            assert(!pipe_pending(first + rest));
        }
    }
}

proof fn lemma_holding(s: SeqView, events: Seq<EventView>)
    requires
        holding(s),
    ensures
        run(s, events) matches StepView::Return(c) ==> {
            &&& c.config == s.config
            &&& c.lock is Some <==> s.config.effective_lockfile() is Some
            &&& c.pipe is Some <==> !s.config.foreground
            &&& !c.cleaned_up
            &&& !c.privileges_dropped
        },
    decreases events.len(),
{
    if events.len() > 0 {
        let rest = events.skip(1);
        if s.pending.len() > 0 && s.pending[0] is FirstFork && events[0] is Parent {
            match advanced(s, events[0]) {
                StepView::Continue(t) => lemma_waiting_never_returns(t, rest),
                _ => {},
            }
        } else {
            lemma_holding_step(s, events[0]);
            match advanced(s, events[0]) {
                StepView::Continue(t) => lemma_holding(t, rest),
                _ => {},
            }
        }
    }
}

/// A process that becomes a daemon has its configuration, holds the lock exactly
/// if one is configured or derived from the pidfile, and has the pipe to its
/// parent exactly if it is not in the foreground.
pub proof fn daemon_holds_lock_and_pipe(c: ConfigView, n: SignalNumbers, events: Seq<EventView>)
    ensures
        run(started(c, n), events) matches StepView::Return(context) ==> {
            &&& context.config == c
            &&& context.lock is Some <==> c.effective_lockfile() is Some
            &&& context.pipe is Some <==> !c.foreground
            &&& !context.cleaned_up
            &&& !context.privileges_dropped
        },
{
    lemma_start_holding(c, n);
    lemma_holding(started(c, n), events);
}

proof fn lemma_reachable(s: SeqView, events: Seq<EventView>)
    requires
        holding(s),
        in_order(s.pending),
    ensures
        run(s, events) matches StepView::Continue(t) ==> waiting(t) || (holding(t) && in_order(
            t.pending,
        ) && t.config == s.config),
    decreases events.len(),
{
    if events.len() > 0 {
        let e = events[0];
        let rest = events.skip(1);
        if s.pending.len() > 0 && s.pending[0] is FirstFork && e is Parent {
            match advanced(s, e) {
                StepView::Continue(t) => lemma_waiting_never_returns(t, rest),
                _ => {},
            }
        } else {
            lemma_holding_step(s, e);
            if s.pending.len() > 0 && fits(s.pending[0], e) {
                lemma_step_order(s, e);
            }
            match advanced(s, e) {
                StepView::Continue(t) => lemma_reachable(t, rest),
                _ => {},
            }
        }
    }
}

/// A call for the pidfile.
pub open spec fn is_pidfile_call(op: OpView) -> bool {
    match op {
        OpView::QueryPidfile { .. } => true,
        OpView::SeekStart(_) => true,
        OpView::Truncate(_) => true,
        OpView::Write { .. } => true,
        OpView::Open { purpose, .. } => purpose is Pidfile,
        OpView::Release { purpose, .. } => purpose is Pidfile,
        _ => false,
    }
}

/// Only the holder of the lock touches the pidfile: by the time a call for the
/// pidfile is to be made, the lock is held if there is to be one.
pub proof fn pidfile_is_touched_under_the_lock(
    c: ConfigView,
    n: SignalNumbers,
    events: Seq<EventView>,
)
    ensures
        run(started(c, n), events) matches StepView::Continue(s) ==> (s.pending.len() > 0
            && is_pidfile_call(s.pending[0]) ==> (s.lock is Some <==> c.effective_lockfile() is Some)),
{
    lemma_start_holding(c, n);
    lemma_start_order(c, n);
    lemma_reachable(started(c, n), events);
    match run(started(c, n), events) {
        StepView::Continue(s) => {
            if s.pending.len() > 0 && is_pidfile_call(s.pending[0]) && lock_pending(s.pending) {
                let i = choose|i: int|
                    0 <= i < s.pending.len() && is_lock_call(#[trigger] s.pending[i]);
                assert(rank(s.pending[i]) == 7);
                assert(i > 0 ==> rank(s.pending[0]) <= rank(s.pending[i]));
            }
        },
        _ => {},
    }
}

// ---------------------------------------------------------------------------
// Single steps
// ---------------------------------------------------------------------------

/// No standard stream, no lock and no pipe is among the descriptors that are
/// closed, however these are found.
pub proof fn closing_spares_streams_lock_and_pipe(
    s: SeqView,
    names: Seq<Seq<char>>,
    max_fd: i32,
    fd: i32,
)
    requires
        fd < 3 || s.lock == Some(fd) || s.pipe == Some(fd),
    ensures
        !closable(listed_fds(names), kept_fds(s)).contains(fd),
        !without(range(3, max_fd as int), kept_fds(s)).contains(fd),
{
    crate::fds::listing_closes_all_but_kept(listed_fds(names), kept_fds(s), fd);
    crate::fds::range_closes_all_but_kept(max_fd as int, kept_fds(s), fd);
    if s.lock == Some(fd) {
        assert(kept_fds(s)[0] == fd);
    } else if s.pipe == Some(fd) {
        assert(kept_fds(s)[opt_one(s.lock).len() as int] == fd);
    }
}

/// A pidfile holds the process id in decimal and a newline: without the newline
/// it reads as the process id.
pub proof fn pidfile_reads_as_the_pid(pid: u32)
    ensures
        decode_utf8(pidfile_content(pid)) == numeral(pid as nat, 10) + "\n"@,
        read_unsigned(numeral(pid as nat, 10), 10, u32::MAX as nat) == Ok::<nat, NumberError>(
            pid as nat,
        ),
{
    encode_utf8_decode_utf8(numeral(pid as nat, 10) + "\n"@);
    numeral_reads_back(pid as nat, 10, u32::MAX as nat);
}

/// Where the pidfile is the locked file, it is written through the lock, after
/// it has been emptied; nothing is opened.
pub proof fn locked_pidfile_is_written_through_the_lock(pidfile: Seq<u8>, pid: u32, fd: i32)
    ensures
        pid_calls(pidfile, pid, Some(fd)) == seq![
            OpView::SeekStart(fd),
            OpView::Truncate(fd),
            OpView::Write { fd, bytes: pidfile_content(pid), file: None },
        ],
{
}

/// The environment after variables have been set, one after the other.
pub open spec fn environment(
    inherited: Map<Seq<char>, Seq<char>>,
    env: Seq<(Seq<char>, Seq<char>)>,
) -> Map<Seq<char>, Seq<char>>
    decreases env.len(),
{
    if env.len() == 0 {
        inherited
    } else {
        environment(inherited, env.drop_last()).insert(env.last().0, env.last().1)
    }
}

/// The last entry for a key decides its value.
pub proof fn last_entry_decides(
    inherited: Map<Seq<char>, Seq<char>>,
    env: Seq<(Seq<char>, Seq<char>)>,
    i: int,
)
    requires
        0 <= i < env.len(),
        forall|j: int| i < j < env.len() ==> (#[trigger] env[j]).0 != env[i].0,
    ensures
        environment(inherited, env).contains_pair(env[i].0, env[i].1),
    decreases env.len(),
{
    if i < env.len() - 1 {
        let prior = env.drop_last();
        assert(env[env.len() - 1].0 != env[i].0);
        assert forall|j: int| i < j < prior.len() implies (#[trigger] prior[j]).0 != prior[i].0 by {
            assert(prior[j] == env[j]);
        }
        last_entry_decides(inherited, prior, i);
    }
}

/// What no entry mentions is inherited.
pub proof fn unmentioned_is_inherited(
    inherited: Map<Seq<char>, Seq<char>>,
    env: Seq<(Seq<char>, Seq<char>)>,
    key: Seq<char>,
)
    requires
        forall|i: int| 0 <= i < env.len() ==> (#[trigger] env[i]).0 != key,
    ensures
        environment(inherited, env).contains_key(key) <==> inherited.contains_key(key),
        inherited.contains_key(key) ==> environment(inherited, env)[key] == inherited[key],
    decreases env.len(),
{
    if env.len() > 0 {
        let prior = env.drop_last();
        assert(env[env.len() - 1].0 != key);
        assert forall|i: int| 0 <= i < prior.len() implies (#[trigger] prior[i]).0 != key by {
            assert(prior[i] == env[i]);
        }
        unmentioned_is_inherited(inherited, prior, key);
    }
}

/// The variables that calls set, in order.
pub open spec fn variables_set(ops: Seq<OpView>) -> Seq<(Seq<char>, Seq<char>)>
    decreases ops.len(),
{
    if ops.len() == 0 {
        Seq::empty()
    } else {
        let rest = variables_set(ops.skip(1));
        match ops[0] {
            OpView::SetEnv { key, value } => seq![(key, value)] + rest,
            _ => rest,
        }
    }
}

proof fn lemma_variables_concat(a: Seq<OpView>, b: Seq<OpView>)
    ensures
        variables_set(a + b) == variables_set(a) + variables_set(b),
    decreases a.len(),
{
    if a.len() == 0 {
        assert(a + b =~= b);
        assert(variables_set(a) + variables_set(b) =~= variables_set(b));
    } else {
        assert((a + b)[0] == a[0]);
        assert((a + b).skip(1) =~= a.skip(1) + b);
        lemma_variables_concat(a.skip(1), b);
        assert(variables_set(a + b) =~= variables_set(a) + variables_set(b));
    }
}

proof fn lemma_no_variables(ops: Seq<OpView>)
    requires
        forall|i: int| 0 <= i < ops.len() ==> !(#[trigger] ops[i] is SetEnv),
    ensures
        variables_set(ops) == Seq::<(Seq<char>, Seq<char>)>::empty(),
    decreases ops.len(),
{
    if ops.len() > 0 {
        assert(!(ops[0] is SetEnv));
        assert forall|i: int| 0 <= i < ops.skip(1).len() implies !(#[trigger] ops.skip(1)[i]
            is SetEnv) by {
            assert(ops.skip(1)[i] == ops[i + 1]);
        }
        lemma_no_variables(ops.skip(1));
    }
}

proof fn lemma_variables_of_env(env: Seq<(Seq<char>, Seq<char>)>)
    ensures
        variables_set(env_calls(env)) == env,
    decreases env.len(),
{
    if env.len() == 0 {
        assert(variables_set(env_calls(env)) =~= env);
    } else {
        assert(env_calls(env).skip(1) =~= env_calls(env.skip(1)));
        lemma_variables_of_env(env.skip(1));
        assert(seq![env[0]] + env.skip(1) =~= env);
    }
}

proof fn lemma_variables_at_start(c: ConfigView, n: SignalNumbers)
    ensures
        variables_set(started(c, n).pending) == c.env,
{
    let before = fork_calls(c) + place_calls(c) + lock_calls(c) + pidfile_calls(c) + signal_calls(
        n,
    );
    let env = env_calls(c.env);
    let behind = output_calls(c) + close_calls(c);
    assert(started(c, n).pending =~= before + env + behind);
    lemma_no_variables(before);
    lemma_no_variables(behind);
    lemma_variables_of_env(c.env);
    lemma_variables_concat(before + env, behind);
    lemma_variables_concat(before, env);
    assert(variables_set(started(c, n).pending) =~= c.env);
}

proof fn lemma_variables_performed(s: SeqView, events: Seq<EventView>)
    requires
        run(s, events) is Return,
    ensures
        variables_set(performed(s, events)) == variables_set(s.pending),
    decreases events.len(),
{
    if events.len() > 0 {
        let rest = events.skip(1);
        if s.pending.len() == 0 {
            assert(performed(s, events) =~= s.pending);
        } else if !fits(s.pending[0], events[0]) {
            lemma_variables_performed(s, rest);
        } else {
            let op = s.pending[0];
            let after_op = SeqView { pending: s.pending.skip(1), ..s };
            let first = followers(after_op, op, events[0]);
            lemma_followers(after_op, op, events[0]);
            lemma_followers_placed(after_op, op, events[0]);
            assert forall|i: int| 0 <= i < first.len() implies !(#[trigger] first[i]
                is SetEnv) by {
                if first[i] is SetEnv {
                    assert(rank(first[i]) == 11);
                    assert(rank(op) == 11);
                }
            }
            lemma_no_variables(first);
            lemma_variables_concat(first, after_op.pending);
            assert(variables_set(first + after_op.pending) =~= variables_set(after_op.pending));
            assert(s.pending =~= seq![op] + after_op.pending);
            lemma_variables_concat(seq![op], after_op.pending);
            match advanced(s, events[0]) {
                StepView::Continue(t) => {
                    if t.pending == first + after_op.pending {
                        lemma_variables_performed(t, rest);
                        lemma_variables_concat(seq![op], performed(t, rest));
                    } else {
                        lemma_waiting_never_returns(t, rest);
                    }
                },
                _ => {
                    assert(after_op.pending.len() == 0) by {
                        assert((first + after_op.pending).len() == 0);
                    }
                    assert(performed(s, events) =~= s.pending);
                },
            }
        }
    }
}

/// A process that becomes a daemon has set the configured variables, in the order
/// in which they were configured, and no others.
pub proof fn daemon_sets_the_configured_variables(
    c: ConfigView,
    n: SignalNumbers,
    events: Seq<EventView>,
)
    requires
        run(started(c, n), events) is Return,
    ensures
        variables_set(performed(started(c, n), events)) == c.env,
{
    lemma_variables_performed(started(c, n), events);
    lemma_variables_at_start(c, n);
}

// ---------------------------------------------------------------------------
// What a daemon has done
// ---------------------------------------------------------------------------

/// The calls that are made when `events` come of them, each with what came of it.
pub open spec fn trace(s: SeqView, events: Seq<EventView>) -> Seq<(OpView, EventView)>
    decreases events.len(),
{
    if events.len() == 0 || s.pending.len() == 0 {
        Seq::empty()
    } else if !fits(s.pending[0], events[0]) {
        trace(s, events.skip(1))
    } else {
        seq![(s.pending[0], events[0])] + (match advanced(s, events[0]) {
            StepView::Continue(t) => trace(t, events.skip(1)),
            _ => Seq::empty(),
        })
    }
}

/// The first call of a process that becomes a daemon, what came of it, and what
/// is left to come.
#[verifier::rlimit(50)]
proof fn lemma_trace_head(s: SeqView, events: Seq<EventView>) -> (rest: Seq<EventView>)
    requires
        run(s, events) is Return,
        s.pending.len() > 0,
    ensures
        rest.len() < events.len(),
        trace(s, events).len() > 0,
        trace(s, events)[0].0 == s.pending[0],
        fits(s.pending[0], trace(s, events)[0].1),
        !(s.pending[0] is FirstFork && trace(s, events)[0].1 is Parent),
        match advanced(s, trace(s, events)[0].1) {
            StepView::Continue(t) => {
                &&& run(t, rest) == run(s, events)
                &&& trace(s, events) == seq![trace(s, events)[0]] + trace(t, rest)
                &&& t.pending == followers(
                    SeqView { pending: s.pending.skip(1), ..s },
                    s.pending[0],
                    trace(s, events)[0].1,
                ) + s.pending.skip(1)
            },
            StepView::Return(c) => {
                &&& run(s, events) == StepView::Return(c)
                &&& trace(s, events) == seq![trace(s, events)[0]]
                &&& followers(
                    SeqView { pending: s.pending.skip(1), ..s },
                    s.pending[0],
                    trace(s, events)[0].1,
                ) + s.pending.skip(1) == Seq::<OpView>::empty()
            },
            _ => false,
        },
    decreases events.len(),
{
    let e = events[0];
    if !fits(s.pending[0], e) {
        lemma_trace_head(s, events.skip(1))
    } else {
        let at = SeqView { pending: s.pending.skip(1), ..s };
        lemma_followers(at, s.pending[0], e);
        match advanced(s, e) {
            StepView::Continue(t) => {
                assert(trace(s, events)[0] == (s.pending[0], e));
                if s.pending[0] is FirstFork && e is Parent {
                    lemma_waiting_never_returns(t, events.skip(1));
                }
            },
            _ => {
                assert(trace(s, events) =~= seq![(s.pending[0], e)]);
            },
        }
        events.skip(1)
    }
}

/// The file that is to be locked: the one that is named, else the pidfile, unless
/// locking is switched off.
pub open spec fn file_to_lock(c: ConfigView) -> Option<Seq<u8>> {
    match c.lockfile {
        LockfileView::Explicit(p) => Some(p),
        LockfileView::Derive => c.pidfile,
        LockfileView::Disabled => None,
    }
}

/// The calls that have the members of `wanted`, in order.
pub open spec fn selected(ops: Seq<OpView>, wanted: spec_fn(OpView) -> bool) -> Seq<OpView>
    decreases ops.len(),
{
    if ops.len() == 0 {
        Seq::empty()
    } else {
        let rest = selected(ops.skip(1), wanted);
        if wanted(ops[0]) {
            seq![ops[0]] + rest
        } else {
            rest
        }
    }
}

proof fn lemma_selected_concat(a: Seq<OpView>, b: Seq<OpView>, wanted: spec_fn(OpView) -> bool)
    ensures
        selected(a + b, wanted) == selected(a, wanted) + selected(b, wanted),
    decreases a.len(),
{
    if a.len() == 0 {
        assert(a + b =~= b);
        assert(selected(a, wanted) + selected(b, wanted) =~= selected(b, wanted));
    } else {
        assert((a + b)[0] == a[0]);
        assert((a + b).skip(1) =~= a.skip(1) + b);
        lemma_selected_concat(a.skip(1), b, wanted);
        assert(selected(a + b, wanted) =~= selected(a, wanted) + selected(b, wanted));
    }
}

proof fn lemma_selected_none(ops: Seq<OpView>, wanted: spec_fn(OpView) -> bool)
    requires
        forall|i: int| 0 <= i < ops.len() ==> !wanted(#[trigger] ops[i]),
    ensures
        selected(ops, wanted) == Seq::<OpView>::empty(),
    decreases ops.len(),
{
    if ops.len() > 0 {
        assert(!wanted(ops[0]));
        assert forall|i: int| 0 <= i < ops.skip(1).len() implies !wanted(
            #[trigger] ops.skip(1)[i],
        ) by {
            assert(ops.skip(1)[i] == ops[i + 1]);
        }
        lemma_selected_none(ops.skip(1), wanted);
    }
}

proof fn lemma_selected_all(ops: Seq<OpView>, wanted: spec_fn(OpView) -> bool)
    requires
        forall|i: int| 0 <= i < ops.len() ==> wanted(#[trigger] ops[i]),
    ensures
        selected(ops, wanted) == ops,
    decreases ops.len(),
{
    if ops.len() > 0 {
        assert(wanted(ops[0]));
        assert forall|i: int| 0 <= i < ops.skip(1).len() implies wanted(
            #[trigger] ops.skip(1)[i],
        ) by {
            assert(ops.skip(1)[i] == ops[i + 1]);
        }
        lemma_selected_all(ops.skip(1), wanted);
        assert(seq![ops[0]] + ops.skip(1) =~= ops);
    }
}

/// A call that does not depend on what came of others.
pub open spec fn is_step(op: OpView) -> bool {
    match op {
        OpView::CreatePipe => true,
        OpView::FirstFork => true,
        OpView::Setsid => true,
        OpView::SecondFork => true,
        OpView::SetUmask(_) => true,
        OpView::Chdir(_) => true,
        OpView::Open { purpose, .. } => purpose is DevNull || purpose is Lock,
        OpView::QueryPidfile { .. } => true,
        OpView::ClearSignalMask => true,
        OpView::QueryOutputs { .. } => true,
        OpView::ListFds => true,
        _ => false,
    }
}

#[verifier::rlimit(50)]
proof fn lemma_steps_performed(s: SeqView, events: Seq<EventView>)
    requires
        run(s, events) is Return,
    ensures
        selected(performed(s, events), |op: OpView| is_step(op)) == selected(
            s.pending,
            |op: OpView| is_step(op),
        ),
    decreases events.len(),
{
    let f = |op: OpView| is_step(op);
    if events.len() > 0 {
        let rest = events.skip(1);
        if s.pending.len() == 0 {
            assert(performed(s, events) =~= s.pending);
        } else if !fits(s.pending[0], events[0]) {
            lemma_steps_performed(s, rest);
        } else {
            let op = s.pending[0];
            let at = SeqView { pending: s.pending.skip(1), ..s };
            let first = followers(at, op, events[0]);
            lemma_followers(at, op, events[0]);
            lemma_followers_placed(at, op, events[0]);
            assert forall|i: int| 0 <= i < first.len() implies !f(#[trigger] first[i]) by {
                assert(rank(first[i]) == rank(op));
            }
            lemma_selected_none(first, f);
            lemma_selected_concat(first, at.pending, f);
            assert(selected(first + at.pending, f) =~= selected(at.pending, f));
            assert(s.pending =~= seq![op] + at.pending);
            lemma_selected_concat(seq![op], at.pending, f);
            match advanced(s, events[0]) {
                StepView::Continue(t) => {
                    if t.pending == first + at.pending {
                        lemma_steps_performed(t, rest);
                        lemma_selected_concat(seq![op], performed(t, rest), f);
                    } else {
                        lemma_waiting_never_returns(t, rest);
                    }
                },
                _ => {
                    assert(at.pending.len() == 0) by {
                        assert((first + at.pending).len() == 0);
                    }
                    assert(performed(s, events) =~= s.pending);
                },
            }
        }
    }
}

proof fn lemma_steps_at_start(c: ConfigView, n: SignalNumbers)
    ensures
        selected(started(c, n).pending, |op: OpView| is_step(op)) == fork_calls(c) + place_calls(c)
            + lock_calls(c) + pidfile_calls(c) + seq![OpView::ClearSignalMask] + (if c.stdout is Some
            && c.stderr is Some {
            output_calls(c)
        } else {
            Seq::empty()
        }) + close_calls(c),
{
    let f = |op: OpView| is_step(op);
    let fork = fork_calls(c);
    let place = place_calls(c);
    let lock = lock_calls(c);
    let pid = pidfile_calls(c);
    let env = env_calls(c.env);
    let output = output_calls(c);
    let close = close_calls(c);
    let mask = seq![OpView::ClearSignalMask];
    let resets = signal_calls(n).drop_last();
    let a = fork + place + lock + pid;
    let z = resets + mask;
    assert(signal_calls(n) =~= z);
    assert(started(c, n).pending =~= a + z + env + output + close);
    assert forall|i: int| 0 <= i < resets.len() implies !f(#[trigger] resets[i]) by {}
    assert forall|i: int| 0 <= i < env.len() implies !f(#[trigger] env[i]) by {}
    lemma_selected_none(resets, f);
    lemma_selected_none(env, f);
    lemma_selected_all(mask, f);
    lemma_selected_concat(resets, mask, f);
    assert(selected(z, f) =~= mask);
    lemma_selected_all(a, f);
    lemma_selected_all(close, f);
    if c.stdout is Some && c.stderr is Some {
        lemma_selected_all(output, f);
    } else {
        assert forall|i: int| 0 <= i < output.len() implies !f(#[trigger] output[i]) by {}
        lemma_selected_none(output, f);
    }
    lemma_selected_concat(a, z, f);
    lemma_selected_concat(a + z, env, f);
    assert(a + mask + Seq::<OpView>::empty() =~= a + mask);
    lemma_selected_concat(a + z + env, output, f);
    lemma_selected_concat(a + z + env + output, close, f);
}

/// A process that becomes a daemon has made each of these calls once, in this
/// order, and none of them otherwise. In the background it gets a pipe, forks,
/// leads a session of its own and forks again. Everywhere it takes the configured
/// umask and working directory, opens `/dev/null` for reading and writing, opens
/// the file to be locked without emptying it, asks for its process id where there
/// is a pidfile, unblocks all signals, compares its output files where there are
/// two, and lists its descriptors where they are to be closed.
pub proof fn a_daemon_makes_each_step_once(c: ConfigView, n: SignalNumbers, events: Seq<EventView>)
    requires
        run(started(c, n), events) is Return,
    ensures
        selected(performed(started(c, n), events), |op: OpView| is_step(op)) == (if c.foreground {
            Seq::empty()
        } else {
            seq![OpView::CreatePipe, OpView::FirstFork, OpView::Setsid, OpView::SecondFork]
        }) + seq![
            OpView::SetUmask(c.umask),
            OpView::Chdir(c.chdir),
            OpView::Open {
                path: encode_utf8("/dev/null"@),
                flags: OpenFlags {
                    read_write: true,
                    create: false,
                    append: false,
                    truncate: false,
                    cloexec: false,
                },
                purpose: OpenPurpose::DevNull,
            },
        ] + (match file_to_lock(c) {
            Some(path) => seq![
                OpView::Open {
                    path,
                    flags: OpenFlags {
                        read_write: false,
                        create: true,
                        append: false,
                        truncate: false,
                        cloexec: true,
                    },
                    purpose: OpenPurpose::Lock,
                },
            ],
            None => Seq::empty(),
        }) + (match c.pidfile {
            Some(pidfile) => seq![OpView::QueryPidfile { pidfile, lockfile: file_to_lock(c) }],
            None => Seq::empty(),
        }) + seq![OpView::ClearSignalMask] + (match (c.stdout, c.stderr) {
            (Some(stdout), Some(stderr)) => seq![OpView::QueryOutputs { stdout, stderr }],
            _ => Seq::empty(),
        }) + (if c.close_fds {
            seq![OpView::ListFds]
        } else {
            Seq::empty()
        }),
{
    lemma_steps_performed(started(c, n), events);
    lemma_steps_at_start(c, n);
}

// ---------------------------------------------------------------------------
// What a call may be
// ---------------------------------------------------------------------------

/// Whether a configuration asks for a call.
pub open spec fn is_asked_for(c: ConfigView, op: OpView) -> bool {
    match op {
        OpView::CreatePipe => !c.foreground,
        OpView::FirstFork => !c.foreground,
        OpView::SecondFork => !c.foreground,
        OpView::CloseEnd(_) => !c.foreground,
        OpView::ReadPipe(_) => !c.foreground,
        OpView::Setsid => !c.foreground,
        OpView::SetUmask(umask) => umask == c.umask,
        OpView::Chdir(path) => path == c.chdir,
        OpView::Open { path, flags, purpose } => match purpose {
            OpenPurpose::DevNull => path == encode_utf8("/dev/null"@) && flags.read_write
                && !flags.create && !flags.truncate && !flags.append && !flags.cloexec,
            OpenPurpose::Lock => file_to_lock(c) == Some(path) && flags.create && !flags.truncate
                && !flags.append && !flags.read_write && flags.cloexec,
            OpenPurpose::Pidfile(_) => c.pidfile == Some(path) && flags.create && flags.truncate
                && !flags.append && !flags.read_write && flags.cloexec,
            OpenPurpose::Output(target) => {
                &&& target == 1 && c.stdout == Some(path) || target == 2 && c.stderr == Some(path)
                &&& flags.create && !flags.read_write && !flags.cloexec
                &&& flags.append == c.append && flags.truncate == !c.append
            },
        },
        OpView::Dup2 { source, target, reason } => match reason {
            DupReason::DevNull => source != target && (target == 0 || !c.foreground && (target == 1
                || target == 2)),
            DupReason::Output => source != target && (target == 1 && c.stdout is Some || target == 2
                && c.stderr is Some),
            DupReason::Share => source == 1 && target == 2 && c.stdout is Some && c.stderr is Some,
        },
        OpView::Release { fd, close, purpose } => match purpose {
            OpenPurpose::DevNull => close == (fd > 2),
            OpenPurpose::Pidfile(_) => close,
            OpenPurpose::Output(target) => close == (fd != target),
            OpenPurpose::Lock => false,
        },
        OpView::Flock { path, .. } => file_to_lock(c) == Some(path),
        OpView::QueryPidfile { pidfile, lockfile } => c.pidfile == Some(pidfile) && lockfile
            == file_to_lock(c),
        OpView::SeekStart(_) => c.pidfile is Some,
        OpView::Truncate(_) => c.pidfile is Some && file_to_lock(c) is Some,
        OpView::Write { file, .. } => match file {
            Some(path) => c.pidfile == Some(path),
            None => c.pidfile is Some && file_to_lock(c) is Some,
        },
        OpView::SetEnv { key, value } => c.env.contains((key, value)),
        OpView::QueryOutputs { stdout, stderr } => c.stdout == Some(stdout) && c.stderr == Some(
            stderr,
        ),
        OpView::ListFds => c.close_fds,
        OpView::QueryFdLimit => c.close_fds,
        OpView::CloseFds(_) => c.close_fds,
        OpView::CloseRange { .. } => c.close_fds,
        _ => true,
    }
}

spec fn all_asked_for(c: ConfigView, ops: Seq<OpView>) -> bool {
    forall|i: int| 0 <= i < ops.len() ==> is_asked_for(c, #[trigger] ops[i])
}

proof fn lemma_asked_concat(c: ConfigView, a: Seq<OpView>, b: Seq<OpView>)
    requires
        all_asked_for(c, a),
        all_asked_for(c, b),
    ensures
        all_asked_for(c, a + b),
{
    let ab = a + b;
    assert forall|i: int| 0 <= i < ab.len() implies is_asked_for(c, #[trigger] ab[i]) by {
        if i < a.len() {
            assert(ab[i] == a[i]);
        } else {
            assert(ab[i] == b[i - a.len()]);
        }
    }
}

proof fn lemma_asked_redirect(c: ConfigView, same: bool)
    requires
        same ==> c.stdout is Some && c.stderr is Some,
    ensures
        all_asked_for(c, redirect_calls(c, same)),
{
    let a = stream_calls(redirect_to(c.stdout, c.append, 1));
    let b = stream_calls(stderr_action(same, c.stderr, c.append));
    assert(all_asked_for(c, a));
    assert(all_asked_for(c, b));
    lemma_asked_concat(c, a, b);
}

proof fn lemma_asked_followers(s: SeqView, op: OpView, e: EventView)
    requires
        is_asked_for(s.config, op),
        fits(op, e),
    ensures
        all_asked_for(s.config, followers(s, op, e)),
{
    let c = s.config;
    let first = followers(s, op, e);
    match (op, e) {
        (OpView::Open { purpose, .. }, EventView::Opened(fd)) => {
            if purpose is DevNull {
                let a = devnull_dup(fd, 0);
                let b = devnull_dup(fd, 1);
                let d = devnull_dup(fd, 2);
                let last = seq![OpView::Release { fd, close: fd > 2, purpose }];
                assert(all_asked_for(c, a) && all_asked_for(c, last));
                if !c.foreground {
                    assert(all_asked_for(c, b) && all_asked_for(c, d));
                    lemma_asked_concat(c, b, d);
                    lemma_asked_concat(c, a, b + d);
                    lemma_asked_concat(c, a + (b + d), last);
                } else {
                    assert(a + Seq::<OpView>::empty() =~= a);
                    lemma_asked_concat(c, a, last);
                }
            }
        },
        (OpView::QueryOutputs { .. }, EventView::Outputs { stdout, stderr }) => {
            lemma_asked_redirect(
                c,
                crate::output::same_output(c.stdout, stdout, c.stderr, stderr),
            );
        },
        _ => {},
    }
}

proof fn lemma_asked(s: SeqView, events: Seq<EventView>)
    requires
        all_asked_for(s.config, s.pending),
    ensures
        all_asked_for(s.config, performed(s, events)),
    decreases events.len(),
{
    if events.len() > 0 && s.pending.len() > 0 {
        let e = events[0];
        let op = s.pending[0];
        let rest = events.skip(1);
        if !fits(op, e) {
            lemma_asked(s, rest);
        } else {
            let at = SeqView { pending: s.pending.skip(1), ..s };
            let first = followers(at, op, e);
            assert(is_asked_for(s.config, op));
            lemma_asked_followers(at, op, e);
            assert(all_asked_for(s.config, at.pending)) by {
                assert forall|i: int| 0 <= i < at.pending.len() implies is_asked_for(
                    s.config,
                    #[trigger] at.pending[i],
                ) by {
                    assert(at.pending[i] == s.pending[i + 1]);
                }
            }
            lemma_asked_concat(s.config, first, at.pending);
            lemma_followers(at, op, e);
            match advanced(s, e) {
                StepView::Continue(t) => {
                    assert(t.config == s.config);
                    lemma_asked(t, rest);
                    lemma_asked_concat(s.config, seq![op], performed(t, rest));
                },
                _ => {},
            }
        }
    }
}

/// Whatever comes of the calls, none is made that the configuration does not ask
/// for, and each is made as it asks for it: the right paths, opened the right way;
/// nothing emptied but a pidfile of its own and output files that are not appended
/// to; nothing for the pidfile, the lock, the output files or the inherited
/// descriptors where they are not configured.
pub proof fn no_call_is_made_unasked(c: ConfigView, n: SignalNumbers, events: Seq<EventView>, i: int)
    requires
        0 <= i < performed(started(c, n), events).len(),
    ensures
        is_asked_for(c, performed(started(c, n), events)[i]),
{
    let fork = fork_calls(c);
    let place = place_calls(c);
    let lock = lock_calls(c);
    let pid = pidfile_calls(c);
    let signals = signal_calls(n);
    let env = env_calls(c.env);
    let output = output_calls(c);
    let close = close_calls(c);
    assert(all_asked_for(c, fork) && all_asked_for(c, place) && all_asked_for(c, lock)
        && all_asked_for(c, pid) && all_asked_for(c, signals) && all_asked_for(c, close));
    assert forall|j: int| 0 <= j < env.len() implies is_asked_for(c, #[trigger] env[j]) by {
        assert(c.env[j] == (c.env[j].0, c.env[j].1));
        assert(c.env.contains((c.env[j].0, c.env[j].1)));
    }
    lemma_asked_redirect(c, false);
    assert(all_asked_for(c, output));
    lemma_asked_concat(c, place, lock);
    lemma_asked_concat(c, place + lock, pid);
    lemma_asked_concat(c, place + lock + pid, signals);
    lemma_asked_concat(c, place + lock + pid + signals, env);
    lemma_asked_concat(c, place + lock + pid + signals + env, output);
    lemma_asked_concat(c, place + lock + pid + signals + env + output, close);
    lemma_asked_concat(c, fork, setup_calls(c, n));
    lemma_asked(started(c, n), events);
}

// ---------------------------------------------------------------------------
// Pipe, lock and pidfile of a daemon
// ---------------------------------------------------------------------------

proof fn lemma_lock_stays(s: SeqView, events: Seq<EventView>)
    requires
        !lock_pending(s.pending),
        run(s, events) is Return,
    ensures
        run(s, events)->Return_0.lock == crate::context::opt_fd(s.lock),
    decreases events.len(),
{
    if s.pending.len() > 0 {
        let rest = lemma_trace_head(s, events);
        let op = s.pending[0];
        let e = trace(s, events)[0].1;
        let at = SeqView { pending: s.pending.skip(1), ..s };
        let first = followers(at, op, e);
        lemma_followers_placed(at, op, e);
        assert(!is_lock_call(op));
        assert(s.pending =~= seq![op] + at.pending);
        lemma_pending_concat(seq![op], at.pending);
        lemma_pending_concat(first, at.pending);
        assert(!lock_pending(first)) by {
            if lock_pending(first) {
                let i = choose|i: int| 0 <= i < first.len() && is_lock_call(#[trigger] first[i]);
                assert(rank(first[i]) == rank(op));
            }
        }
        match advanced(s, e) {
            StepView::Continue(t) => {
                lemma_lock_stays(t, rest);
            },
            _ => {},
        }
    } else if events.len() > 0 {
    }
}

proof fn lemma_pipe_stays(s: SeqView, events: Seq<EventView>)
    requires
        !pipe_pending(s.pending),
        run(s, events) is Return,
    ensures
        run(s, events)->Return_0.pipe == crate::context::opt_fd(s.pipe),
    decreases events.len(),
{
    if s.pending.len() > 0 {
        let rest = lemma_trace_head(s, events);
        let op = s.pending[0];
        let e = trace(s, events)[0].1;
        let at = SeqView { pending: s.pending.skip(1), ..s };
        let first = followers(at, op, e);
        lemma_followers_placed(at, op, e);
        assert(!(op is CreatePipe));
        assert(s.pending =~= seq![op] + at.pending);
        lemma_pending_concat(seq![op], at.pending);
        lemma_pending_concat(first, at.pending);
        assert(!pipe_pending(first)) by {
            if pipe_pending(first) {
                let i = choose|i: int| 0 <= i < first.len() && #[trigger] first[i] is CreatePipe;
                assert(rank(first[i]) == rank(op));
            }
        }
        match advanced(s, e) {
            StepView::Continue(t) => {
                lemma_pipe_stays(t, rest);
            },
            _ => {},
        }
    } else if events.len() > 0 {
    }
}

/// Where a file was opened and locked, and the daemon has the lock.
pub open spec fn lock_is_taken(
    made: Seq<(OpView, EventView)>,
    path: Seq<u8>,
    lock: Option<int>,
) -> bool {
    exists|i: int|
        {
            &&& 0 <= i < made.len() - 1
            &&& (#[trigger] made[i]).0 matches OpView::Open { path: p, .. } && p == path
            &&& made[i].1 matches EventView::Opened(fd) && lock == Some(fd as int) && made[i + 1]
                == (OpView::Flock { fd, path }, EventView::Done)
        }
}

#[verifier::rlimit(50)]
proof fn lemma_lock_is_taken(s: SeqView, events: Seq<EventView>, path: Seq<u8>, at_lock: int)
    requires
        run(s, events) is Return,
        0 <= at_lock < s.pending.len(),
        s.pending[at_lock] matches OpView::Open { path: p, purpose, .. } && p == path
            && purpose is Lock,
        forall|i: int|
            0 <= i < s.pending.len() && i != at_lock ==> !is_lock_call(#[trigger] s.pending[i]),
    ensures
        lock_is_taken(trace(s, events), path, run(s, events)->Return_0.lock),
    decreases events.len(),
{
    let rest = lemma_trace_head(s, events);
    let op = s.pending[0];
    let made = trace(s, events);
    let e = made[0].1;
    let at = SeqView { pending: s.pending.skip(1), ..s };
    let first = followers(at, op, e);
    lemma_followers_placed(at, op, e);
    match advanced(s, e) {
        StepView::Continue(t) => {
            if at_lock == 0 {
                assert(e is Opened);
                let more = lemma_trace_head(t, rest);
                let flock = trace(t, rest)[0];
                let fd = e->Opened_0;
                assert(t.pending[0] == (OpView::Flock { fd, path }));
                assert(made[1] == flock);
                let behind = SeqView { pending: t.pending.skip(1), ..t };
                assert(behind.pending =~= at.pending);
                assert(!lock_pending(at.pending)) by {
                    if lock_pending(at.pending) {
                        let i = choose|i: int|
                            0 <= i < at.pending.len() && is_lock_call(#[trigger] at.pending[i]);
                        assert(s.pending[i + 1] == at.pending[i]);
                    }
                }
                match advanced(t, flock.1) {
                    StepView::Continue(u) => {
                        assert(Seq::<OpView>::empty() + at.pending =~= at.pending);
                        lemma_lock_stays(u, more);
                    },
                    _ => {},
                }
                assert(flock.1 is Done);
                assert(made[0].0 == op && made[1] == (OpView::Flock { fd, path }, EventView::Done));
            } else {
                let k = first.len() + at_lock - 1;
                assert(t.pending[k] == s.pending[at_lock]);
                assert(!is_lock_call(op));
                assert forall|i: int| 0 <= i < t.pending.len() && i != k implies !is_lock_call(
                    #[trigger] t.pending[i],
                ) by {
                    if i < first.len() {
                        assert(t.pending[i] == first[i]);
                        assert(rank(first[i]) == rank(op));
                    } else {
                        assert(t.pending[i] == s.pending[i - first.len() + 1]);
                    }
                }
                lemma_lock_is_taken(t, rest, path, k);
                let tail = trace(t, rest);
                let lock = run(s, events)->Return_0.lock;
                let i = choose|i: int|
                    {
                        &&& 0 <= i < tail.len() - 1
                        &&& (#[trigger] tail[i]).0 matches OpView::Open { path: p, .. } && p == path
                        &&& tail[i].1 matches EventView::Opened(fd) && lock == Some(fd as int)
                            && tail[i + 1] == (OpView::Flock { fd, path }, EventView::Done)
                    };
                assert(made[i + 1] == tail[i] && made[i + 2] == tail[i + 1]);
            }
        },
        _ => {
            assert(at.pending.len() == 0);
            assert((first + at.pending).len() == 0);
        },
    }
}

/// A daemon that has a file to lock has opened that file and locked it, and the
/// descriptor that it got is the lock it holds; a daemon that has none holds no
/// lock and has locked nothing.
pub proof fn a_daemon_has_locked_its_file(c: ConfigView, n: SignalNumbers, events: Seq<EventView>)
    requires
        run(started(c, n), events) is Return,
    ensures
        match file_to_lock(c) {
            Some(path) => lock_is_taken(
                trace(started(c, n), events),
                path,
                run(started(c, n), events)->Return_0.lock,
            ),
            None => run(started(c, n), events)->Return_0.lock is None,
        },
        run(started(c, n), events)->Return_0.config == c,
{
    let s = started(c, n);
    daemon_holds_lock_and_pipe(c, n, events);
    if let Some(path) = file_to_lock(c) {
        let fork = fork_calls(c);
        let place = place_calls(c);
        let tail = pidfile_calls(c) + signal_calls(n) + env_calls(c.env) + output_calls(c)
            + close_calls(c);
        let k = fork.len() + place.len();
        assert(s.pending =~= fork + place + lock_calls(c) + tail);
        lemma_tail_placed(c, n);
        assert(placed(fork, 1, 3));
        assert(placed(place, 4, 6));
        assert(s.pending[k as int] == lock_calls(c)[0]);
        assert forall|i: int| 0 <= i < s.pending.len() && i != k implies !is_lock_call(
            #[trigger] s.pending[i],
        ) by {
            if i < fork.len() {
                assert(s.pending[i] == fork[i]);
                assert(rank(fork[i]) <= 3);
            } else if i < k {
                assert(s.pending[i] == place[i - fork.len()]);
                assert(rank(place[i - fork.len()]) <= 6);
            } else {
                assert(s.pending[i] == tail[i - k - 1]);
                assert(rank(tail[i - k - 1]) >= 8);
            }
        }
        lemma_lock_is_taken(s, events, path, k as int);
    }
}

#[verifier::rlimit(50)]
proof fn lemma_session_and_fork(s: SeqView, events: Seq<EventView>, setup: Seq<OpView>, umask: int)
    requires
        run(s, events) is Return,
        s.pending == seq![OpView::Setsid, OpView::SecondFork] + setup,
        setup.len() > 0,
        setup[0] == OpView::SetUmask(umask),
    ensures
        trace(s, events).len() > 2,
        trace(s, events)[0] == (OpView::Setsid, EventView::Done),
        trace(s, events)[1] == (OpView::SecondFork, EventView::Child),
        trace(s, events)[2] == (OpView::SetUmask(umask), EventView::Done),
{
    let made = trace(s, events);
    let a = lemma_trace_head(s, events);
    assert(made[0].1 is Done);
    let t = advanced(s, made[0].1)->Continue_0;
    assert(t.pending =~= s.pending.skip(1));
    let b = lemma_trace_head(t, a);
    let m1 = trace(t, a);
    assert(made[1] == m1[0]);
    assert(t.pending[0] == OpView::SecondFork);
    assert(m1[0].1 is Child);
    let u = advanced(t, m1[0].1)->Continue_0;
    assert(u.pending =~= setup);
    let d = lemma_trace_head(u, b);
    assert(made[2] == trace(u, b)[0]);
}

#[verifier::rlimit(50)]
proof fn lemma_fork_and_close(
    s: SeqView,
    events: Seq<EventView>,
    setup: Seq<OpView>,
    umask: int,
    read: i32,
)
    requires
        run(s, events) is Return,
        s.pending == seq![OpView::FirstFork, OpView::Setsid, OpView::SecondFork] + setup,
        s.pipe_read == Some(read),
        setup.len() > 0,
        setup[0] == OpView::SetUmask(umask),
    ensures
        trace(s, events).len() > 4,
        trace(s, events)[0] == (OpView::FirstFork, EventView::Child),
        trace(s, events)[1] == (OpView::CloseEnd(read), EventView::Done),
        trace(s, events)[2] == (OpView::Setsid, EventView::Done),
        trace(s, events)[3] == (OpView::SecondFork, EventView::Child),
        trace(s, events)[4] == (OpView::SetUmask(umask), EventView::Done),
{
    let made = trace(s, events);
    let a = lemma_trace_head(s, events);
    assert(made[0].1 is Child);
    let t = advanced(s, made[0].1)->Continue_0;
    assert(t.pending =~= seq![OpView::CloseEnd(read)] + s.pending.skip(1));
    let b = lemma_trace_head(t, a);
    let m1 = trace(t, a);
    assert(made[1] == m1[0]);
    let u = advanced(t, m1[0].1)->Continue_0;
    assert(u.pending =~= seq![OpView::Setsid, OpView::SecondFork] + setup);
    lemma_session_and_fork(u, b, setup, umask);
    let m2 = trace(u, b);
    assert(made[2] == m2[0] && made[3] == m2[1] && made[4] == m2[2]);
}

/// A daemon in the background was forked off twice, with a session of its own made
/// in between. What it tells its parent goes to the write end of the pipe that was
/// made first, and it has closed the read end.
pub proof fn a_daemon_is_forked_twice(c: ConfigView, n: SignalNumbers, events: Seq<EventView>)
    requires
        !c.foreground,
        run(started(c, n), events) is Return,
    ensures
        ({
            let made = trace(started(c, n), events);
            let context = run(started(c, n), events)->Return_0;
            &&& made.len() > 5
            &&& made[0].0 is CreatePipe
            &&& made[0].1 matches EventView::Pipe { read, write } && context.pipe == Some(
                write as int,
            ) && made[2].0 == OpView::CloseEnd(read)
            &&& made[1] == (OpView::FirstFork, EventView::Child)
            &&& made[2].1 is Done
            &&& made[3] == (OpView::Setsid, EventView::Done)
            &&& made[4] == (OpView::SecondFork, EventView::Child)
            &&& made[5] == (OpView::SetUmask(c.umask), EventView::Done)
        }),
{
    let s = started(c, n);
    let setup = setup_calls(c, n);
    assert(setup[0] == OpView::SetUmask(c.umask));
    let a = lemma_trace_head(s, events);
    let made = trace(s, events);
    assert(s.pending[0] == OpView::CreatePipe);
    let t = advanced(s, made[0].1)->Continue_0;
    assert(t.pending =~= seq![OpView::FirstFork, OpView::Setsid, OpView::SecondFork] + setup);
    lemma_fork_and_close(t, a, setup, c.umask, made[0].1->read);
    let m1 = trace(t, a);
    assert(made[1] == m1[0] && made[2] == m1[1] && made[3] == m1[2] && made[4] == m1[3] && made[5]
        == m1[4]);
    lemma_no_second_pipe(c, n);
    assert(t.pending =~= s.pending.skip(1));
    lemma_pipe_stays(t, a);
}

proof fn lemma_no_second_pipe(c: ConfigView, n: SignalNumbers)
    requires
        !c.foreground,
    ensures
        !pipe_pending(started(c, n).pending.skip(1)),
{
    let p = started(c, n).pending;
    let rest = p.skip(1);
    lemma_start_order(c, n);
    if pipe_pending(rest) {
        let i = choose|i: int| 0 <= i < rest.len() && #[trigger] rest[i] is CreatePipe;
        assert(rest[i] == p[i + 1]);
        assert(p[4] == OpView::SetUmask(c.umask));
        if i >= 3 {
            assert(i > 3 ==> rank(p[4]) <= rank(p[i + 1]));
        }
    }
}

/// Whether a pidfile is the locked file: by their canonical forms where both have
/// one, else by their spelling.
pub open spec fn is_locked_file(
    pidfile: Seq<u8>,
    pidfile_canonical: Option<Seq<u8>>,
    lockfile: Option<Seq<u8>>,
    lockfile_canonical: Option<Seq<u8>>,
) -> bool {
    match lockfile {
        None => false,
        Some(path) => if pidfile_canonical is Some && lockfile_canonical is Some {
            pidfile_canonical == lockfile_canonical
        } else {
            pidfile == path
        },
    }
}

/// Where the process id was asked for and written to the pidfile, in decimal and
/// with a newline: through the lock, after the file was emptied, where the pidfile
/// is the locked file; else after it was opened and thereby emptied.
pub open spec fn pid_is_written_at(
    made: Seq<(OpView, EventView)>,
    i: int,
    pidfile: Seq<u8>,
    lockfile: Option<Seq<u8>>,
    lock: Option<int>,
) -> bool {
    &&& 0 <= i < made.len() - 2
    &&& made[i].0 is QueryPidfile
    &&& made[i].1 matches EventView::Pidfile { pid, pidfile: canonical, lockfile: lock_canonical }
        && {
        let bytes = encode_utf8(numeral(pid as nat, 10) + seq!['\n']);
        if is_locked_file(pidfile, canonical, lockfile, lock_canonical) {
            &&& i + 3 < made.len()
            &&& lock matches Some(fd) && made[i + 1] == (
                OpView::SeekStart(fd as i32),
                EventView::Done,
            ) && made[i + 2] == (OpView::Truncate(fd as i32), EventView::Done) && made[i + 3] == (
                OpView::Write { fd: fd as i32, bytes, file: None },
                EventView::Done,
            )
        } else {
            &&& made[i + 1].0 matches OpView::Open { path, flags, .. } && path == pidfile
                && flags.create && flags.truncate && !flags.append
            &&& made[i + 1].1 matches EventView::Opened(fd) && made[i + 2] == (
                OpView::Write { fd, bytes, file: Some(pidfile) },
                EventView::Done,
            )
        }
    }
}

/// Whether the process id was written to the pidfile.
pub open spec fn pid_is_written(
    made: Seq<(OpView, EventView)>,
    pidfile: Seq<u8>,
    lockfile: Option<Seq<u8>>,
    lock: Option<int>,
) -> bool {
    exists|i: int| #[trigger] pid_is_written_at(made, i, pidfile, lockfile, lock)
}

/// What is done after the process id was told, in the two cases.
#[verifier::rlimit(50)]
proof fn lemma_pid_through_lock(
    s: SeqView,
    events: Seq<EventView>,
    fd: i32,
    bytes: Seq<u8>,
    behind: Seq<OpView>,
)
    requires
        run(s, events) is Return,
        s.pending == seq![
            OpView::SeekStart(fd),
            OpView::Truncate(fd),
            OpView::Write { fd, bytes, file: None },
        ] + behind,
    ensures
        trace(s, events).len() >= 3,
        trace(s, events)[0] == (OpView::SeekStart(fd), EventView::Done),
        trace(s, events)[1] == (OpView::Truncate(fd), EventView::Done),
        trace(s, events)[2] == (OpView::Write { fd, bytes, file: None }, EventView::Done),
{
    let made = trace(s, events);
    let a = lemma_trace_head(s, events);
    assert(made[0].1 is Done);
    let t = advanced(s, made[0].1)->Continue_0;
    assert(t.pending =~= s.pending.skip(1));
    let b = lemma_trace_head(t, a);
    let m1 = trace(t, a);
    assert(made[1] == m1[0]);
    assert(t.pending[0] == OpView::Truncate(fd));
    assert(m1[0].1 is Done);
    let u = advanced(t, m1[0].1)->Continue_0;
    assert(u.pending =~= s.pending.skip(2));
    let d = lemma_trace_head(u, b);
    assert(made[2] == trace(u, b)[0]);
    assert(u.pending[0] is Write);
    assert(trace(u, b)[0].1 is Done);
}

#[verifier::rlimit(50)]
proof fn lemma_pid_through_file(
    s: SeqView,
    events: Seq<EventView>,
    pidfile: Seq<u8>,
    pid: u32,
    behind: Seq<OpView>,
)
    requires
        run(s, events) is Return,
        s.pending == pid_calls(pidfile, pid, None) + behind,
    ensures
        trace(s, events).len() >= 2,
        trace(s, events)[0].0 == pid_calls(pidfile, pid, None)[0],
        trace(s, events)[0].1 matches EventView::Opened(fd) && trace(s, events)[1] == (
            OpView::Write { fd, bytes: pidfile_content(pid), file: Some(pidfile) },
            EventView::Done,
        ),
{
    let made = trace(s, events);
    let a = lemma_trace_head(s, events);
    assert(s.pending[0] == pid_calls(pidfile, pid, None)[0]);
    assert(made[0].1 is Opened);
    let t = advanced(s, made[0].1)->Continue_0;
    assert(t.pending[0] is Write);
    let b = lemma_trace_head(t, a);
    assert(made[1] == trace(t, a)[0]);
    assert(trace(t, a)[0].1 is Done);
}

#[verifier::rlimit(50)]
proof fn lemma_pid_written_now(s: SeqView, events: Seq<EventView>, pidfile: Seq<u8>)
    requires
        run(s, events) is Return,
        s.pending.len() > 0,
        s.pending[0] == (OpView::QueryPidfile { pidfile, lockfile: file_to_lock(s.config) }),
        !lock_pending(s.pending),
        file_to_lock(s.config) is Some <==> s.lock is Some,
    ensures
        pid_is_written_at(
            trace(s, events),
            0,
            pidfile,
            file_to_lock(s.config),
            run(s, events)->Return_0.lock,
        ),
{
    lemma_lock_stays(s, events);
    let made = trace(s, events);
    let lockfile = file_to_lock(s.config);
    let a = lemma_trace_head(s, events);
    let behind = s.pending.skip(1);
    match made[0].1 {
        EventView::Pidfile { pid, pidfile: pc, lockfile: lc } => {
            let t = advanced(s, made[0].1)->Continue_0;
            let tail = trace(t, a);
            assert("\n"@ =~= seq!['\n']) by {
                reveal_strlit("\n");
            }
            let shared = shared_lock(s.lock, pidfile, pc, lockfile, lc);
            assert(t.pending == pid_calls(pidfile, pid, shared) + behind);
            assert(forall|i: int| 0 <= i < tail.len() ==> made[i + 1] == #[trigger] tail[i]);
            if is_locked_file(pidfile, pc, lockfile, lc) {
                let fd = s.lock->0;
                assert(shared == Some(fd));
                lemma_pid_through_lock(t, a, fd, pidfile_content(pid), behind);
                assert(made[1] == tail[0] && made[2] == tail[1] && made[3] == tail[2]);
            } else {
                assert(shared is None);
                lemma_pid_through_file(t, a, pidfile, pid, behind);
                assert(made[1] == tail[0] && made[2] == tail[1]);
            }
        },
        _ => {},
    }
}

#[verifier::rlimit(50)]
proof fn lemma_pid_written(s: SeqView, events: Seq<EventView>, pidfile: Seq<u8>, k: int)
    requires
        run(s, events) is Return,
        holding(s),
        in_order(s.pending),
        0 <= k < s.pending.len(),
        s.pending[k] == (OpView::QueryPidfile { pidfile, lockfile: file_to_lock(s.config) }),
    ensures
        pid_is_written(
            trace(s, events),
            pidfile,
            file_to_lock(s.config),
            run(s, events)->Return_0.lock,
        ),
    decreases events.len(),
{
    if k == 0 {
        assert(!lock_pending(s.pending)) by {
            if lock_pending(s.pending) {
                let i = choose|i: int|
                    0 <= i < s.pending.len() && is_lock_call(#[trigger] s.pending[i]);
                assert(rank(s.pending[i]) == 7);
                assert(i > 0 ==> rank(s.pending[0]) <= rank(s.pending[i]));
            }
        }
        lemma_pid_written_now(s, events, pidfile);
    } else {
        let rest = lemma_trace_head(s, events);
        let made = trace(s, events);
        let e = made[0].1;
        let at = SeqView { pending: s.pending.skip(1), ..s };
        let first = followers(at, s.pending[0], e);
        lemma_holding_step(s, e);
        lemma_step_order(s, e);
        match advanced(s, e) {
            StepView::Continue(t) => {
                assert(t.pending[first.len() + k - 1] == s.pending[k]);
                lemma_pid_written(t, rest, pidfile, first.len() + k - 1);
                let tail = trace(t, rest);
                let lockfile = file_to_lock(s.config);
                let lock = run(s, events)->Return_0.lock;
                let i = choose|i: int| #[trigger] pid_is_written_at(tail, i, pidfile, lockfile, lock);
                assert forall|j: int| 0 <= j < tail.len() implies made[j + 1] == tail[j] by {}
                assert(made[i + 1] == tail[i]);
                assert(made[i + 2] == tail[i + 1]);
                assert(made[i + 3] == tail[i + 2]);
                assert(i + 3 < tail.len() ==> made[i + 4] == tail[i + 3]);
                assert(pid_is_written_at(made, i + 1, pidfile, lockfile, lock));
            },
            _ => {
                assert((first + at.pending).len() == 0);
            },
        }
    }
}

/// A daemon with a pidfile has written its process id to it, whatever the lockfile
/// and whether or not it is in the foreground: the number that it was told, in
/// decimal and with a newline, to an empty file.
pub proof fn a_daemon_has_written_its_pid(
    c: ConfigView,
    n: SignalNumbers,
    events: Seq<EventView>,
    pidfile: Seq<u8>,
)
    requires
        c.pidfile == Some(pidfile),
        run(started(c, n), events) is Return,
    ensures
        pid_is_written(
            trace(started(c, n), events),
            pidfile,
            file_to_lock(c),
            run(started(c, n), events)->Return_0.lock,
        ),
{
    let s = started(c, n);
    lemma_start_holding(c, n);
    lemma_start_order(c, n);
    let k = fork_calls(c).len() + place_calls(c).len() + lock_calls(c).len();
    assert(s.pending =~= fork_calls(c) + place_calls(c) + lock_calls(c) + pidfile_calls(c) + (
    signal_calls(n) + env_calls(c.env) + output_calls(c) + close_calls(c)));
    assert(s.pending[k as int] == pidfile_calls(c)[0]);
    lemma_pid_written(s, events, pidfile, k as int);
}

} // verus!
