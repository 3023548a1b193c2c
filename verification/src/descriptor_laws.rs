//! Which descriptors a daemon has open, and where they lead.

use vstd::prelude::*;
use vstd::utf8::*;
use crate::calls::{DupReason, EventView, OpView, OpenPurpose};
use crate::config::ConfigView;
use crate::context::{new_context, opt_fd, ContextView};
use crate::fds::{closable, listed_fds, listing_closes_all_but_kept};
use crate::output::{redirect_to, same_output, stderr_action};
use crate::sequence::{
    advanced, after, close_calls, devnull_dup, env_calls, fits, fork_calls,
    kept_fds, lock_calls, opt_one, output_calls, pidfile_calls, place_calls,
    redirect_calls, signal_calls, started, stream_calls, SeqView, StepView,
};
use crate::sequence_laws::{
    followers, lemma_followers, lemma_followers_placed, lemma_waiting_never_returns, rank, run,
};
use crate::signals::SignalNumbers;

verus! {

/// What a descriptor leads to.
pub enum Source {
    /// What was open before the start.
    Inherited(int),
    /// The file at a path, as it was opened after `nth` others.
    File { path: Seq<u8>, nth: nat },
    /// One end of the notification pipe.
    PipeEnd,
}

/// The open descriptors of a process.
pub struct Table {
    pub open: Map<i32, Source>,
    /// How many files have been opened.
    pub count: nat,
}

/// The open descriptors after `e` came of `op`.
pub open spec fn table_after(t: Table, op: OpView, e: EventView) -> Table {
    match (op, e) {
        (OpView::CreatePipe, EventView::Pipe { read, write }) => Table {
            open: t.open.insert(read, Source::PipeEnd).insert(write, Source::PipeEnd),
            ..t
        },
        (OpView::Open { path, .. }, EventView::Opened(fd)) => Table {
            open: t.open.insert(fd, Source::File { path, nth: t.count }),
            count: t.count + 1,
        },
        (OpView::Dup2 { source, target, .. }, EventView::Done) => Table {
            open: t.open.insert(target, t.open[source]),
            ..t
        },
        (OpView::Release { fd, close, .. }, EventView::Done) => if close {
            Table { open: t.open.remove(fd), ..t }
        } else {
            t
        },
        (OpView::CloseEnd(fd), EventView::Done) => Table { open: t.open.remove(fd), ..t },
        (OpView::CloseFds(fds), EventView::Done) => Table {
            open: t.open.remove_keys(Set::new(|fd: i32| fds.contains(fd))),
            ..t
        },
        (OpView::CloseRange { max_fd, skip }, EventView::Done) => Table {
            open: t.open.remove_keys(Set::new(|fd: i32| 3 <= fd < max_fd && !skip.contains(fd))),
            ..t
        },
        _ => t,
    }
}

/// Whether the descriptors that `e` brings are different and were not open before.
pub open spec fn fresh(t: Table, e: EventView) -> bool {
    match e {
        EventView::Pipe { read, write } => {
            &&& read != write
            &&& !t.open.contains_key(read)
            &&& !t.open.contains_key(write)
        },
        EventView::Opened(fd) => !t.open.contains_key(fd),
        _ => true,
    }
}

/// The open descriptors when `events` have come of the calls.
pub open spec fn table_run(s: SeqView, t: Table, events: Seq<EventView>) -> Table
    decreases events.len(),
{
    if events.len() == 0 || s.pending.len() == 0 {
        t
    } else if !fits(s.pending[0], events[0]) {
        table_run(s, t, events.skip(1))
    } else {
        let u = table_after(t, s.pending[0], events[0]);
        match advanced(s, events[0]) {
            StepView::Continue(r) => table_run(r, u, events.skip(1)),
            _ => u,
        }
    }
}

/// Whether every descriptor that was opened was not open before.
pub open spec fn all_fresh(s: SeqView, t: Table, events: Seq<EventView>) -> bool
    decreases events.len(),
{
    if events.len() == 0 || s.pending.len() == 0 {
        true
    } else if !fits(s.pending[0], events[0]) {
        all_fresh(s, t, events.skip(1))
    } else {
        &&& fresh(t, events[0])
        &&& match advanced(s, events[0]) {
            StepView::Continue(r) => all_fresh(
                r,
                table_after(t, s.pending[0], events[0]),
                events.skip(1),
            ),
            _ => true,
        }
    }
}

/// Whether it was found that stdout and stderr go to the same file.
pub open spec fn found_same(s: SeqView, events: Seq<EventView>) -> bool
    decreases events.len(),
{
    if events.len() == 0 || s.pending.len() == 0 {
        false
    } else if !fits(s.pending[0], events[0]) {
        found_same(s, events.skip(1))
    } else {
        match (s.pending[0], events[0]) {
            (OpView::QueryOutputs { .. }, EventView::Outputs { stdout, stderr }) => same_output(
                s.config.stdout,
                stdout,
                s.config.stderr,
                stderr,
            ),
            _ => match advanced(s, events[0]) {
                StepView::Continue(r) => found_same(r, events.skip(1)),
                _ => false,
            },
        }
    }
}

/// Whether a descriptor is a standard stream.
pub open spec fn is_stream(fd: i32) -> bool {
    0 <= fd <= 2
}

/// Where a stream is to lead.
pub enum Goal {
    /// Where it led before.
    Same,
    /// To this file.
    Path(Seq<u8>),
    /// Where stdout leads.
    Stdout,
}

/// Where a stream without a file of its own is to lead.
pub open spec fn default_goal(c: ConfigView) -> Goal {
    if c.foreground {
        Goal::Same
    } else {
        Goal::Path(encode_utf8("/dev/null"@))
    }
}

/// Where a stream with a file or none is to lead.
pub open spec fn file_goal(c: ConfigView, file: Option<Seq<u8>>) -> Goal {
    match file {
        Some(p) => Goal::Path(p),
        None => default_goal(c),
    }
}

/// Where a standard stream is to lead: stdin to `/dev/null`; stdout and stderr to
/// their files, and without one to `/dev/null`, or in the foreground where they
/// led before. If both have the same file, stderr leads where stdout leads.
pub open spec fn goal(c: ConfigView, same: bool, stream: i32) -> Goal {
    if stream == 0 {
        Goal::Path(encode_utf8("/dev/null"@))
    } else if stream == 1 {
        file_goal(c, c.stdout)
    } else if same && c.stdout is Some && c.stderr is Some {
        Goal::Stdout
    } else {
        file_goal(c, c.stderr)
    }
}

/// Whether a stream leads where it is to lead, given the descriptors before the
/// start. A stream that is to lead where it led before may have been closed before.
pub open spec fn leads_to(before: Table, t: Table, stream: i32, g: Goal) -> bool {
    match g {
        Goal::Same => before.open.contains_key(stream) ==> {
            &&& t.open.contains_key(stream)
            &&& t.open[stream] == before.open[stream]
        },
        Goal::Path(p) => {
            &&& t.open.contains_key(stream)
            &&& t.open[stream] matches Source::File { path, .. } && path == p
        },
        Goal::Stdout => {
            &&& t.open.contains_key(stream)
            &&& t.open.contains_key(1)
            &&& t.open[stream] == t.open[1]
        },
    }
}

// ---------------------------------------------------------------------------
// What the pending calls will do to a stream
// ---------------------------------------------------------------------------

/// What a call does to a stream.
enum Plan {
    /// Nothing.
    Keep,
    /// Lead it to this file.
    Path(Seq<u8>),
    /// Lead it where stdout leads.
    Stdout,
    /// Close it.
    Close,
}

/// What is to be done to a stream for it to lead where it is to lead.
spec fn plan(g: Goal) -> Plan {
    match g {
        Goal::Same => Plan::Keep,
        Goal::Path(p) => Plan::Path(p),
        Goal::Stdout => Plan::Stdout,
    }
}

spec fn effect(t: Table, c: ConfigView, same: bool, op: OpView, stream: i32) -> Plan {
    match op {
        OpView::Open { path, purpose, .. } => match purpose {
            OpenPurpose::DevNull => if stream == 0 || !c.foreground {
                Plan::Path(path)
            } else {
                Plan::Keep
            },
            OpenPurpose::Output(target) => if stream == target {
                Plan::Path(path)
            } else {
                Plan::Keep
            },
            _ => Plan::Keep,
        },
        OpView::Dup2 { source, target, reason } => if target != stream {
            Plan::Keep
        } else if reason is Share {
            Plan::Stdout
        } else {
            Plan::Path(t.open[source]->path)
        },
        OpView::QueryOutputs { .. } => if stream == 1 || stream == 2 {
            match goal(c, same, stream) {
                Goal::Stdout => Plan::Stdout,
                _ => match (if stream == 1 {
                    c.stdout
                } else {
                    c.stderr
                }) {
                    Some(p) => Plan::Path(p),
                    None => Plan::Keep,
                },
            }
        } else {
            Plan::Keep
        },
        OpView::Release { fd, close, .. } => if close && fd == stream {
            Plan::Close
        } else {
            Plan::Keep
        },
        OpView::CloseEnd(fd) => if fd == stream {
            Plan::Close
        } else {
            Plan::Keep
        },
        _ => Plan::Keep,
    }
}

spec fn outlook(t: Table, c: ConfigView, same: bool, ops: Seq<OpView>, stream: i32) -> Plan
    decreases ops.len(),
{
    if ops.len() == 0 {
        Plan::Keep
    } else {
        let later = outlook(t, c, same, ops.skip(1), stream);
        if later is Keep {
            effect(t, c, same, ops[0], stream)
        } else {
            later
        }
    }
}

proof fn lemma_outlook_concat(
    t: Table,
    c: ConfigView,
    same: bool,
    a: Seq<OpView>,
    b: Seq<OpView>,
    stream: i32,
)
    ensures
        outlook(t, c, same, a + b, stream) == (if outlook(t, c, same, b, stream) is Keep {
            outlook(t, c, same, a, stream)
        } else {
            outlook(t, c, same, b, stream)
        }),
    decreases a.len(),
{
    if a.len() == 0 {
        assert(a + b =~= b);
    } else {
        assert((a + b)[0] == a[0]);
        assert((a + b).skip(1) =~= a.skip(1) + b);
        lemma_outlook_concat(t, c, same, a.skip(1), b, stream);
    }
}

proof fn lemma_outlook_none(
    t: Table,
    c: ConfigView,
    same: bool,
    ops: Seq<OpView>,
    stream: i32,
)
    requires
        forall|i: int| 0 <= i < ops.len() ==> effect(t, c, same, #[trigger] ops[i], stream) is Keep,
    ensures
        outlook(t, c, same, ops, stream) is Keep,
    decreases ops.len(),
{
    if ops.len() > 0 {
        assert(effect(t, c, same, ops[0], stream) is Keep);
        assert forall|i: int| 0 <= i < ops.skip(1).len() implies effect(
            t,
            c,
            same,
            #[trigger] ops.skip(1)[i],
            stream,
        ) is Keep by {
            assert(ops.skip(1)[i] == ops[i + 1]);
        }
        lemma_outlook_none(t, c, same, ops.skip(1), stream);
    }
}

/// The outlook depends on the descriptors that are duplicated only.
proof fn lemma_outlook_table(
    t: Table,
    u: Table,
    c: ConfigView,
    same: bool,
    ops: Seq<OpView>,
    stream: i32,
)
    requires
        forall|i: int|
            0 <= i < ops.len() ==> ((#[trigger] ops[i]) matches OpView::Dup2 { source, reason, .. }
                ==> reason is Share || t.open[source] == u.open[source]),
    ensures
        outlook(t, c, same, ops, stream) == outlook(u, c, same, ops, stream),
    decreases ops.len(),
{
    if ops.len() > 0 {
        assert(ops[0] == ops[0]);
        let rest = ops.skip(1);
        assert forall|i: int| 0 <= i < rest.len() implies ((#[trigger] rest[i]) matches OpView::Dup2 {
            source,
            reason,
            ..
        } ==> reason is Share || t.open[source] == u.open[source]) by {
            assert(rest[i] == ops[i + 1]);
        }
        lemma_outlook_table(t, u, c, same, rest, stream);
    }
}

proof fn lemma_outlook_one(t: Table, c: ConfigView, same: bool, op: OpView, stream: i32)
    ensures
        outlook(t, c, same, seq![op], stream) == effect(t, c, same, op, stream),
{
    assert(seq![op].skip(1).len() == 0);
    assert(outlook(t, c, same, seq![op].skip(1), stream) is Keep);
}

// ---------------------------------------------------------------------------
// What holds of the pending calls
// ---------------------------------------------------------------------------

/// A call on a descriptor that is open for a short while.
spec fn is_short(op: OpView) -> bool {
    match op {
        OpView::Dup2 { reason, .. } => !(reason is Share),
        OpView::Release { .. } => true,
        OpView::Write { file, .. } => file is Some,
        _ => false,
    }
}

spec fn is_share(op: OpView) -> bool {
    op matches OpView::Dup2 { reason, .. } && reason is Share
}

/// A call that leaves the streams alone.
spec fn is_stream_free(op: OpView) -> bool {
    match op {
        OpView::Dup2 { .. } => false,
        OpView::Release { .. } => false,
        OpView::CloseEnd(_) => false,
        OpView::QueryOutputs { .. } => false,
        OpView::Open { purpose, .. } => !(purpose is DevNull) && !(purpose is Output),
        _ => true,
    }
}

spec fn sound_op(temp: Option<i32>, t: Table, op: OpView) -> bool {
    match op {
        OpView::Dup2 { source, target, reason } => if reason is Share {
            source == 1 && target == 2
        } else {
            &&& is_stream(target)
            &&& temp == Some(source)
            &&& source != target
            &&& t.open.contains_key(source)
            &&& t.open[source] is File
        },
        OpView::Release { fd, .. } => temp == Some(fd),
        OpView::CloseFds(fds) => !fds.contains(0) && !fds.contains(1) && !fds.contains(2),
        OpView::Open { purpose, .. } => purpose matches OpenPurpose::Output(target) ==> target == 1
            || target == 2,
        _ => true,
    }
}

spec fn all_sound(temp: Option<i32>, t: Table, ops: Seq<OpView>) -> bool {
    forall|i: int| 0 <= i < ops.len() ==> sound_op(temp, t, #[trigger] ops[i])
}

/// Short calls come first, up to the one that releases the descriptor; what is
/// done with the output files comes last.
spec fn arranged(ops: Seq<OpView>) -> bool {
    forall|i: int, j: int|
        #![trigger ops[i], ops[j]]
        0 <= i < j < ops.len() ==> {
            &&& is_short(ops[j]) ==> is_short(ops[i])
            &&& ops[i] is Release ==> !is_short(ops[j])
            &&& ops[i] is QueryOutputs || is_share(ops[i]) ==> is_stream_free(ops[j])
        }
}

/// The process forks right after it created the pipe.
spec fn forks_after_pipe(ops: Seq<OpView>) -> bool {
    forall|i: int|
        0 <= i < ops.len() && (#[trigger] ops[i]) is CreatePipe ==> {
            &&& i == 0
            &&& ops.len() > 1
            &&& ops[1] is FirstFork
        }
}

spec fn steady(s: SeqView, t: Table) -> bool {
    &&& s.pipe_read is Some ==> s.pending.len() > 0 && s.pending[0] is FirstFork
    &&& forks_after_pipe(s.pending)
    &&& all_sound(s.temp, t, s.pending)
    &&& arranged(s.pending)
}

/// Nothing is asked of a stream that was closed and is to lead where it led.
spec fn vacuous(before: Table, c: ConfigView, same: bool, stream: i32) -> bool {
    goal(c, same, stream) is Same && !before.open.contains_key(stream)
}

spec fn on_course(
    before: Table,
    t: Table,
    s: SeqView,
    same: bool,
    stream: i32,
) -> bool {
    let c = s.config;
    let g = outlook(t, c, same, s.pending, stream);
    ||| vacuous(before, c, same, stream)
    ||| if g is Keep {
        &&& leads_to(before, t, stream, goal(c, same, stream))
        &&& goal(c, same, stream) is Stdout ==> outlook(t, c, same, s.pending, 1) is Keep
        &&& s.pipe_read != Some(stream)
    } else {
        g == plan(goal(c, same, stream))
    }
}

proof fn lemma_devnull_outlook(
    t: Table,
    c: ConfigView,
    same: bool,
    fd: i32,
    target: i32,
    stream: i32,
)
    ensures
        outlook(t, c, same, devnull_dup(fd, target), stream) == (if target == stream && fd
            != stream {
            Plan::Path(t.open[fd]->path)
        } else {
            Plan::Keep
        }),
{
    lemma_outlook_one(
        t,
        c,
        same,
        OpView::Dup2 { source: fd, target, reason: DupReason::DevNull },
        stream,
    );
}

/// What becomes pending does to a stream what the call was to do.
proof fn lemma_followers_outlook(
    s: SeqView,
    t: Table,
    same: bool,
    op: OpView,
    e: EventView,
    stream: i32,
)
    requires
        is_stream(stream),
        fits(op, e),
        e != EventView::Opened(stream),
        !(op is FirstFork && s.pipe_read == Some(stream)),
        !(op is Dup2) && !(op is Release) && !(op is CloseEnd),
        !(e is Failed),
        op is QueryOutputs ==> (e matches EventView::Outputs { stdout, stderr } && same
            == same_output(s.config.stdout, stdout, s.config.stderr, stderr)),
    ensures
        outlook(table_after(t, op, e), s.config, same, followers(s, op, e), stream) == effect(
            t,
            s.config,
            same,
            op,
            stream,
        ),
{
    let c = s.config;
    let u = table_after(t, op, e);
    let first = followers(s, op, e);
    match (op, e) {
        (OpView::Open { path, purpose, .. }, EventView::Opened(fd)) => {
            match purpose {
                OpenPurpose::DevNull => {
                    let d0 = devnull_dup(fd, 0);
                    let d1 = devnull_dup(fd, 1);
                    let d2 = devnull_dup(fd, 2);
                    let last = OpView::Release {
                        fd,
                        close: fd > 2,
                        purpose: OpenPurpose::DevNull,
                    };
                    lemma_devnull_outlook(u, c, same, fd, 0, stream);
                    lemma_devnull_outlook(u, c, same, fd, 1, stream);
                    lemma_devnull_outlook(u, c, same, fd, 2, stream);
                    lemma_outlook_one(u, c, same, last, stream);
                    if c.foreground {
                        assert(first =~= d0 + seq![last]);
                        lemma_outlook_concat(u, c, same, d0, seq![last], stream);
                    } else {
                        assert(first =~= d0 + d1 + d2 + seq![last]);
                        lemma_outlook_concat(u, c, same, d0, d1, stream);
                        lemma_outlook_concat(u, c, same, d0 + d1, d2, stream);
                        lemma_outlook_concat(u, c, same, d0 + d1 + d2, seq![last], stream);
                    }
                },
                OpenPurpose::Output(target) => {
                    let d = OpView::Dup2 { source: fd, target, reason: DupReason::Output };
                    let last = OpView::Release {
                        fd,
                        close: fd != target,
                        purpose: OpenPurpose::Output(target),
                    };
                    lemma_outlook_one(u, c, same, d, stream);
                    lemma_outlook_one(u, c, same, last, stream);
                    if fd == target {
                        assert(stream != target);
                        assert(first =~= seq![last]);
                    } else {
                        assert(first =~= seq![d] + seq![last]);
                        lemma_outlook_concat(u, c, same, seq![d], seq![last], stream);
                    }
                },
                _ => lemma_outlook_none(u, c, same, first, stream),
            }
        },
        (OpView::QueryOutputs { .. }, EventView::Outputs { .. }) => {
            lemma_redirect_outlook(u, c, same, same, stream);
        },
        _ => lemma_outlook_none(u, c, same, first, stream),
    }
}

/// What the calls for the output files do to a stream.
proof fn lemma_redirect_outlook(t: Table, c: ConfigView, same: bool, shared: bool, stream: i32)
    requires
        is_stream(stream),
        shared ==> same && c.stdout is Some && c.stderr is Some,
    ensures
        outlook(t, c, same, redirect_calls(c, shared), stream) == (if stream == 1
            && c.stdout is Some {
            Plan::Path(c.stdout->0)
        } else if stream == 2 && shared {
            Plan::Stdout
        } else if stream == 2 && c.stderr is Some {
            Plan::Path(c.stderr->0)
        } else {
            Plan::Keep
        }),
{
    let a = stream_calls(redirect_to(c.stdout, c.append, 1));
    let b = stream_calls(stderr_action(shared, c.stderr, c.append));
    lemma_outlook_concat(t, c, same, a, b, stream);
    if a.len() > 0 {
        assert(a =~= seq![a[0]]);
        lemma_outlook_one(t, c, same, a[0], stream);
    }
    if b.len() > 0 {
        assert(b =~= seq![b[0]]);
        lemma_outlook_one(t, c, same, b[0], stream);
    }
}

/// Without short calls neither the descriptor that is open for a short while nor
/// the table matters.
proof fn lemma_sound_without_short(
    temp: Option<i32>,
    t: Table,
    other: Option<i32>,
    u: Table,
    ops: Seq<OpView>,
)
    requires
        all_sound(temp, t, ops),
        forall|i: int| 0 <= i < ops.len() ==> !is_short(#[trigger] ops[i]),
    ensures
        all_sound(other, u, ops),
{
    assert forall|i: int| 0 <= i < ops.len() implies sound_op(other, u, #[trigger] ops[i]) by {
        assert(sound_op(temp, t, ops[i]) && !is_short(ops[i]));
    }
}

proof fn lemma_sound_concat(temp: Option<i32>, t: Table, a: Seq<OpView>, b: Seq<OpView>)
    requires
        all_sound(temp, t, a),
        all_sound(temp, t, b),
    ensures
        all_sound(temp, t, a + b),
{
    let c = a + b;
    assert forall|i: int| 0 <= i < c.len() implies sound_op(temp, t, #[trigger] c[i]) by {
        if i < a.len() {
            assert(c[i] == a[i]);
        } else {
            assert(c[i] == b[i - a.len()]);
        }
    }
}

proof fn lemma_arranged_concat(a: Seq<OpView>, b: Seq<OpView>)
    requires
        arranged(a),
        arranged(b),
        forall|i: int| 0 <= i < b.len() ==> !is_short(#[trigger] b[i]),
        (forall|i: int| 0 <= i < a.len() ==> !((#[trigger] a[i]) is QueryOutputs) && !is_share(a[i]))
            || (forall|i: int| 0 <= i < b.len() ==> is_stream_free(#[trigger] b[i])),
    ensures
        arranged(a + b),
{
    let c = a + b;
    assert forall|i: int, j: int|
        #![trigger c[i], c[j]]
        0 <= i < j < c.len() implies {
        &&& is_short(c[j]) ==> is_short(c[i])
        &&& c[i] is Release ==> !is_short(c[j])
        &&& c[i] is QueryOutputs || is_share(c[i]) ==> is_stream_free(c[j])
    } by {
        if j < a.len() {
            assert(c[i] == a[i] && c[j] == a[j]);
        } else if i < a.len() {
            assert(c[i] == a[i] && c[j] == b[j - a.len()]);
        } else {
            assert(c[i] == b[i - a.len()] && c[j] == b[j - a.len()]);
        }
    }
}

/// What becomes pending is sound and arranged.
proof fn lemma_followers_steady(s: SeqView, t: Table, op: OpView, e: EventView)
    requires
        sound_op(s.temp, t, op),
        fits(op, e),
    ensures
        (op is Open && e is Opened ==> all_sound(
            Some(e->Opened_0),
            table_after(t, op, e),
            followers(s, op, e),
        )),
        !(op is Open && e is Opened) ==> (forall|temp: Option<i32>, u: Table| #[trigger]
            all_sound(temp, u, followers(s, op, e))),
        arranged(followers(s, op, e)),
        !(op is QueryOutputs) ==> (forall|i: int|
            0 <= i < followers(s, op, e).len() ==> !((#[trigger] followers(s, op, e)[i])
                is QueryOutputs) && !is_share(followers(s, op, e)[i])),
        is_short(op) ==> followers(s, op, e).len() == 0,
        forall|i: int|
            0 <= i < followers(s, op, e).len() ==> !((#[trigger] followers(s, op, e)[i])
                is CreatePipe),
{
    let first = followers(s, op, e);
    match (op, e) {
        (OpView::Open { purpose, .. }, EventView::Opened(fd)) => {
            match purpose {
                OpenPurpose::DevNull => {
                    assert(devnull_dup(fd, 0).len() <= 1 && devnull_dup(fd, 1).len() <= 1
                        && devnull_dup(fd, 2).len() <= 1);
                },
                _ => {},
            }
        },
        (OpView::ListFds, EventView::Fds(Some(names))) => {
            listing_closes_all_but_kept(listed_fds(names), kept_fds(s), 0);
            listing_closes_all_but_kept(listed_fds(names), kept_fds(s), 1);
            listing_closes_all_but_kept(listed_fds(names), kept_fds(s), 2);
        },
        _ => {},
    }
}

/// A call leaves the pending calls sound and arranged.
proof fn lemma_steady_step(s: SeqView, t: Table, e: EventView)
    requires
        steady(s, t),
        s.pending.len() > 0,
        fits(s.pending[0], e),
        !(s.pending[0] is FirstFork && e is Parent),
    ensures
        advanced(s, e) matches StepView::Continue(r) ==> steady(r, table_after(t, s.pending[0], e)),
{
    let op = s.pending[0];
    let rest = s.pending.skip(1);
    let u = table_after(t, op, e);
    let at = SeqView { pending: rest, ..s };
    let first = followers(at, op, e);
    assert(sound_op(s.temp, t, op));
    lemma_followers(at, op, e);
    lemma_followers_steady(at, t, op, e);
    assert(arranged(rest)) by {
        assert forall|i: int, j: int|
            #![trigger rest[i], rest[j]]
            0 <= i < j < rest.len() implies {
            &&& is_short(rest[j]) ==> is_short(rest[i])
            &&& rest[i] is Release ==> !is_short(rest[j])
            &&& rest[i] is QueryOutputs || is_share(rest[i]) ==> is_stream_free(rest[j])
        } by {
            assert(rest[i] == s.pending[i + 1] && rest[j] == s.pending[j + 1]);
        }
    }
    assert(all_sound(s.temp, t, rest)) by {
        assert forall|i: int| 0 <= i < rest.len() implies sound_op(
            s.temp,
            t,
            #[trigger] rest[i],
        ) by {
            assert(rest[i] == s.pending[i + 1]);
        }
    }
    match advanced(s, e) {
        StepView::Continue(r) => {
            assert(r.pending == first + rest);
            assert forall|i: int| 0 <= i < r.pending.len() implies !((#[trigger] r.pending[i])
                is CreatePipe) by {
                if i < first.len() {
                    assert(r.pending[i] == first[i]);
                } else {
                    assert(r.pending[i] == s.pending[i - first.len() + 1]);
                }
            }
            if op is CreatePipe && e is Pipe {
                assert(s.pending[0] is CreatePipe);
                assert(r.pending[0] == s.pending[1]);
            }
            if is_short(op) && !(op is Release) {
                assert(r.temp == s.temp);
                assert(all_sound(s.temp, u, rest)) by {
                    assert forall|i: int| 0 <= i < rest.len() implies sound_op(
                        s.temp,
                        u,
                        #[trigger] rest[i],
                    ) by {
                        assert(sound_op(s.temp, t, rest[i]));
                    }
                }
                assert(first + rest =~= rest);
            } else {
                assert forall|i: int| 0 <= i < rest.len() implies !is_short(#[trigger] rest[i]) by {
                    assert(rest[i] == s.pending[i + 1]);
                    assert(s.pending[0] == op);
                }
                if op is QueryOutputs {
                    assert forall|i: int| 0 <= i < rest.len() implies is_stream_free(
                        #[trigger] rest[i],
                    ) by {
                        assert(rest[i] == s.pending[i + 1]);
                        assert(s.pending[0] == op);
                    }
                }
                lemma_sound_without_short(s.temp, t, r.temp, u, rest);
                lemma_arranged_concat(first, rest);
                assert(all_sound(r.temp, u, first));
                lemma_sound_concat(r.temp, u, first, rest);
            }
        },
        _ => {},
    }
}

/// A call that does nothing to an open stream leaves it where it leads.
proof fn lemma_stream_kept(s: SeqView, t: Table, same: bool, e: EventView, stream: i32)
    requires
        sound_op(s.temp, t, s.pending[0]),
        fresh(t, e),
        is_stream(stream),
        t.open.contains_key(stream),
        effect(t, s.config, same, s.pending[0], stream) is Keep,
    ensures
        table_after(t, s.pending[0], e).open[stream] == t.open[stream],
        table_after(t, s.pending[0], e).open.contains_key(stream),
{
}

/// What is pending after a call does to a stream what was pending before, but for
/// what the call did.
proof fn lemma_outlook_step(
    s: SeqView,
    t: Table,
    same: bool,
    e: EventView,
    stream: i32,
)
    requires
        steady(s, t),
        s.pending.len() > 0,
        fits(s.pending[0], e),
        e is Failed ==> effect(t, s.config, same, s.pending[0], stream) is Keep,
        !(s.pending[0] is FirstFork && e is Parent),
        is_stream(stream),
        s.pending[0] is QueryOutputs ==> (e matches EventView::Outputs { stdout, stderr } && same
            == same_output(s.config.stdout, stdout, s.config.stderr, stderr)),
    ensures
        ({
            let op = s.pending[0];
            let rest = s.pending.skip(1);
            let at = SeqView { pending: rest, ..s };
            let first = followers(at, op, e);
            let u = table_after(t, op, e);
            let c = s.config;
            let later = outlook(t, c, same, rest, stream);
            &&& outlook(t, c, same, s.pending, stream) == (if later is Keep {
                effect(t, c, same, op, stream)
            } else {
                later
            })
            &&& outlook(u, c, same, first + rest, stream) == (if later is Keep {
                outlook(u, c, same, first, stream)
            } else {
                later
            })
            &&& op is Dup2 || op is Release || op is CloseEnd ==> first.len() == 0
            &&& !(op is Dup2 || op is Release || op is CloseEnd) && e != EventView::Opened(stream)
                && !(op is FirstFork && s.pipe_read == Some(stream)) ==> outlook(
                u,
                c,
                same,
                first,
                stream,
            ) == effect(t, c, same, op, stream)
        }),
{
    let c = s.config;
    let op = s.pending[0];
    let rest = s.pending.skip(1);
    let u = table_after(t, op, e);
    let at = SeqView { pending: rest, ..s };
    let first = followers(at, op, e);
    assert(sound_op(s.temp, t, op));
    assert forall|i: int| 0 <= i < rest.len() implies ((#[trigger] rest[i]) matches OpView::Dup2 {
        source,
        reason,
        ..
    } ==> reason is Share || t.open[source] == u.open[source]) by {
        assert(rest[i] == s.pending[i + 1]);
        assert(sound_op(s.temp, t, rest[i]));
        assert(is_short(rest[i]) ==> is_short(s.pending[0]) && !(s.pending[0] is Release));
    }
    lemma_outlook_table(t, u, c, same, rest, stream);
    lemma_outlook_concat(u, c, same, first, rest, stream);
    if !(op is Dup2 || op is Release || op is CloseEnd) && e != EventView::Opened(stream) && !(
    op is FirstFork && s.pipe_read == Some(stream)) {
        if e is Failed {
            lemma_outlook_none(u, c, same, first, stream);
        } else {
            lemma_followers_outlook(at, t, same, op, e, stream);
        }
    }
}

/// After a stream's file was opened under the number of the stream, nothing more
/// is done to the stream.
proof fn lemma_opened_in_place(s: SeqView, t: Table, same: bool, op: OpView, stream: i32)
    requires
        is_stream(stream),
        op is Open,
        !(effect(t, s.config, same, op, stream) is Keep),
    ensures
        ({
            let e = EventView::Opened(stream);
            let u = table_after(t, op, e);
            &&& outlook(u, s.config, same, followers(s, op, e), stream) is Keep
            &&& u.open.contains_key(stream)
            &&& u.open[stream] matches Source::File { path, .. } && effect(
                t,
                s.config,
                same,
                op,
                stream,
            ) == Plan::Path(path)
        }),
{
    let c = s.config;
    let e = EventView::Opened(stream);
    let u = table_after(t, op, e);
    let first = followers(s, op, e);
    if let OpView::Open { purpose, .. } = op {
        if purpose is DevNull {
            assert(devnull_dup(stream, 0).len() <= 1 && devnull_dup(stream, 1).len() <= 1
                && devnull_dup(stream, 2).len() <= 1);
        }
    }
    lemma_outlook_none(u, c, same, first, stream);
}

/// A call leaves a stream on its course.
proof fn lemma_course_step(
    before: Table,
    s: SeqView,
    t: Table,
    same: bool,
    e: EventView,
    stream: i32,
)
    requires
        steady(s, t),
        s.pending.len() > 0,
        fits(s.pending[0], e),
        fresh(t, e),
        !(e is Failed) || (advanced(s, e) is Continue || advanced(s, e) is Return),
        !(s.pending[0] is FirstFork && e is Parent),
        is_stream(stream),
        on_course(before, t, s, same, stream),
        on_course(before, t, s, same, 1),
        s.pending[0] is QueryOutputs ==> (e matches EventView::Outputs { stdout, stderr } && same
            == same_output(s.config.stdout, stdout, s.config.stderr, stderr)),
    ensures
        ({
            let at = SeqView { pending: s.pending.skip(1), ..s };
            let op = s.pending[0];
            on_course(
                before,
                table_after(t, op, e),
                SeqView { pending: followers(at, op, e) + at.pending, ..moved(at, op, e) },
                same,
                stream,
            )
        }),
{
    let c = s.config;
    let op = s.pending[0];
    let rest = s.pending.skip(1);
    let u = table_after(t, op, e);
    let at = SeqView { pending: rest, ..s };
    let first = followers(at, op, e);
    let later = outlook(t, c, same, rest, stream);
    assert(sound_op(s.temp, t, op));
    if !vacuous(before, c, same, stream) {
        lemma_outlook_step(s, t, same, e, stream);
        lemma_outlook_step(s, t, same, e, 1);
        if later is Keep {
            if effect(t, c, same, op, stream) is Keep {
                assert(t.open.contains_key(stream));
                lemma_stream_kept(s, t, same, e, stream);
                if goal(c, same, stream) is Stdout {
                    assert(t.open.contains_key(1));
                    lemma_stream_kept(s, t, same, e, 1);
                }
            } else if e == EventView::Opened(stream) {
                lemma_opened_in_place(at, t, same, op, stream);
            } else if is_share(op) {
                assert forall|i: int| 0 <= i < rest.len() implies effect(
                    t,
                    c,
                    same,
                    #[trigger] rest[i],
                    1,
                ) is Keep by {
                    assert(rest[i] == s.pending[i + 1]);
                    assert(is_share(s.pending[0]));
                    assert(is_stream_free(rest[i]));
                }
                lemma_outlook_none(t, c, same, rest, 1);
            }
        }
    }
}

/// The calls before those for the output files.
spec fn early_calls(c: ConfigView, n: SignalNumbers) -> Seq<OpView> {
    fork_calls(c) + place_calls(c) + lock_calls(c) + pidfile_calls(c) + signal_calls(n)
        + env_calls(c.env)
}

proof fn lemma_start_split(c: ConfigView, n: SignalNumbers)
    ensures
        started(c, n).pending == early_calls(c, n) + (output_calls(c) + close_calls(c)),
{
    assert(started(c, n).pending =~= early_calls(c, n) + (output_calls(c) + close_calls(c)));
}

proof fn lemma_start_prompt(c: ConfigView, n: SignalNumbers)
    ensures
        forall|i: int|
            0 <= i < started(c, n).pending.len() ==> !is_prompt(
                #[trigger] started(c, n).pending[i],
            ),
{
    let early = early_calls(c, n);
    let late = output_calls(c) + close_calls(c);
    lemma_start_split(c, n);
    assert forall|i: int| 0 <= i < early.len() implies !is_prompt(#[trigger] early[i]) by {}
    assert forall|i: int| 0 <= i < late.len() implies !is_prompt(#[trigger] late[i]) by {}
}

proof fn lemma_start_steady(c: ConfigView, n: SignalNumbers, t: Table)
    ensures
        steady(started(c, n), t),
{
    let early = early_calls(c, n);
    let late = output_calls(c) + close_calls(c);
    lemma_start_split(c, n);
    assert forall|i: int| 0 <= i < early.len() implies sound_op(None, t, #[trigger] early[i])
        && !is_short(early[i]) && !(early[i] is QueryOutputs) && !is_share(early[i]) by {}
    assert forall|i: int| 0 <= i < late.len() implies sound_op(None, t, #[trigger] late[i])
        && !is_short(late[i]) by {}
    assert(arranged(early));
    assert(arranged(late));
    lemma_arranged_concat(early, late);
    lemma_sound_concat(None, t, early, late);
    let p = started(c, n).pending;
    assert forall|i: int| 0 <= i < p.len() && (#[trigger] p[i]) is CreatePipe implies {
        &&& i == 0
        &&& p.len() > 1
        &&& p[1] is FirstFork
    } by {}
}

proof fn lemma_start_course(c: ConfigView, n: SignalNumbers, t: Table, same: bool, stream: i32)
    requires
        is_stream(stream),
    ensures
        on_course(t, t, started(c, n), same, stream),
{
    let fork = fork_calls(c);
    let place = place_calls(c);
    let rest = lock_calls(c) + pidfile_calls(c) + signal_calls(n) + env_calls(c.env);
    let output = output_calls(c);
    let close = close_calls(c);
    let late = output + close;
    lemma_start_split(c, n);
    assert(early_calls(c, n) =~= fork + place + rest);
    lemma_outlook_none(t, c, same, close, stream);
    lemma_outlook_none(t, c, same, rest, stream);
    lemma_outlook_none(t, c, same, fork, stream);
    lemma_outlook_concat(t, c, same, output, close, stream);
    lemma_outlook_concat(t, c, same, fork + place, rest, stream);
    lemma_outlook_concat(t, c, same, fork, place, stream);
    lemma_outlook_concat(t, c, same, fork + place + rest, late, stream);
    assert(place =~= seq![place[0]] + seq![place[1]] + seq![place[2]]);
    lemma_outlook_concat(t, c, same, seq![place[0]], seq![place[1]], stream);
    lemma_outlook_concat(t, c, same, seq![place[0]] + seq![place[1]], seq![place[2]], stream);
    lemma_outlook_one(t, c, same, place[0], stream);
    lemma_outlook_one(t, c, same, place[1], stream);
    lemma_outlook_one(t, c, same, place[2], stream);
    if c.stdout is Some && c.stderr is Some {
        assert(output =~= seq![output[0]]);
        lemma_outlook_one(t, c, same, output[0], stream);
    } else {
        lemma_redirect_outlook(t, c, same, false, stream);
    }
}

spec fn asks_outputs(ops: Seq<OpView>) -> bool {
    exists|i: int| 0 <= i < ops.len() && (#[trigger] ops[i]) is QueryOutputs
}

proof fn lemma_streams(
    before: Table,
    s: SeqView,
    t: Table,
    same: bool,
    events: Seq<EventView>,
    stream: i32,
)
    requires
        steady(s, t),
        is_stream(stream),
        on_course(before, t, s, same, stream),
        on_course(before, t, s, same, 1),
        all_fresh(s, t, events),
        asks_outputs(s.pending) ==> found_same(s, events) == same,
        run(s, events) is Return,
    ensures
        leads_to(before, table_run(s, t, events), stream, goal(s.config, same, stream)),
    decreases events.len(),
{
    if s.pending.len() > 0 {
        let e = events[0];
        let rest_events = events.skip(1);
        let op = s.pending[0];
        let rest = s.pending.skip(1);
        let at = SeqView { pending: rest, ..s };
        let first = followers(at, op, e);
        if !fits(op, e) {
            lemma_streams(before, s, t, same, rest_events, stream);
        } else if op is FirstFork && e is Parent {
            match advanced(s, e) {
                StepView::Continue(r) => lemma_waiting_never_returns(r, rest_events),
                _ => {},
            }
        } else {
            if op is QueryOutputs {
                assert(asks_outputs(s.pending));
            }
            lemma_followers(at, op, e);
            lemma_moved(at, op, e);
            lemma_followers_steady(at, t, op, e);
            lemma_steady_step(s, t, e);
            lemma_course_step(before, s, t, same, e, stream);
            lemma_course_step(before, s, t, same, e, 1);
            match advanced(s, e) {
                StepView::Continue(r) => {
                    if asks_outputs(r.pending) {
                        let i = choose|i: int|
                            0 <= i < r.pending.len() && (#[trigger] r.pending[i]) is QueryOutputs;
                        assert(r.pending[i] == (first + rest)[i]);
                        if i < first.len() {
                            assert(first[i] is QueryOutputs);
                        } else {
                            assert(rest[i - first.len()] == s.pending[i - first.len() + 1]);
                            assert(asks_outputs(s.pending));
                        }
                    }
                    lemma_streams(
                        before,
                        r,
                        table_after(t, op, e),
                        same,
                        rest_events,
                        stream,
                    );
                },
                _ => {},
            }
        }
    }
}

/// Whatever a process was configured with, and whatever descriptors it inherited,
/// standard streams among them or not: once it is a daemon, stdin leads to
/// `/dev/null`; stdout and stderr lead to their files, and without one to
/// `/dev/null`, or in the foreground where they led before; and if both were found
/// to have the same file, they share one open file. This rests on the host opening
/// files under descriptors that are not open.
pub proof fn streams_lead_where_configured(
    c: ConfigView,
    n: SignalNumbers,
    t: Table,
    events: Seq<EventView>,
    stream: i32,
)
    requires
        all_fresh(started(c, n), t, events),
        run(started(c, n), events) is Return,
        is_stream(stream),
    ensures
        leads_to(
            t,
            table_run(started(c, n), t, events),
            stream,
            goal(c, found_same(started(c, n), events), stream),
        ),
{
    let same = found_same(started(c, n), events);
    lemma_start_steady(c, n, t);
    lemma_start_course(c, n, t, same, stream);
    lemma_start_course(c, n, t, same, 1);
    lemma_streams(t, started(c, n), t, same, events, stream);
}

// ---------------------------------------------------------------------------
// The lock and the pipe
// ---------------------------------------------------------------------------

/// A call that is made as soon as it is pending.
spec fn is_prompt(op: OpView) -> bool {
    op is Flock || op is CloseEnd || op is CloseFds || op is CloseRange
}

/// Whether a call leaves the lock and the pipe open, or locks the lockfile.
spec fn kept_op(s: SeqView, t: Table, op: OpView) -> bool {
    match op {
        OpView::Open { path, purpose, .. } => purpose is Lock ==> s.config.effective_lockfile()
            == Some(path),
        OpView::Flock { fd, path } => {
            &&& s.config.effective_lockfile() == Some(path)
            &&& t.open.contains_key(fd)
            &&& t.open[fd] matches Source::File { path: p, .. } && p == path
        },
        OpView::Release { fd, .. } => !is_stream(fd) ==> s.lock != Some(fd) && s.pipe != Some(fd),
        OpView::CloseEnd(fd) => s.lock != Some(fd) && s.pipe != Some(fd),
        OpView::CloseFds(fds) => {
            &&& s.lock matches Some(fd) ==> !fds.contains(fd)
            &&& s.pipe matches Some(fd) ==> !fds.contains(fd)
        },
        OpView::CloseRange { skip, .. } => {
            &&& s.lock matches Some(fd) ==> skip.contains(fd)
            &&& s.pipe matches Some(fd) ==> skip.contains(fd)
        },
        _ => true,
    }
}

spec fn all_kept(s: SeqView, t: Table, ops: Seq<OpView>) -> bool {
    forall|i: int| 0 <= i < ops.len() ==> kept_op(s, t, #[trigger] ops[i])
}

/// The pipe is created before anything is locked, and then the process forks.
spec fn pipe_first(s: SeqView) -> bool {
    forall|i: int|
        0 <= i < s.pending.len() && (#[trigger] s.pending[i]) is CreatePipe ==> {
            &&& i == 0
            &&& s.lock is None
            &&& s.pending.len() > 1
            &&& s.pending[1] is FirstFork
        }
}

spec fn prompt_first(ops: Seq<OpView>) -> bool {
    forall|i: int| 0 < i < ops.len() ==> !is_prompt(#[trigger] ops[i])
}

/// Whether the lock and the pipe are open, the lock on the lockfile. Nothing is
/// said of one under the number of a standard stream.
pub open spec fn lock_and_pipe_open(
    c: ConfigView,
    t: Table,
    lock: Option<i32>,
    pipe: Option<i32>,
) -> bool {
    &&& lock matches Some(fd) ==> is_stream(fd) || {
        &&& t.open.contains_key(fd)
        &&& t.open[fd] matches Source::File { path, .. } && c.effective_lockfile() == Some(path)
    }
    &&& pipe matches Some(fd) ==> is_stream(fd) || {
        &&& t.open.contains_key(fd)
        &&& t.open[fd] is PipeEnd
    }
}

/// Whether the lock and the pipe of a context are open, the lock on the lockfile.
/// Nothing is said of one under the number of a standard stream.
pub open spec fn keeps_open(context: ContextView, t: Table) -> bool {
    exists|lock: Option<i32>, pipe: Option<i32>|
        {
            &&& context.lock == opt_fd(lock)
            &&& context.pipe == opt_fd(pipe)
            &&& #[trigger] lock_and_pipe_open(context.config, t, lock, pipe)
        }
}

spec fn keeping(s: SeqView, t: Table) -> bool {
    &&& lock_and_pipe_open(s.config, t, s.lock, s.pipe)
    &&& s.pipe_read matches Some(fd) ==> {
        &&& s.pipe != Some(fd)
        &&& s.lock is None
        &&& s.pending.len() > 0 && s.pending[0] is FirstFork
    }
    &&& all_kept(s, t, s.pending)
    &&& prompt_first(s.pending)
    &&& pipe_first(s)
}

/// The state in which `e` came of `op`, apart from what becomes pending.
spec fn moved(s: SeqView, op: OpView, e: EventView) -> SeqView {
    match (op, e) {
        (OpView::CreatePipe, EventView::Pipe { read, write }) => SeqView {
            pipe_read: Some(read),
            pipe: Some(write),
            ..s
        },
        (OpView::FirstFork, EventView::Child) => SeqView { pipe_read: None, ..s },
        (OpView::Open { .. }, EventView::Opened(fd)) => SeqView { temp: Some(fd), ..s },
        (OpView::Release { .. }, EventView::Done) => SeqView { temp: None, ..s },
        (OpView::Flock { fd, .. }, EventView::Done) => SeqView {
            lock: Some(fd),
            temp: None,
            ..s
        },
        _ => s,
    }
}

proof fn lemma_moved(s: SeqView, op: OpView, e: EventView)
    requires
        fits(op, e),
        !(op is FirstFork && e is Parent),
    ensures
        match after(s, op, e) {
            StepView::Continue(r) => r == (SeqView {
                pending: followers(s, op, e) + s.pending,
                ..moved(s, op, e)
            }),
            StepView::Return(context) => context == new_context(
                s.config,
                opt_fd(moved(s, op, e).lock),
                opt_fd(moved(s, op, e).pipe),
            ),
            _ => true,
        },
{
    assert(Seq::<OpView>::empty() + s.pending =~= s.pending);
}

/// What becomes pending leaves the lock and the pipe open.
proof fn lemma_followers_keep(s: SeqView, t: Table, op: OpView, e: EventView)
    requires
        lock_and_pipe_open(s.config, t, s.lock, s.pipe),
        s.pipe_read matches Some(fd) ==> s.pipe != Some(fd) && s.lock is None,
        kept_op(s, t, op),
        fits(op, e),
        fresh(t, e),
    ensures
        all_kept(moved(s, op, e), table_after(t, op, e), followers(s, op, e)),
        forall|i: int|
            0 <= i < followers(s, op, e).len() ==> !((#[trigger] followers(s, op, e)[i])
                is CreatePipe),
        prompt_first(followers(s, op, e)),
        followers(s, op, e).len() > 0 && is_prompt(followers(s, op, e)[0]) ==> followers(
            s,
            op,
            e,
        ).len() == 1,
{
    let first = followers(s, op, e);
    match (op, e) {
        (OpView::Open { purpose, .. }, EventView::Opened(fd)) => {
            if purpose is DevNull {
                assert(devnull_dup(fd, 0).len() <= 1 && devnull_dup(fd, 1).len() <= 1
                    && devnull_dup(fd, 2).len() <= 1);
            }
        },
        (OpView::ListFds, EventView::Fds(Some(names))) => {
            let kept = kept_fds(s);
            if let Some(fd) = s.lock {
                listing_closes_all_but_kept(listed_fds(names), kept, fd);
                assert(kept[0] == fd);
            }
            if let Some(fd) = s.pipe {
                listing_closes_all_but_kept(listed_fds(names), kept, fd);
                assert(kept[opt_one(s.lock).len() as int] == fd);
            }
        },
        (OpView::QueryFdLimit, EventView::Limit(_)) => {
            let kept = kept_fds(s);
            if let Some(fd) = s.lock {
                assert(kept[0] == fd);
            }
            if let Some(fd) = s.pipe {
                assert(kept[opt_one(s.lock).len() as int] == fd);
            }
        },
        _ => {},
    }
}

/// A call leaves the lock and the pipe open.
proof fn lemma_keeping_step(s: SeqView, t: Table, e: EventView)
    requires
        steady(s, t),
        keeping(s, t),
        s.pending.len() > 0,
        fits(s.pending[0], e),
        fresh(t, e),
        !(s.pending[0] is FirstFork && e is Parent),
        advanced(s, e) is Continue || advanced(s, e) is Return,
    ensures
        ({
            let at = SeqView { pending: s.pending.skip(1), ..s };
            let op = s.pending[0];
            keeping(
                SeqView { pending: followers(at, op, e) + at.pending, ..moved(at, op, e) },
                table_after(t, op, e),
            )
        }),
{
    let op = s.pending[0];
    let rest = s.pending.skip(1);
    let u = table_after(t, op, e);
    let at = SeqView { pending: rest, ..s };
    let m = moved(at, op, e);
    let first = followers(at, op, e);
    let all = first + rest;
    assert(sound_op(s.temp, t, op));
    assert(kept_op(s, t, op));
    assert forall|i: int| 0 <= i < rest.len() implies kept_op(s, t, #[trigger] rest[i])
        && !is_prompt(rest[i]) && (is_short(rest[i]) ==> is_short(op) && !(op is Release)) by {
        assert(rest[i] == s.pending[i + 1]);
        assert(s.pending[0] == op);
    }
    lemma_followers_keep(at, t, op, e);
    assert forall|i: int| 0 <= i < all.len() implies !((#[trigger] all[i]) is CreatePipe) by {
        if i < first.len() {
            assert(all[i] == first[i]);
        } else {
            assert(all[i] == rest[i - first.len()]);
            assert(all[i] == s.pending[i - first.len() + 1]);
        }
    }
    if op is CreatePipe && e is Pipe {
        assert(s.pending[0] is CreatePipe);
        assert(first.len() == 0);
        assert(all[0] == s.pending[1]);
    }
    assert(lock_and_pipe_open(m.config, u, m.lock, m.pipe));
    assert forall|i: int| 0 <= i < rest.len() implies kept_op(m, u, #[trigger] rest[i]) by {
        assert(kept_op(s, t, rest[i]));
    }
    assert forall|i: int| 0 <= i < all.len() implies kept_op(
        SeqView { pending: all, ..m },
        u,
        #[trigger] all[i],
    ) by {
        if i < first.len() {
            assert(all[i] == first[i]);
            assert(kept_op(m, u, first[i]));
        } else {
            assert(all[i] == rest[i - first.len()]);
            assert(kept_op(m, u, rest[i - first.len()]));
        }
    }
    assert forall|i: int| 0 < i < all.len() implies !is_prompt(#[trigger] all[i]) by {
        if i < first.len() {
            assert(all[i] == first[i]);
        } else {
            assert(all[i] == rest[i - first.len()]);
        }
    }
}

proof fn lemma_keeping(s: SeqView, t: Table, events: Seq<EventView>)
    requires
        steady(s, t),
        keeping(s, t),
        s.pending.len() > 0,
        all_fresh(s, t, events),
    ensures
        run(s, events) matches StepView::Return(context) ==> keeps_open(
            context,
            table_run(s, t, events),
        ) && context.config == s.config,
    decreases events.len(),
{
    if events.len() > 0 {
        let e = events[0];
        let op = s.pending[0];
        let at = SeqView { pending: s.pending.skip(1), ..s };
        let u = table_after(t, op, e);
        if !fits(op, e) {
            lemma_keeping(s, t, events.skip(1));
        } else if op is FirstFork && e is Parent {
            match advanced(s, e) {
                StepView::Continue(r) => lemma_waiting_never_returns(r, events.skip(1)),
                _ => {},
            }
        } else {
            lemma_steady_step(s, t, e);
            lemma_moved(at, op, e);
            let m = moved(at, op, e);
            match advanced(s, e) {
                StepView::Continue(r) => {
                    lemma_keeping_step(s, t, e);
                    lemma_keeping(r, u, events.skip(1));
                },
                StepView::Return(context) => {
                    lemma_keeping_step(s, t, e);
                    assert(lock_and_pipe_open(context.config, u, m.lock, m.pipe));
                },
                _ => {},
            }
        }
    }
}

/// However descriptors are closed and streams redirected: a daemon's lock is
/// still open, on the lockfile, and so is its pipe, where they do not have the
/// number of a standard stream. This rests on the host opening files under
/// descriptors that are not open.
pub proof fn lock_and_pipe_stay_open(
    c: ConfigView,
    n: SignalNumbers,
    t: Table,
    events: Seq<EventView>,
)
    requires
        all_fresh(started(c, n), t, events),
    ensures
        run(started(c, n), events) matches StepView::Return(context) ==> keeps_open(
            context,
            table_run(started(c, n), t, events),
        ),
{
    let s = started(c, n);
    lemma_start_steady(c, n, t);
    lemma_start_split(c, n);
    assert(s.pending[fork_calls(c).len() as int] == OpView::SetUmask(c.umask));
    assert forall|i: int| 0 <= i < s.pending.len() implies kept_op(s, t, #[trigger] s.pending[i])
        && !is_prompt(s.pending[i]) && (s.pending[i] is CreatePipe ==> i == 0) by {}
    if !c.foreground {
        assert(s.pending[1] is FirstFork);
    }
    lemma_keeping(s, t, events);
}

// ---------------------------------------------------------------------------
// The numbers of the lock and the pipe
// ---------------------------------------------------------------------------

/// Whether all standard streams are open.
pub open spec fn streams_open(t: Table) -> bool {
    t.open.contains_key(0) && t.open.contains_key(1) && t.open.contains_key(2)
}

/// Whether neither the lock nor the pipe of a context has the number of a
/// standard stream.
pub open spec fn apart_from_streams(context: ContextView) -> bool {
    &&& context.lock matches Some(fd) ==> fd < 0 || fd > 2
    &&& context.pipe matches Some(fd) ==> fd < 0 || fd > 2
}

spec fn is_apart(fd: Option<i32>) -> bool {
    fd matches Some(n) ==> n < 0 || n > 2
}

spec fn all_apart(s: SeqView, t: Table) -> bool {
    &&& streams_open(t)
    &&& is_apart(s.lock)
    &&& is_apart(s.pipe)
    &&& is_apart(s.pipe_read)
    &&& is_apart(s.temp)
    &&& forall|i: int|
        0 <= i < s.pending.len() ==> match #[trigger] s.pending[i] {
            OpView::Flock { fd, .. } => is_apart(Some(fd)),
            OpView::CloseEnd(fd) => is_apart(Some(fd)),
            _ => true,
        }
}

proof fn lemma_apart_step(s: SeqView, t: Table, e: EventView)
    requires
        steady(s, t),
        all_apart(s, t),
        s.pending.len() > 0,
        fits(s.pending[0], e),
        fresh(t, e),
        !(s.pending[0] is FirstFork && e is Parent),
    ensures
        ({
            let at = SeqView { pending: s.pending.skip(1), ..s };
            let op = s.pending[0];
            all_apart(
                SeqView { pending: followers(at, op, e) + at.pending, ..moved(at, op, e) },
                table_after(t, op, e),
            )
        }),
{
    let op = s.pending[0];
    let rest = s.pending.skip(1);
    let at = SeqView { pending: rest, ..s };
    let first = followers(at, op, e);
    let all = first + rest;
    assert(sound_op(s.temp, t, op));
    if let (OpView::Open { purpose, .. }, EventView::Opened(fd)) = (op, e) {
        assert(devnull_dup(fd, 0).len() <= 1 && devnull_dup(fd, 1).len() <= 1 && devnull_dup(
            fd,
            2,
        ).len() <= 1);
    }
    assert forall|i: int| 0 <= i < all.len() implies match #[trigger] all[i] {
        OpView::Flock { fd, .. } => is_apart(Some(fd)),
        OpView::CloseEnd(fd) => is_apart(Some(fd)),
        _ => true,
    } by {
        if i < first.len() {
            assert(all[i] == first[i]);
        } else {
            assert(all[i] == s.pending[i - first.len() + 1]);
        }
    }
}

proof fn lemma_apart(s: SeqView, t: Table, events: Seq<EventView>)
    requires
        steady(s, t),
        all_apart(s, t),
        all_fresh(s, t, events),
    ensures
        run(s, events) matches StepView::Return(context) ==> apart_from_streams(context),
    decreases events.len(),
{
    if events.len() > 0 && s.pending.len() > 0 {
        let e = events[0];
        let op = s.pending[0];
        let at = SeqView { pending: s.pending.skip(1), ..s };
        if !fits(op, e) {
            lemma_apart(s, t, events.skip(1));
        } else if op is FirstFork && e is Parent {
            match advanced(s, e) {
                StepView::Continue(r) => lemma_waiting_never_returns(r, events.skip(1)),
                _ => {},
            }
        } else {
            lemma_steady_step(s, t, e);
            lemma_apart_step(s, t, e);
            lemma_moved(at, op, e);
            match advanced(s, e) {
                StepView::Continue(r) => lemma_apart(r, table_after(t, op, e), events.skip(1)),
                _ => {},
            }
        }
    }
}

/// Where the standard streams are open at the start, neither the lock nor the
/// pipe gets the number of one. This rests on the host opening files under
/// descriptors that are not open.
pub proof fn lock_and_pipe_are_no_streams(
    c: ConfigView,
    n: SignalNumbers,
    t: Table,
    events: Seq<EventView>,
)
    requires
        streams_open(t),
        all_fresh(started(c, n), t, events),
    ensures
        run(started(c, n), events) matches StepView::Return(context) ==> apart_from_streams(
            context,
        ),
{
    let s = started(c, n);
    lemma_start_steady(c, n, t);
    lemma_start_prompt(c, n);
    assert forall|i: int| 0 <= i < s.pending.len() implies !((#[trigger] s.pending[i]) is Flock)
        && !(s.pending[i] is CloseEnd) by {
        assert(!is_prompt(s.pending[i]));
    }
    lemma_apart(s, t, events);
}

// ---------------------------------------------------------------------------
// Inherited descriptors
// ---------------------------------------------------------------------------

/// Whether what `e` tells of the open descriptors covers all of them.
pub open spec fn covers(t: Table, e: EventView) -> bool {
    match e {
        EventView::Fds(Some(names)) => forall|fd: i32| #[trigger]
            t.open.contains_key(fd) ==> 0 <= fd && listed_fds(names).contains(fd),
        EventView::Limit(limit) => forall|fd: i32| #[trigger]
            t.open.contains_key(fd) ==> 0 <= fd < i32::MAX && fd < limit,
        _ => true,
    }
}

/// Whether what is told of the open descriptors covers all of them.
pub open spec fn all_covered(s: SeqView, t: Table, events: Seq<EventView>) -> bool
    decreases events.len(),
{
    if events.len() == 0 || s.pending.len() == 0 {
        true
    } else if !fits(s.pending[0], events[0]) {
        all_covered(s, t, events.skip(1))
    } else {
        &&& covers(t, events[0])
        &&& match advanced(s, events[0]) {
            StepView::Continue(r) => all_covered(
                r,
                table_after(t, s.pending[0], events[0]),
                events.skip(1),
            ),
            _ => true,
        }
    }
}

/// Whether no descriptors are open but the streams, the lock and the pipe of a
/// context.
pub open spec fn only_wanted_open(context: ContextView, t: Table) -> bool {
    forall|fd: i32| #[trigger]
        t.open.contains_key(fd) ==> is_stream(fd) || context.lock == Some(fd as int)
            || context.pipe == Some(fd as int)
}

/// Whether a descriptor is a stream, the lock or the pipe.
spec fn is_wanted(s: SeqView, fd: i32) -> bool {
    is_stream(fd) || s.lock == Some(fd) || s.pipe == Some(fd)
}

/// The last pending call closes all descriptors, or leads to one that does.
spec fn ends_by_closing(s: SeqView, t: Table) -> bool {
    &&& s.pending.len() > 0
    &&& match s.pending.last() {
        OpView::ListFds => true,
        OpView::QueryFdLimit => true,
        OpView::CloseFds(fds) => s.pending.len() == 1 && forall|fd: i32| #[trigger]
            t.open.contains_key(fd) ==> fds.contains(fd) || is_wanted(s, fd),
        OpView::CloseRange { max_fd, skip } => s.pending.len() == 1 && forall|fd: i32| #[trigger]
            t.open.contains_key(fd) ==> (3 <= fd < max_fd && !skip.contains(fd)) || is_wanted(
                s,
                fd,
            ),
        _ => false,
    }
}

proof fn lemma_closing_step(s: SeqView, t: Table, e: EventView)
    requires
        ends_by_closing(s, t),
        fits(s.pending[0], e),
        covers(t, e),
        !(s.pending[0] is FirstFork && e is Parent),
    ensures
        match advanced(s, e) {
            StepView::Continue(r) => ends_by_closing(r, table_after(t, s.pending[0], e)),
            StepView::Return(context) => only_wanted_open(
                context,
                table_after(t, s.pending[0], e),
            ),
            _ => true,
        },
{
    let op = s.pending[0];
    let rest = s.pending.skip(1);
    let at = SeqView { pending: rest, ..s };
    let first = followers(at, op, e);
    lemma_followers(at, op, e);
    lemma_moved(at, op, e);
    if rest.len() > 0 {
        assert((first + rest).last() == rest.last());
        assert(rest.last() == s.pending.last());
    } else {
        assert(op == s.pending.last());
        assert(first + rest =~= first);
        let kept = kept_fds(at);
        assert forall|fd: i32| kept.contains(fd) implies is_wanted(s, fd) by {
            let i = choose|i: int| 0 <= i < kept.len() && kept[i] == fd;
            assert(i == 0 || i == 1);
        }
        match e {
            EventView::Fds(Some(names)) => {
                let fds = closable(listed_fds(names), kept);
                assert forall|fd: i32| #[trigger] t.open.contains_key(fd) implies fds.contains(fd)
                    || is_wanted(s, fd) by {
                    listing_closes_all_but_kept(listed_fds(names), kept, fd);
                }
            },
            _ => {},
        }
    }
}

proof fn lemma_closing(s: SeqView, t: Table, events: Seq<EventView>)
    requires
        ends_by_closing(s, t),
        all_covered(s, t, events),
    ensures
        run(s, events) matches StepView::Return(context) ==> only_wanted_open(
            context,
            table_run(s, t, events),
        ),
    decreases events.len(),
{
    if events.len() > 0 {
        let e = events[0];
        let op = s.pending[0];
        if !fits(op, e) {
            lemma_closing(s, t, events.skip(1));
        } else if op is FirstFork && e is Parent {
            match advanced(s, e) {
                StepView::Continue(r) => lemma_waiting_never_returns(r, events.skip(1)),
                _ => {},
            }
        } else {
            lemma_closing_step(s, t, e);
            match advanced(s, e) {
                StepView::Continue(r) => lemma_closing(
                    r,
                    table_after(t, op, e),
                    events.skip(1),
                ),
                _ => {},
            }
        }
    }
}

/// Where inherited descriptors are to be closed, a daemon has no others open than
/// the standard streams, its lock and its pipe. This rests on the host listing
/// all open descriptors, or having a limit above all of them.
pub proof fn inherited_descriptors_are_closed(
    c: ConfigView,
    n: SignalNumbers,
    t: Table,
    events: Seq<EventView>,
)
    requires
        c.close_fds,
        all_covered(started(c, n), t, events),
    ensures
        run(started(c, n), events) matches StepView::Return(context) ==> only_wanted_open(
            context,
            table_run(started(c, n), t, events),
        ),
{
    let p = started(c, n).pending;
    lemma_start_split(c, n);
    assert(p.last() == close_calls(c)[0]);
    lemma_closing(started(c, n), t, events);
}

/// A call that is about closing inherited descriptors.
spec fn is_closing(op: OpView) -> bool {
    op is ListFds || op is QueryFdLimit || op is CloseFds || op is CloseRange
}

spec fn leaves_open(before: Table, s: SeqView, t: Table) -> bool {
    &&& forall|fd: i32| #[trigger]
        before.open.contains_key(fd) ==> t.open.contains_key(fd) && (is_stream(fd) || t.open[fd]
            == before.open[fd])
    &&& s.temp matches Some(fd) ==> !before.open.contains_key(fd)
    &&& s.pipe_read matches Some(fd) ==> !before.open.contains_key(fd)
    &&& forall|i: int|
        0 <= i < s.pending.len() ==> !is_closing(#[trigger] s.pending[i]) && (s.pending[i] matches
            OpView::CloseEnd(fd) ==> !before.open.contains_key(fd))
}

proof fn lemma_leaves_open_step(before: Table, s: SeqView, t: Table, e: EventView)
    requires
        steady(s, t),
        leaves_open(before, s, t),
        s.pending.len() > 0,
        fits(s.pending[0], e),
        fresh(t, e),
        !(s.pending[0] is FirstFork && e is Parent),
    ensures
        ({
            let at = SeqView { pending: s.pending.skip(1), ..s };
            let op = s.pending[0];
            leaves_open(
                before,
                SeqView { pending: followers(at, op, e) + at.pending, ..moved(at, op, e) },
                table_after(t, op, e),
            )
        }),
{
    let op = s.pending[0];
    let rest = s.pending.skip(1);
    let at = SeqView { pending: rest, ..s };
    let first = followers(at, op, e);
    let all = first + rest;
    assert(sound_op(s.temp, t, op));
    assert(!is_closing(op));
    lemma_followers_placed(at, op, e);
    assert forall|i: int| 0 <= i < all.len() implies !is_closing(#[trigger] all[i]) && (
    all[i] matches OpView::CloseEnd(fd) ==> !before.open.contains_key(fd)) by {
        if i < first.len() {
            assert(all[i] == first[i]);
            assert(rank(first[i]) == rank(op));
        } else {
            assert(all[i] == rest[i - first.len()]);
            assert(all[i] == s.pending[i - first.len() + 1]);
        }
    }
}

proof fn lemma_leaves_open(before: Table, s: SeqView, t: Table, events: Seq<EventView>)
    requires
        steady(s, t),
        leaves_open(before, s, t),
        all_fresh(s, t, events),
        run(s, events) is Return,
    ensures
        forall|fd: i32| #[trigger]
            before.open.contains_key(fd) ==> {
                &&& table_run(s, t, events).open.contains_key(fd)
                &&& is_stream(fd) || table_run(s, t, events).open[fd] == before.open[fd]
            },
    decreases events.len(),
{
    if s.pending.len() > 0 {
        let e = events[0];
        let op = s.pending[0];
        let at = SeqView { pending: s.pending.skip(1), ..s };
        if !fits(op, e) {
            lemma_leaves_open(before, s, t, events.skip(1));
        } else if op is FirstFork && e is Parent {
            match advanced(s, e) {
                StepView::Continue(r) => lemma_waiting_never_returns(r, events.skip(1)),
                _ => {},
            }
        } else {
            lemma_steady_step(s, t, e);
            lemma_leaves_open_step(before, s, t, e);
            lemma_moved(at, op, e);
            match advanced(s, e) {
                StepView::Continue(r) => lemma_leaves_open(
                    before,
                    r,
                    table_after(t, op, e),
                    events.skip(1),
                ),
                _ => {},
            }
        }
    }
}

/// Where inherited descriptors are not to be closed, a daemon still has all of
/// them, and apart from the standard streams they lead where they led before.
pub proof fn inherited_descriptors_stay_open_on_request(
    c: ConfigView,
    n: SignalNumbers,
    t: Table,
    events: Seq<EventView>,
)
    requires
        !c.close_fds,
        all_fresh(started(c, n), t, events),
        run(started(c, n), events) is Return,
    ensures
        forall|fd: i32| #[trigger]
            t.open.contains_key(fd) ==> {
                &&& table_run(started(c, n), t, events).open.contains_key(fd)
                &&& is_stream(fd) || table_run(started(c, n), t, events).open[fd] == t.open[fd]
            },
{
    let s = started(c, n);
    lemma_start_steady(c, n, t);
    lemma_start_split(c, n);
    assert forall|i: int| 0 <= i < s.pending.len() implies !is_closing(#[trigger] s.pending[i])
        && !(s.pending[i] is CloseEnd) by {}
    lemma_leaves_open(t, s, t, events);
}

// ---------------------------------------------------------------------------
// Nothing is left over
// ---------------------------------------------------------------------------

/// Whether a call closes a descriptor or makes it the lock.
spec fn takes_care_of(op: OpView, fd: i32) -> bool {
    match op {
        OpView::CloseEnd(n) => n == fd,
        OpView::Release { fd: n, close, .. } => n == fd && close,
        OpView::Flock { fd: n, .. } => n == fd,
        _ => false,
    }
}

spec fn is_taken_care_of(ops: Seq<OpView>, fd: i32) -> bool {
    exists|i: int| 0 <= i < ops.len() && takes_care_of(#[trigger] ops[i], fd)
}

proof fn lemma_care_concat(a: Seq<OpView>, b: Seq<OpView>, fd: i32)
    ensures
        is_taken_care_of(a + b, fd) <==> is_taken_care_of(a, fd) || is_taken_care_of(b, fd),
{
    let c = a + b;
    if is_taken_care_of(c, fd) {
        let i = choose|i: int| 0 <= i < c.len() && takes_care_of(#[trigger] c[i], fd);
        if i < a.len() {
            assert(takes_care_of(a[i], fd));
        } else {
            assert(takes_care_of(b[i - a.len()], fd));
        }
    }
    if is_taken_care_of(a, fd) {
        let i = choose|i: int| 0 <= i < a.len() && takes_care_of(#[trigger] a[i], fd);
        assert(takes_care_of(c[i], fd));
    }
    if is_taken_care_of(b, fd) {
        let i = choose|i: int| 0 <= i < b.len() && takes_care_of(#[trigger] b[i], fd);
        assert(takes_care_of(c[i + a.len()], fd));
    }
}

spec fn is_accounted_for(before: Table, s: SeqView, fd: i32) -> bool {
    ||| before.open.contains_key(fd)
    ||| fd <= 2
    ||| s.lock == Some(fd)
    ||| s.pipe == Some(fd)
    ||| s.pipe_read == Some(fd)
    ||| is_taken_care_of(s.pending, fd)
}

spec fn tidy(before: Table, s: SeqView, t: Table) -> bool {
    forall|fd: i32| #[trigger] t.open.contains_key(fd) ==> is_accounted_for(before, s, fd)
}

proof fn lemma_followers_take_care(s: SeqView, op: OpView, e: EventView)
    requires
        fits(op, e),
        op matches OpView::Open { purpose, .. } ==> (purpose matches OpenPurpose::Output(target)
            ==> target == 1 || target == 2),
    ensures
        op is Open ==> (e matches EventView::Opened(fd) ==> fd <= 2 || is_taken_care_of(
            followers(s, op, e),
            fd,
        )),
        op is FirstFork && e is Child ==> (s.pipe_read matches Some(fd) ==> is_taken_care_of(
            followers(s, op, e),
            fd,
        )),
{
    let first = followers(s, op, e);
    match (op, e) {
        (OpView::Open { purpose, .. }, EventView::Opened(fd)) => {
            if fd > 2 {
                match purpose {
                    OpenPurpose::Lock => {
                        assert(takes_care_of(first[0], fd));
                    },
                    _ => {
                        assert(takes_care_of(first[first.len() - 1], fd));
                    },
                }
            }
        },
        (OpView::FirstFork, EventView::Child) => {
            if let Some(fd) = s.pipe_read {
                assert(takes_care_of(first[0], fd));
            }
        },
        _ => {},
    }
}

proof fn lemma_tidy_step(before: Table, s: SeqView, t: Table, e: EventView)
    requires
        steady(s, t),
        tidy(before, s, t),
        s.pending.len() > 0,
        fits(s.pending[0], e),
        !(s.pending[0] is FirstFork && e is Parent),
        advanced(s, e) is Continue || advanced(s, e) is Return,
        single(s),
    ensures
        ({
            let at = SeqView { pending: s.pending.skip(1), ..s };
            let op = s.pending[0];
            tidy(
                before,
                SeqView { pending: followers(at, op, e) + at.pending, ..moved(at, op, e) },
                table_after(t, op, e),
            )
        }),
{
    let op = s.pending[0];
    let rest = s.pending.skip(1);
    let at = SeqView { pending: rest, ..s };
    let first = followers(at, op, e);
    let u = table_after(t, op, e);
    let r = SeqView { pending: first + rest, ..moved(at, op, e) };
    assert(sound_op(s.temp, t, op));
    lemma_followers_take_care(at, op, e);
    assert(s.pending =~= seq![op] + rest);
    assert(op is Flock ==> s.lock is None) by {
        assert(is_lock_op(s.pending[0]) ==> s.lock is None);
    }
    assert forall|fd: i32| #[trigger] u.open.contains_key(fd) implies is_accounted_for(
        before,
        r,
        fd,
    ) by {
        lemma_care_concat(first, rest, fd);
        lemma_care_concat(seq![op], rest, fd);
        assert(is_taken_care_of(seq![op], fd) ==> takes_care_of(op, fd)) by {
            if is_taken_care_of(seq![op], fd) {
                let i = choose|i: int| 0 <= i < 1 && takes_care_of(#[trigger] seq![op][i], fd);
                assert(i == 0);
            }
        }
        if t.open.contains_key(fd) {
            assert(is_accounted_for(before, s, fd));
        }
    }
}

proof fn lemma_tidy(before: Table, s: SeqView, t: Table, events: Seq<EventView>)
    requires
        steady(s, t),
        tidy(before, s, t),
        single(s),
        s.pending.len() > 0,
        run(s, events) is Return,
    ensures
        leaves_nothing(before, run(s, events)->Return_0, table_run(s, t, events)),
    decreases events.len(),
{
    let e = events[0];
    let op = s.pending[0];
    let at = SeqView { pending: s.pending.skip(1), ..s };
    if !fits(op, e) {
        lemma_tidy(before, s, t, events.skip(1));
    } else if op is FirstFork && e is Parent {
        match advanced(s, e) {
            StepView::Continue(r) => lemma_waiting_never_returns(r, events.skip(1)),
            _ => {},
        }
    } else {
        lemma_steady_step(s, t, e);
        lemma_tidy_step(before, s, t, e);
        lemma_moved(at, op, e);
        match advanced(s, e) {
            StepView::Continue(r) => {
                lemma_single_step(s, t, e);
                lemma_tidy(before, r, table_after(t, op, e), events.skip(1));
            },
            StepView::Return(context) => {
                let u = table_after(t, op, e);
                let m = moved(at, op, e);
                assert((followers(at, op, e) + at.pending).len() == 0) by {
                    lemma_followers(at, op, e);
                }
                assert forall|fd: i32| #[trigger] u.open.contains_key(fd) implies {
                    ||| before.open.contains_key(fd)
                    ||| fd <= 2
                    ||| context.lock == Some(fd as int)
                    ||| context.pipe == Some(fd as int)
                } by {
                    let r = SeqView { pending: followers(at, op, e) + at.pending, ..m };
                    assert(is_accounted_for(before, r, fd));
                    assert(m.pipe_read is None) by {
                        if op is CreatePipe {
                            assert(s.pending[0] is CreatePipe);
                        }
                    }
                }
            },
            _ => {},
        }
    }
}

spec fn is_lock_op(op: OpView) -> bool {
    op is Flock || (op matches OpView::Open { purpose, .. } && purpose is Lock)
}

/// There is one pipe and one lock.
spec fn single(s: SeqView) -> bool {
    &&& s.pending.len() > 0 && s.pending[0] is CreatePipe ==> s.pipe is None && s.pipe_read is None
    &&& s.lock is Some ==> forall|i: int|
        0 <= i < s.pending.len() ==> !is_lock_op(#[trigger] s.pending[i])
    &&& forall|i: int, j: int|
        0 <= i < j < s.pending.len() ==> !(is_lock_op(#[trigger] s.pending[i]) && is_lock_op(
            #[trigger] s.pending[j],
        ))
}

#[verifier::rlimit(40)]
proof fn lemma_single_step(s: SeqView, t: Table, e: EventView)
    requires
        steady(s, t),
        single(s),
        s.pending.len() > 0,
        fits(s.pending[0], e),
        !(s.pending[0] is FirstFork && e is Parent),
        advanced(s, e) is Continue,
    ensures
        single(advanced(s, e)->Continue_0),
{
    let op = s.pending[0];
    let rest = s.pending.skip(1);
    let at = SeqView { pending: rest, ..s };
    let first = followers(at, op, e);
    let r = advanced(s, e)->Continue_0;
    lemma_followers(at, op, e);
    lemma_moved(at, op, e);
    lemma_followers_placed(at, op, e);
    assert(sound_op(s.temp, t, op));
    lemma_followers_steady(at, t, op, e);
    assert(r.pending == first + rest);
    assert forall|i: int| 0 <= i < rest.len() implies rest[i] == s.pending[i + 1] by {}
    assert(!(r.pending[0] is CreatePipe)) by {
        if first.len() > 0 {
            assert(r.pending[0] == first[0]);
        } else {
            assert(r.pending[0] == s.pending[1]);
        }
    }
    assert forall|i: int| 0 <= i < first.len() && is_lock_op(#[trigger] first[i]) implies is_lock_op(
        op,
    ) && first.len() == 1 by {
        assert(rank(first[i]) == rank(op));
    }
    assert forall|i: int| 0 <= i < rest.len() && is_lock_op(op) implies !is_lock_op(
        #[trigger] rest[i],
    ) by {
        assert(rest[i] == s.pending[i + 1]);
        assert(is_lock_op(s.pending[0]));
    }
    assert forall|i: int, j: int| 0 <= i < j < r.pending.len() implies !(is_lock_op(
        #[trigger] r.pending[i],
    ) && is_lock_op(#[trigger] r.pending[j])) by {
        if j < first.len() {
            assert(r.pending[i] == first[i] && r.pending[j] == first[j]);
        } else if i < first.len() {
            assert(r.pending[i] == first[i] && r.pending[j] == rest[j - first.len()]);
        } else {
            assert(r.pending[i] == s.pending[i - first.len() + 1] && r.pending[j] == s.pending[j
                - first.len() + 1]);
        }
    }
    if r.lock is Some {
        assert forall|i: int| 0 <= i < r.pending.len() implies !is_lock_op(
            #[trigger] r.pending[i],
        ) by {
            if i < first.len() {
                assert(r.pending[i] == first[i]);
                if is_lock_op(first[i]) {
                    assert(is_lock_op(s.pending[0]));
                    assert(s.lock is None);
                }
            } else {
                assert(r.pending[i] == rest[i - first.len()]);
                assert(rest[i - first.len()] == s.pending[i - first.len() + 1]);
            }
        }
    }
}

/// Whether no descriptors are open but those from before, the streams, the lock and the
/// pipe.
pub open spec fn leaves_nothing(before: Table, context: ContextView, t: Table) -> bool {
    forall|fd: i32| #[trigger]
        t.open.contains_key(fd) ==> {
            ||| before.open.contains_key(fd)
            ||| fd <= 2
            ||| context.lock == Some(fd as int)
            ||| context.pipe == Some(fd as int)
        }
}

/// Whether or not inherited descriptors are closed: a daemon has none left over of those
/// that it opened itself, but for its streams, its lock and its pipe.
pub proof fn no_descriptor_is_left_over(
    c: ConfigView,
    n: SignalNumbers,
    t: Table,
    events: Seq<EventView>,
)
    requires
        run(started(c, n), events) is Return,
    ensures
        leaves_nothing(
            t,
            run(started(c, n), events)->Return_0,
            table_run(started(c, n), t, events),
        ),
{
    let s = started(c, n);
    let p = s.pending;
    let k = fork_calls(c).len() + place_calls(c).len();
    lemma_start_steady(c, n, t);
    lemma_start_split(c, n);
    let head = fork_calls(c) + place_calls(c);
    let lock = lock_calls(c);
    let tail = pidfile_calls(c) + signal_calls(n) + env_calls(c.env) + output_calls(c) + close_calls(
        c,
    );
    assert(p =~= head + lock + tail);
    assert forall|i: int| 0 <= i < tail.len() implies !is_lock_op(#[trigger] tail[i]) by {}
    assert forall|i: int| 0 <= i < p.len() && is_lock_op(#[trigger] p[i]) implies i == k by {
        if i < head.len() {
            assert(p[i] == head[i]);
        } else if i >= head.len() + lock.len() {
            assert(p[i] == tail[i - head.len() - lock.len()]);
        }
    }
    lemma_tidy(t, s, t, events);
}

} // verus!
