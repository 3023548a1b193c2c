//! What holds of a daemon's context whatever is done with it.

use vstd::prelude::*;
use vstd::utf8::*;
use crate::context::{
    debug_line, debug_quoted, debug_quoted_path, debug_view, drop_actions, end_message, end_removal,
    ended, may_notify, new_context, opt_seq, or_none, owned_paths, path_text, pipe_write, quoted,
    quoted_path, quoted_view, removal, report_actions, ContextView, DebugView, FinalActionView,
};
use crate::config::{ConfigView, LockfileView};
use crate::path::utf8_lossy;
use crate::error::ErrorView;
use crate::notify::{
    error_message, error_round_trip, ready_message, unnotified_message, unnotified_round_trip,
    unnotified_text, PipeWriteView,
};
use crate::privileges::{switched_to, TaskView};
use crate::sequence::{parent_exit, silent_exit, StepView};

verus! {

/// Something done with a context.
pub enum ContextOp {
    /// `notify_parent`.
    Notify,
    /// `report_error`.
    Report(ErrorView),
    /// `finish`.
    Finish,
    /// `cleanup`.
    Cleanup,
    /// `set_cleanup_on_drop`.
    SetCleanup(bool),
    /// `privileges_dropped`.
    Dropped(TaskView),
}

/// The context afterwards.
pub open spec fn context_after(c: ContextView, op: ContextOp) -> ContextView {
    match op {
        ContextOp::Notify => if may_notify(c) {
            ContextView { pipe: None, ..c }
        } else {
            c
        },
        ContextOp::Report(_) => ended(c),
        ContextOp::Finish => ContextView { lock: None, ..ended(c) },
        ContextOp::Cleanup => ContextView { cleaned_up: true, ..c },
        ContextOp::SetCleanup(b) => ContextView {
            config: ConfigView { cleanup_on_drop: b, ..c.config },
            ..c
        },
        ContextOp::Dropped(t) => ContextView {
            privileges_dropped: c.privileges_dropped || switched_to(
                t,
                c.config.user,
                c.config.group,
            ),
            ..c
        },
    }
}

/// What comes of it.
pub open spec fn effects(c: ContextView, op: ContextOp) -> Seq<FinalActionView> {
    match op {
        ContextOp::Notify => if may_notify(c) {
            end_message(c, ready_message())
        } else {
            Seq::empty()
        },
        ContextOp::Report(e) => report_actions(c, e),
        ContextOp::Finish => drop_actions(c),
        ContextOp::Cleanup => match removal(c) {
            Some(p) => seq![FinalActionView::RemovePidfile(p)],
            None => Seq::empty(),
        },
        _ => Seq::empty(),
    }
}

/// What comes of several things done one after the other.
pub open spec fn history(c: ContextView, ops: Seq<ContextOp>) -> Seq<FinalActionView>
    decreases ops.len(),
{
    if ops.len() == 0 {
        Seq::empty()
    } else {
        effects(c, ops[0]) + history(context_after(c, ops[0]), ops.skip(1))
    }
}

/// The context after several things have been done one after the other.
pub open spec fn context_at_end(c: ContextView, ops: Seq<ContextOp>) -> ContextView
    decreases ops.len(),
{
    if ops.len() == 0 {
        c
    } else {
        context_at_end(context_after(c, ops[0]), ops.skip(1))
    }
}

/// The messages among the actions.
pub open spec fn messages(actions: Seq<FinalActionView>) -> Seq<PipeWriteView>
    decreases actions.len(),
{
    if actions.len() == 0 {
        Seq::empty()
    } else {
        let rest = messages(actions.skip(1));
        match actions[0] {
            FinalActionView::WritePipe(w) => seq![w] + rest,
            _ => rest,
        }
    }
}

/// The files removed by the actions.
pub open spec fn removals(actions: Seq<FinalActionView>) -> Seq<Seq<u8>>
    decreases actions.len(),
{
    if actions.len() == 0 {
        Seq::empty()
    } else {
        let rest = removals(actions.skip(1));
        match actions[0] {
            FinalActionView::RemovePidfile(p) => seq![p] + rest,
            _ => rest,
        }
    }
}

proof fn lemma_concat(a: Seq<FinalActionView>, b: Seq<FinalActionView>)
    ensures
        messages(a + b) == messages(a) + messages(b),
        removals(a + b) == removals(a) + removals(b),
    decreases a.len(),
{
    if a.len() == 0 {
        assert(a + b =~= b);
        assert(messages(a) + messages(b) =~= messages(b));
        assert(removals(a) + removals(b) =~= removals(b));
    } else {
        assert((a + b)[0] == a[0]);
        assert((a + b).skip(1) =~= a.skip(1) + b);
        lemma_concat(a.skip(1), b);
        assert(messages(a + b) =~= messages(a) + messages(b));
        assert(removals(a + b) =~= removals(a) + removals(b));
    }
}

proof fn lemma_single(x: FinalActionView)
    ensures
        messages(seq![x]) == (match x {
            FinalActionView::WritePipe(w) => seq![w],
            _ => Seq::empty(),
        }),
        removals(seq![x]) == (match x {
            FinalActionView::RemovePidfile(p) => seq![p],
            _ => Seq::empty(),
        }),
{
    assert(seq![x].skip(1) =~= Seq::<FinalActionView>::empty());
    assert(messages(Seq::<FinalActionView>::empty()) =~= Seq::<PipeWriteView>::empty());
    assert(removals(Seq::<FinalActionView>::empty()) =~= Seq::<Seq<u8>>::empty());
    match x {
        FinalActionView::WritePipe(w) => {
            assert(seq![w] + Seq::<PipeWriteView>::empty() =~= seq![w]);
        },
        FinalActionView::RemovePidfile(p) => {
            assert(seq![p] + Seq::<Seq<u8>>::empty() =~= seq![p]);
        },
        _ => {},
    }
}

/// The messages of one operation.
spec fn said(c: ContextView, op: ContextOp) -> Seq<PipeWriteView> {
    let bytes = match op {
        ContextOp::Notify => if may_notify(c) {
            Some(ready_message())
        } else {
            None
        },
        ContextOp::Report(e) => Some(error_message(e)),
        ContextOp::Finish => Some(unnotified_message()),
        _ => None,
    };
    match (c.pipe, bytes) {
        (Some(fd), Some(b)) => seq![PipeWriteView { fd, bytes: b }],
        _ => Seq::empty(),
    }
}

/// The removals of one operation.
spec fn removed(c: ContextView, op: ContextOp) -> Seq<Seq<u8>> {
    let wanted = match op {
        ContextOp::Report(_) => c.config.cleanup_on_drop,
        ContextOp::Finish => c.config.cleanup_on_drop,
        ContextOp::Cleanup => true,
        _ => false,
    };
    match removal(c) {
        Some(p) => if wanted {
            seq![p]
        } else {
            Seq::empty()
        },
        None => Seq::empty(),
    }
}

proof fn lemma_end_message(c: ContextView, bytes: Seq<u8>)
    ensures
        messages(end_message(c, bytes)) == (match pipe_write(c.pipe, bytes) {
            Some(w) => seq![w],
            None => Seq::empty(),
        }),
        removals(end_message(c, bytes)) == Seq::<Seq<u8>>::empty(),
{
    match pipe_write(c.pipe, bytes) {
        Some(w) => lemma_single(FinalActionView::WritePipe(w)),
        None => {},
    }
}

proof fn lemma_end_removal(c: ContextView)
    ensures
        messages(end_removal(c)) == Seq::<PipeWriteView>::empty(),
        removals(end_removal(c)) == (match removal(c) {
            Some(p) => if c.config.cleanup_on_drop {
                seq![p]
            } else {
                Seq::empty()
            },
            None => Seq::empty(),
        }),
{
    match removal(c) {
        Some(p) => lemma_single(FinalActionView::RemovePidfile(p)),
        None => {},
    }
}

proof fn lemma_effects(c: ContextView, op: ContextOp)
    ensures
        messages(effects(c, op)) == said(c, op),
        removals(effects(c, op)) == removed(c, op),
{
    lemma_end_removal(c);
    match op {
        ContextOp::Notify => {
            lemma_end_message(c, ready_message());
        },
        ContextOp::Report(e) => {
            let exit = FinalActionView::Exit(e.code() as int);
            lemma_end_message(c, error_message(e));
            lemma_single(exit);
            lemma_concat(end_removal(c), end_message(c, error_message(e)));
            lemma_concat(end_removal(c) + end_message(c, error_message(e)), seq![exit]);
            assert(messages(effects(c, op)) =~= said(c, op));
            assert(removals(effects(c, op)) =~= removed(c, op));
        },
        ContextOp::Finish => {
            let message = end_message(c, unnotified_message());
            let release = match c.lock {
                Some(fd) => seq![FinalActionView::ReleaseLock(fd)],
                None => Seq::empty(),
            };
            if let Some(fd) = c.lock {
                lemma_single(FinalActionView::ReleaseLock(fd));
            }
            lemma_end_message(c, unnotified_message());
            lemma_concat(message, end_removal(c));
            lemma_concat(message + end_removal(c), release);
            assert(messages(effects(c, op)) =~= said(c, op));
            assert(removals(effects(c, op)) =~= removed(c, op));
        },
        ContextOp::Cleanup => {
            if let Some(p) = removal(c) {
                lemma_single(FinalActionView::RemovePidfile(p));
            }
        },
        _ => {},
    }
}

proof fn lemma_silent_without_pipe(c: ContextView, ops: Seq<ContextOp>)
    requires
        c.pipe is None,
    ensures
        messages(history(c, ops)) == Seq::<PipeWriteView>::empty(),
        context_at_end(c, ops).pipe is None,
    decreases ops.len(),
{
    if ops.len() > 0 {
        let next = context_after(c, ops[0]);
        lemma_silent_without_pipe(next, ops.skip(1));
        lemma_effects(c, ops[0]);
        lemma_concat(effects(c, ops[0]), history(next, ops.skip(1)));
        assert(messages(history(c, ops)) =~= Seq::<PipeWriteView>::empty());
    }
}

proof fn lemma_messages(c: ContextView, ops: Seq<ContextOp>)
    ensures
        messages(history(c, ops)).len() <= 1,
        messages(history(c, ops)).len() == 1 <==> c.pipe is Some && context_at_end(c, ops).pipe
            is None,
    decreases ops.len(),
{
    if ops.len() > 0 {
        let next = context_after(c, ops[0]);
        let rest = ops.skip(1);
        lemma_effects(c, ops[0]);
        lemma_concat(effects(c, ops[0]), history(next, rest));
        if next.pipe is None {
            lemma_silent_without_pipe(next, rest);
        } else {
            lemma_messages(next, rest);
        }
    }
}

/// At most one message is ever written to the pipe, whatever is done with the
/// context.
pub proof fn at_most_one_message(c: ContextView, ops: Seq<ContextOp>)
    ensures
        messages(history(c, ops)).len() <= 1,
{
    lemma_messages(c, ops);
}

/// A daemon does not end without a word: when an error has been reported or the
/// context has gone away, exactly one message has been written to the pipe that
/// it was started with.
pub proof fn a_daemon_ends_with_a_message(
    c: ContextView,
    ops: Seq<ContextOp>,
    last: ContextOp,
)
    requires
        c.pipe is Some,
        last is Report || last is Finish,
    ensures
        messages(history(c, ops.push(last))).len() == 1,
{
    lemma_messages(c, ops.push(last));
    lemma_at_end_push(c, ops, last);
}

proof fn lemma_at_end_push(c: ContextView, ops: Seq<ContextOp>, last: ContextOp)
    ensures
        context_at_end(c, ops.push(last)) == context_after(context_at_end(c, ops), last),
    decreases ops.len(),
{
    if ops.len() == 0 {
        assert(ops.push(last).skip(1) =~= Seq::<ContextOp>::empty());
        assert(context_at_end(context_after(c, last), Seq::<ContextOp>::empty()) == context_after(
            c,
            last,
        ));
    } else {
        assert(ops.push(last).skip(1) =~= ops.skip(1).push(last));
        assert(ops.push(last)[0] == ops[0]);
        lemma_at_end_push(context_after(c, ops[0]), ops.skip(1), last);
    }
}

/// Whether one of the operations completes the configured change of identity.
pub open spec fn drops_privileges(c: ConfigView, ops: Seq<ContextOp>) -> bool {
    exists|i: int|
        0 <= i < ops.len() && (#[trigger] ops[i] matches ContextOp::Dropped(t) && switched_to(
            t,
            c.user,
            c.group,
        ))
}

/// A daemon with a configured user or group never says that it is ready before
/// it has changed to them.
pub proof fn never_ready_with_privileges(c: ContextView, ops: Seq<ContextOp>, i: int)
    requires
        c.config.switches_identity(),
        !c.privileges_dropped,
        !drops_privileges(c.config, ops),
        0 <= i < messages(history(c, ops)).len(),
    ensures
        messages(history(c, ops))[i].bytes != ready_message(),
    decreases ops.len(),
{
    if ops.len() > 0 {
        let next = context_after(c, ops[0]);
        let rest = ops.skip(1);
        lemma_effects(c, ops[0]);
        lemma_concat(effects(c, ops[0]), history(next, rest));
        assert(!drops_privileges(next.config, rest)) by {
            if drops_privileges(next.config, rest) {
                let j = choose|j: int|
                    0 <= j < rest.len() && (#[trigger] rest[j] matches ContextOp::Dropped(t)
                        && switched_to(t, next.config.user, next.config.group));
                assert(ops[j + 1] == rest[j]);
            }
        }
        let first = said(c, ops[0]);
        if i < first.len() {
            assert(ready_message()[0] == 0u8);
            match ops[0] {
                ContextOp::Report(e) => {
                    assert(error_message(e)[0] == e.code());
                },
                ContextOp::Finish => {
                    assert(unnotified_message()[0] == 1u8);
                },
                _ => {},
            }
        } else {
            never_ready_with_privileges(next, rest, i - first.len());
        }
    }
}

proof fn lemma_removals(c: ContextView, ops: Seq<ContextOp>)
    ensures
        removals(history(c, ops)).len() <= (if c.cleaned_up {
            0int
        } else {
            1int
        }),
        forall|i: int|
            0 <= i < removals(history(c, ops)).len() ==> c.config.pidfile == Some(
                #[trigger] removals(history(c, ops))[i],
            ),
    decreases ops.len(),
{
    if ops.len() > 0 {
        let next = context_after(c, ops[0]);
        let rest = ops.skip(1);
        lemma_effects(c, ops[0]);
        lemma_concat(effects(c, ops[0]), history(next, rest));
        lemma_removals(next, rest);
        let all = removals(history(c, ops));
        let first = removed(c, ops[0]);
        assert forall|i: int| 0 <= i < all.len() implies c.config.pidfile == Some(
            #[trigger] all[i],
        ) by {
            if i >= first.len() {
                assert(all[i] == removals(history(next, rest))[i - first.len()]);
            }
        }
    }
}

/// The pidfile is removed at most once, and nothing else is ever removed: neither
/// a lockfile of its own nor an output file.
pub proof fn only_the_pidfile_is_removed_and_only_once(c: ContextView, ops: Seq<ContextOp>)
    ensures
        removals(history(c, ops)).len() <= 1,
        forall|i: int|
            0 <= i < removals(history(c, ops)).len() ==> c.config.pidfile == Some(
                #[trigger] removals(history(c, ops))[i],
            ),
{
    lemma_removals(c, ops);
}

/// When an error is reported, the pidfile is removed before the parent learns of
/// the error, and the process exits last.
pub proof fn pidfile_goes_before_the_report(c: ContextView, e: ErrorView, i: int, j: int)
    requires
        0 <= i < report_actions(c, e).len(),
        0 <= j < report_actions(c, e).len(),
        report_actions(c, e)[j] is WritePipe,
    ensures
        report_actions(c, e)[i] is RemovePidfile ==> i < j,
        report_actions(c, e)[i] is Exit ==> j < i && i == report_actions(c, e).len() - 1,
{
}

/// Without cleaning up, the pidfile stays when the context goes away or an error
/// is reported.
pub proof fn pidfile_stays_without_cleanup(c: ContextView, e: ErrorView)
    requires
        !c.config.cleanup_on_drop,
    ensures
        removals(drop_actions(c)) == Seq::<Seq<u8>>::empty(),
        removals(report_actions(c, e)) == Seq::<Seq<u8>>::empty(),
{
    lemma_effects(c, ContextOp::Finish);
    lemma_effects(c, ContextOp::Report(e));
}

/// The waiting process ends as the daemon says: with success when it is ready,
/// with code 1 when it goes away without a word, and with the code and the text
/// of an error that it reports.
pub proof fn parent_ends_as_the_daemon_says(e: ErrorView)
    ensures
        parent_exit(ready_message()) == silent_exit(),
        parent_exit(unnotified_message()) == (StepView::Exit {
            write: None,
            message: Some(unnotified_text()),
            code: 1,
        }),
        parent_exit(error_message(e)) == (StepView::Exit {
            write: None,
            message: Some(e.message()),
            code: e.code() as int,
        }),
        parent_exit(Seq::empty()) == silent_exit(),
{
    unnotified_round_trip();
    error_round_trip(e);
}

/// Without a pipe, as in the foreground, saying that the daemon is ready has no
/// effect.
pub proof fn notifying_without_pipe_is_idle(config: ConfigView, lock: Option<int>)
    ensures
        effects(new_context(config, lock, None), ContextOp::Notify) == Seq::<
            FinalActionView,
        >::empty(),
        context_after(new_context(config, lock, None), ContextOp::Notify) == new_context(
            config,
            lock,
            None,
        ),
{
}

/// Cleaning up again changes nothing.
pub proof fn cleanup_is_idempotent(c: ContextView)
    ensures
        context_after(context_after(c, ContextOp::Cleanup), ContextOp::Cleanup) == context_after(
            c,
            ContextOp::Cleanup,
        ),
        effects(context_after(c, ContextOp::Cleanup), ContextOp::Cleanup) == Seq::<
            FinalActionView,
        >::empty(),
{
}

/// Readiness is refused exactly while a user or a group is configured and has not
/// been changed to. Where it is not refused, the one byte 0 goes to the pipe, if
/// there is one.
pub proof fn readiness_is_one_zero_byte(c: ContextView)
    ensures
        c.privileges_dropped ==> may_notify(c),
        c.config.user is None && c.config.group is None ==> may_notify(c),
        !c.privileges_dropped && (c.config.user is Some || c.config.group is Some) ==> !may_notify(c),
        c.pipe matches Some(fd) ==> pipe_write(c.pipe, ready_message()) == Some(
            PipeWriteView { fd, bytes: seq![0u8] },
        ),
        c.pipe is None ==> pipe_write(c.pipe, ready_message()) is None,
        may_notify(c) ==> messages(effects(c, ContextOp::Notify)) == (match c.pipe {
            Some(fd) => seq![PipeWriteView { fd, bytes: seq![0u8] }],
            None => Seq::empty(),
        }),
{
    lemma_effects(c, ContextOp::Notify);
}

/// A daemon that has become its configured user and group, or has none configured,
/// and that has said nothing yet, makes its parent end with success by saying that
/// it is ready.
pub proof fn a_ready_daemon_lets_its_parent_succeed(c: ContextView, t: TaskView, fd: int)
    requires
        c.pipe == Some(fd),
        c.config.user is Some || c.config.group is Some ==> switched_to(
            t,
            c.config.user,
            c.config.group,
        ),
    ensures
        ({
            let now = context_after(c, ContextOp::Dropped(t));
            let said = messages(effects(now, ContextOp::Notify));
            &&& said.len() == 1
            &&& said[0].fd == fd
            &&& parent_exit(said[0].bytes) == (StepView::Exit {
                write: None,
                message: None,
                code: 0,
            })
        }),
{
    lemma_effects(context_after(c, ContextOp::Dropped(t)), ContextOp::Notify);
}

/// A pidfile that is there to be removed is removed: by a cleanup in any case, and
/// at the end or with the report of an error where that is wanted. Whether a lock is
/// held or a message is outstanding does not matter. After that, or without a
/// pidfile, nothing is removed.
pub proof fn the_pidfile_is_removed(c: ContextView, e: ErrorView)
    ensures
        !c.cleaned_up ==> removal(c) == c.config.pidfile,
        c.cleaned_up ==> removal(c) is None,
        !c.cleaned_up && c.config.cleanup_on_drop ==> (c.config.pidfile matches Some(p) ==> {
            &&& removals(drop_actions(c)) == seq![p]
            &&& removals(report_actions(c, e)) == seq![p]
        }),
        c.cleaned_up || c.config.pidfile is None ==> {
            &&& removals(drop_actions(c)) == Seq::<Seq<u8>>::empty()
            &&& removals(report_actions(c, e)) == Seq::<Seq<u8>>::empty()
        },
        removals(effects(c, ContextOp::Cleanup)) == (match c.config.pidfile {
            Some(p) => if c.cleaned_up {
                Seq::empty()
            } else {
                seq![p]
            },
            None => Seq::empty(),
        }),
{
    lemma_effects(c, ContextOp::Finish);
    lemma_effects(c, ContextOp::Report(e));
    lemma_effects(c, ContextOp::Cleanup);
}

/// When a daemon goes away, three things are done, each at most once and in this
/// order: the parent is told with code 1 that nothing else was said, if that is so;
/// the pidfile is removed, if that is wanted; and the lock is released, if it is
/// held.
pub proof fn a_daemon_goes_away_in_order(c: ContextView)
    ensures
        ({
            let told: int = if c.pipe is Some {
                1
            } else {
                0
            };
            let removed: int = if c.config.cleanup_on_drop && !c.cleaned_up && c.config.pidfile
                is Some {
                1
            } else {
                0
            };
            let released: int = if c.lock is Some {
                1
            } else {
                0
            };
            let done = drop_actions(c);
            &&& done.len() == told + removed + released
            &&& told == 1 ==> done[0] == FinalActionView::WritePipe(
                PipeWriteView {
                    fd: c.pipe->0,
                    bytes: seq![1u8] + encode_utf8("daemon exited without signaling readiness"@),
                },
            )
            &&& removed == 1 ==> done[told] == FinalActionView::RemovePidfile(
                c.config.pidfile->0,
            )
            &&& released == 1 ==> done[told + removed] == FinalActionView::ReleaseLock(c.lock->0)
        }),
{
}

/// When an error is reported, three things are done, in this order: the pidfile is
/// removed, if that is wanted; the parent is told the code and the text of the error,
/// if nothing was said before; and the process ends with that code, in any case.
pub proof fn an_error_is_reported_in_order(c: ContextView, e: ErrorView)
    ensures
        ({
            let removed: int = if c.config.cleanup_on_drop && !c.cleaned_up && c.config.pidfile
                is Some {
                1
            } else {
                0
            };
            let told: int = if c.pipe is Some {
                1
            } else {
                0
            };
            let done = report_actions(c, e);
            &&& done.len() == removed + told + 1
            &&& removed == 1 ==> done[0] == FinalActionView::RemovePidfile(c.config.pidfile->0)
            &&& told == 1 ==> done[removed] == FinalActionView::WritePipe(
                PipeWriteView {
                    fd: c.pipe->0,
                    bytes: seq![e.code()] + encode_utf8(e.message()),
                },
            )
            &&& done[removed + told] == FinalActionView::Exit(e.code() as int)
        }),
{
}

/// After its end a context has nothing to say, and has cleaned up where that was
/// wanted; nothing else of it has changed. A new context has done nothing yet.
pub proof fn what_changes_at_the_end(c: ContextView, config: ConfigView, lock: Option<int>, pipe: Option<int>)
    ensures
        ended(c).pipe is None,
        ended(c).cleaned_up == (c.cleaned_up || c.config.cleanup_on_drop),
        ended(c).config == c.config,
        ended(c).lock == c.lock,
        ended(c).privileges_dropped == c.privileges_dropped,
        new_context(config, lock, pipe).config == config,
        new_context(config, lock, pipe).lock == lock,
        new_context(config, lock, pipe).pipe == pipe,
        !new_context(config, lock, pipe).cleaned_up,
        !new_context(config, lock, pipe).privileges_dropped,
{
}

/// The files that are handed over are the pidfile, the locked file, and the files for
/// stdout and stderr, as far as there are any; and no others.
pub proof fn all_files_of_a_daemon_are_handed_over(c: ConfigView, p: Seq<u8>)
    ensures
        owned_paths(c).contains(p) <==> {
            ||| c.pidfile == Some(p)
            ||| c.lockfile == LockfileView::Explicit(p)
            ||| c.stdout == Some(p)
            ||| c.stderr == Some(p)
        },
{
    let a = opt_seq(c.pidfile);
    let b = opt_seq(c.effective_lockfile());
    let d = opt_seq(c.stdout);
    let f = opt_seq(c.stderr);
    let all = owned_paths(c);
    if c.pidfile == Some(p) {
        assert(all[0] == p);
    }
    if c.lockfile == LockfileView::Explicit(p) {
        assert(all[a.len() as int] == p);
    }
    if c.stdout == Some(p) {
        assert(all[(a.len() + b.len()) as int] == p);
    }
    if c.stderr == Some(p) {
        assert(all[(a.len() + b.len() + d.len()) as int] == p);
    }
    if all.contains(p) {
        let i = choose|i: int| 0 <= i < all.len() && all[i] == p;
        if i < a.len() {
            assert(all[i] == a[i]);
        } else if i < a.len() + b.len() {
            assert(all[i] == b[i - a.len()]);
        } else if i < a.len() + b.len() + d.len() {
            assert(all[i] == d[i - a.len() - b.len()]);
        } else {
            assert(all[i] == f[i - a.len() - b.len() - d.len()]);
        }
    }
}

/// For debugging a context shows that the lock is held and the pipe is open, but not
/// their descriptors; the settings that matter after the start; and `none` for what
/// there is not. Texts and paths are quoted.
pub proof fn what_a_context_shows(c: ContextView)
    ensures
        ({
            let f = debug_view(c);
            &&& f.lockfile == (if c.lock is Some {
                Some("held"@)
            } else {
                None
            })
            &&& f.notify_pipe == (if c.pipe is Some {
                Some("open"@)
            } else {
                None
            })
            &&& f.pidfile == path_text(c.config.pidfile)
            &&& f.lockfile_path == path_text(
                match c.config.lockfile {
                    LockfileView::Explicit(p) => Some(p),
                    LockfileView::Derive => c.config.pidfile,
                    LockfileView::Disabled => None,
                },
            )
            &&& f.stdout == path_text(c.config.stdout)
            &&& f.stderr == path_text(c.config.stderr)
            &&& f.user == c.config.user
            &&& f.group == c.config.group
            &&& f.cleanup_on_drop == c.config.cleanup_on_drop
        }),
{
}

/// Every field is shown behind its name, in order, with nothing left out.
pub proof fn how_a_context_is_shown(f: DebugView, s: Seq<char>, p: Seq<u8>)
    ensures
        debug_line(f) == "DaemonContext { lockfile: "@ + or_none(f.lockfile) + ", notify_pipe: "@
            + or_none(f.notify_pipe) + ", pidfile: "@ + or_none(f.pidfile) + ", lockfile_path: "@
            + or_none(f.lockfile_path) + ", stdout: "@ + or_none(f.stdout) + ", stderr: "@ + or_none(
            f.stderr,
        ) + ", user: "@ + or_none(f.user) + ", group: "@ + or_none(f.group) + (
        if f.cleanup_on_drop {
            ", cleanup_on_drop: true }"@
        } else {
            ", cleanup_on_drop: false }"@
        }),
        or_none(Some(s)) == s,
        or_none(None) == "none"@,
        path_text(Some(p)) == Some(utf8_lossy(p)),
        path_text(None) is None,
        quoted(Some(s)) == Some(debug_quoted(s)),
        quoted(None) is None,
        quoted_path(Some(s)) == Some(debug_quoted_path(s)),
        quoted_path(None) is None,
        ({
            let q = quoted_view(f);
            &&& q.lockfile == quoted(f.lockfile)
            &&& q.notify_pipe == quoted(f.notify_pipe)
            &&& q.pidfile == quoted_path(f.pidfile)
            &&& q.lockfile_path == quoted_path(f.lockfile_path)
            &&& q.stdout == quoted_path(f.stdout)
            &&& q.stderr == quoted_path(f.stderr)
            &&& q.user == quoted(f.user)
            &&& q.group == quoted(f.group)
            &&& q.cleanup_on_drop == f.cleanup_on_drop
        }),
{
}

} // verus!
