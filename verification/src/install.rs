//! Installing handlers for several signals, all of them or none.

use vstd::prelude::*;
use crate::error::{DaemonizeError, ErrorView};
use crate::fds::copy_ints;
use crate::path::UnixPath;
use crate::text::{cat4, decimal, decimal_of};

verus! {

/// What is to be done next.
#[derive(Debug, Clone, Copy, PartialEq, Eq, Structural)]
pub enum InstallStep {
    /// Make the path known to the handlers and keep the one it replaces.
    Publish,
    /// Install the handler for this signal and keep the disposition it replaces.
    Install(i32),
    /// Every handler is installed.
    Finished,
    /// Installing failed and was undone.
    Abandoned,
}

/// What has to be undone after a failure, and the error to report.
#[derive(Debug)]
pub struct Rollback {
    /// The signals whose replaced disposition is put back, in this order. Of a
    /// signal that occurs twice the later replacement comes first.
    pub restore: Vec<i32>,
    /// Whether the path that the handlers knew before is put back.
    pub restore_path: bool,
    pub error: DaemonizeError,
}

/// An [`InstallTask`] as a mathematical value.
pub struct InstallView {
    /// The file that the handlers remove.
    pub path: Seq<u8>,
    pub signals: Seq<i32>,
    /// The path is known to the handlers.
    pub published: bool,
    /// How many handlers are installed.
    pub done: nat,
    pub failed: bool,
}

/// Installing handlers that remove a pidfile.
///
/// The caller performs what [`step`](InstallTask::step) says and reports with
/// [`answer`](InstallTask::answer) what came of it. If that brings a
/// [`Rollback`], the caller puts back what it names and returns the error.
#[derive(Debug)]
pub struct InstallTask {
    path: UnixPath,
    signals: Vec<i32>,
    published: bool,
    done: usize,
    failed: bool,
}

impl View for InstallTask {
    type V = InstallView;

    closed spec fn view(&self) -> InstallView {
        InstallView {
            path: self.path@,
            signals: self.signals@,
            published: self.published,
            done: self.done as nat,
            failed: self.failed,
        }
    }
}

/// The task at its start.
pub open spec fn new_install(path: Seq<u8>, signals: Seq<i32>) -> InstallView {
    InstallView { path, signals, published: false, done: 0, failed: false }
}

/// What is to be done next.
pub open spec fn install_step(t: InstallView) -> InstallStep {
    if t.failed {
        InstallStep::Abandoned
    } else if !t.published {
        InstallStep::Publish
    } else if t.done < t.signals.len() {
        InstallStep::Install(t.signals[t.done as int])
    } else {
        InstallStep::Finished
    }
}

/// The error of a handler that cannot be installed. It names the signal.
pub open spec fn install_error(signal: i32, text: Seq<char>) -> ErrorView {
    ErrorView::ValidationError(
        "failed to install signal handler: signal "@ + decimal(signal as int) + ": "@ + text,
    )
}

/// The signals whose disposition is put back when the next one fails.
pub open spec fn restore_order(t: InstallView) -> Seq<i32> {
    t.signals.take(t.done as int).reverse()
}

impl InstallTask {
    /// The number of installed handlers is within the list of signals.
    #[verifier::type_invariant]
    spec fn within_signals(self) -> bool {
        self.done <= self.signals@.len()
    }

    /// A task for these signals.
    pub fn new(path: UnixPath, signals: &[i32]) -> (r: InstallTask)
        ensures
            r@ == new_install(path@, signals@),
    {
        InstallTask {
            path,
            signals: copy_ints(signals),
            published: false,
            done: 0,
            failed: false,
        }
    }

    /// The file that the handlers remove.
    pub fn path(&self) -> (r: &UnixPath)
        ensures
            r@ == self@.path,
    {
        &self.path
    }

    /// What is to be done next.
    pub fn step(&self) -> (r: InstallStep)
        ensures
            r == install_step(self@),
    {
        if self.failed {
            InstallStep::Abandoned
        } else if !self.published {
            InstallStep::Publish
        } else if self.done < self.signals.len() {
            InstallStep::Install(self.signals[self.done])
        } else {
            InstallStep::Finished
        }
    }

    /// Takes what came of the step: nothing, or the failure to install a handler
    /// in words. Making the path known cannot fail; a failure of it is ignored.
    pub fn answer(&mut self, failure: Option<String>) -> (r: Option<Rollback>)
        ensures
            install_step(old(self)@) is Publish ==> r is None && final(self)@ == (InstallView {
                published: failure is None,
                ..old(self)@
            }),
            install_step(old(self)@) is Finished || install_step(old(self)@) is Abandoned ==> r
                is None && final(self)@ == old(self)@,
            install_step(old(self)@) matches InstallStep::Install(signal) ==> match failure {
                None => r is None && final(self)@ == (InstallView {
                    done: old(self)@.done + 1,
                    ..old(self)@
                }),
                Some(text) => {
                    &&& r matches Some(back) && back.restore@ == restore_order(old(self)@)
                        && back.restore_path == old(self)@.published && back.error@ == install_error(signal, text@)
                    &&& final(self)@ == (InstallView { failed: true, ..old(self)@ })
                },
            },
    {
        proof {
            use_type_invariant(&*self);
        }
        if self.failed {
            return None;
        }
        if !self.published {
            self.published = failure.is_none();
            return None;
        }
        if self.done >= self.signals.len() {
            return None;
        }
        match failure {
            None => {
                self.done = self.done + 1;
                None
            },
            Some(text) => {
                let signal: i32 = self.signals[self.done];
                let mut restore: Vec<i32> = Vec::new();
                let mut i: usize = self.done;
                let ghost taken = self.signals@.take(self.done as int);
                while i > 0
                    invariant
                        i <= self.done <= self.signals@.len(),
                        taken == self.signals@.take(self.done as int),
                        restore@.len() == self.done - i,
                        forall|j: int|
                            0 <= j < restore@.len() ==> restore@[j] == taken[self.done - 1 - j],
                    decreases i,
                {
                    i = i - 1;
                    restore.push(self.signals[i]);
                }
                assert(restore@ =~= taken.reverse());
                self.failed = true;
                let number = decimal_of(signal as i64);
                Some(
                    Rollback {
                        restore,
                        restore_path: self.published,
                        error: DaemonizeError::ValidationError(
                            cat4(
                                "failed to install signal handler: signal ",
                                number.as_str(),
                                ": ",
                                text.as_str(),
                            ),
                        ),
                    },
                )
            },
        }
    }
}

/// The dispositions after the handler has been installed for each signal.
pub open spec fn installed(table: Map<i32, int>, signals: Seq<i32>, handler: int) -> Map<i32, int>
    decreases signals.len(),
{
    if signals.len() == 0 {
        table
    } else {
        installed(table, signals.drop_last(), handler).insert(signals.last(), handler)
    }
}

/// The dispositions that installing replaced, one for each signal, in order.
pub open spec fn replaced(table: Map<i32, int>, signals: Seq<i32>, handler: int) -> Seq<int>
    decreases signals.len(),
{
    if signals.len() == 0 {
        Seq::empty()
    } else {
        replaced(table, signals.drop_last(), handler).push(
            installed(table, signals.drop_last(), handler)[signals.last()],
        )
    }
}

/// The dispositions after the kept ones have been put back, in the order of
/// `signals`.
pub open spec fn put_back(table: Map<i32, int>, signals: Seq<i32>, kept: Seq<int>) -> Map<i32, int>
    decreases signals.len(),
{
    if signals.len() == 0 {
        table
    } else {
        put_back(table.insert(signals[0], kept[0]), signals.skip(1), kept.skip(1))
    }
}

proof fn lemma_installed_domain(table: Map<i32, int>, signals: Seq<i32>, handler: int)
    ensures
        forall|s: i32|
            table.contains_key(s) ==> #[trigger] installed(table, signals, handler).contains_key(s),
        replaced(table, signals, handler).len() == signals.len(),
    decreases signals.len(),
{
    if signals.len() > 0 {
        let prior = signals.drop_last();
        lemma_installed_domain(table, prior, handler);
        assert forall|s: i32| table.contains_key(s) implies #[trigger] installed(
            table,
            signals,
            handler,
        ).contains_key(s) by {
            assert(installed(table, prior, handler).contains_key(s));
        }
    }
}

/// Putting the replaced dispositions back in reverse order restores every
/// disposition, even where a signal occurs twice.
pub proof fn rollback_restores_every_disposition(
    table: Map<i32, int>,
    signals: Seq<i32>,
    handler: int,
)
    requires
        forall|i: int| 0 <= i < signals.len() ==> table.contains_key(#[trigger] signals[i]),
    ensures
        put_back(
            installed(table, signals, handler),
            signals.reverse(),
            replaced(table, signals, handler).reverse(),
        ) == table,
    decreases signals.len(),
{
    if signals.len() > 0 {
        let prior = signals.drop_last();
        let last = signals.last();
        let before = installed(table, prior, handler);
        let kept = replaced(table, prior, handler);
        lemma_installed_domain(table, prior, handler);
        lemma_installed_domain(table, signals, handler);
        assert forall|i: int| 0 <= i < prior.len() implies table.contains_key(
            #[trigger] prior[i],
        ) by {
            assert(prior[i] == signals[i]);
        }
        rollback_restores_every_disposition(table, prior, handler);
        assert(signals.reverse().skip(1) =~= prior.reverse());
        assert(replaced(table, signals, handler).reverse().skip(1) =~= kept.reverse());
        assert(table.contains_key(signals[signals.len() - 1]));
        assert(before.insert(last, handler).insert(last, before[last]) =~= before);
    }
}

/// What a process does on signals: the disposition of each of them, and the path
/// that the handlers remove.
pub struct HandlersView {
    pub table: Map<i32, int>,
    pub path: Option<Seq<u8>>,
}

/// What a process does on signals after the steps that a task has behind it.
pub open spec fn after_steps(before: HandlersView, t: InstallView, handler: int) -> HandlersView {
    HandlersView {
        table: installed(before.table, t.signals.take(t.done as int), handler),
        path: if t.published {
            Some(t.path)
        } else {
            before.path
        },
    }
}

/// What a process does on signals after it has put back the dispositions of
/// `signals` that it kept, and the path that it kept where that is asked for.
pub open spec fn undone(
    now: HandlersView,
    signals: Seq<i32>,
    restore_path: bool,
    kept: Seq<int>,
    kept_path: Option<Seq<u8>>,
) -> HandlersView {
    HandlersView {
        table: put_back(now.table, signals, kept),
        path: if restore_path {
            kept_path
        } else {
            now.path
        },
    }
}

/// A failed installation leaves no trace, wherever it failed: what the rollback
/// names restores every disposition and the path that the handlers remove. The
/// handlers of an earlier installation are as they were, too.
pub proof fn rollback_restores_everything(before: HandlersView, t: InstallView, handler: int)
    requires
        t.done <= t.signals.len(),
        forall|i: int| 0 <= i < t.done ==> before.table.contains_key(#[trigger] t.signals[i]),
    ensures
        undone(
            after_steps(before, t, handler),
            restore_order(t),
            t.published,
            replaced(before.table, t.signals.take(t.done as int), handler).reverse(),
            before.path,
        ) == before,
{
    let made = t.signals.take(t.done as int);
    assert forall|i: int| 0 <= i < made.len() implies before.table.contains_key(
        #[trigger] made[i],
    ) by {
        assert(made[i] == t.signals[i]);
    }
    rollback_restores_every_disposition(before.table, made, handler);
}

/// The path is made known first; then the handler is installed for each signal, in
/// order; then everything is done. After a failure nothing is.
pub proof fn handlers_are_installed_in_order(path: Seq<u8>, signals: Seq<i32>, t: InstallView)
    ensures
        new_install(path, signals).path == path,
        new_install(path, signals).signals == signals,
        new_install(path, signals).done == 0,
        install_step(new_install(path, signals)) is Publish,
        !t.failed && !t.published ==> install_step(t) is Publish,
        !t.failed && t.published && t.done < t.signals.len() ==> install_step(t)
            == InstallStep::Install(t.signals[t.done as int]),
        !t.failed && t.published && t.done >= t.signals.len() ==> install_step(t) is Finished,
        t.failed ==> install_step(t) is Abandoned,
{
}

/// A failure names the signal, and puts back what was replaced before it, the last first.
pub proof fn a_failure_names_the_signal(t: InstallView, signal: i32, text: Seq<char>, i: int)
    requires
        t.done <= t.signals.len(),
    ensures
        install_error(signal, text) == ErrorView::ValidationError(
            "failed to install signal handler: signal "@ + decimal(signal as int) + ": "@ + text,
        ),
        restore_order(t).len() == t.done,
        0 <= i < t.done ==> restore_order(t)[i] == t.signals[t.done - 1 - i],
{
}

} // verus!
