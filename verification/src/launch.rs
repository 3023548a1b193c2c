//! What the command does in the daemon before it executes the program.

use vstd::prelude::*;
use crate::cli::{build_argv, cloexec_failure, exec_argv, exec_error, exec_failure};
use crate::config::{ConfigView, DaemonConfig};
use crate::errno::{ErrnoKind, OsFailure};
use crate::error::{DaemonizeError, ErrorView};
use crate::text::texts;

verus! {

/// A call to be made.
#[derive(Debug)]
pub enum LaunchOp {
    /// Hand the files over and change to the configured user and group.
    DropPrivileges,
    /// Let the lock's descriptor survive the execution of the program.
    ClearCloexec(i32),
    /// Give `SIGPIPE` its default disposition.
    DefaultSigpipe,
    /// Execute a program by the first of these arguments, with all of them. The
    /// parent learns of the success by the pipe that this closes.
    Exec(Vec<String>),
    /// Report the error to the parent and end.
    Report(DaemonizeError),
}

/// What came of a call.
#[derive(Debug)]
pub enum LaunchEvent {
    Done,
    /// A system call failed.
    Failed(OsFailure),
    /// The privileges were not dropped.
    Refused(DaemonizeError),
}

/// A [`LaunchOp`] as a mathematical value.
pub enum LaunchOpView {
    DropPrivileges,
    ClearCloexec(i32),
    DefaultSigpipe,
    Exec(Seq<Seq<char>>),
    Report(ErrorView),
}

/// A [`LaunchEvent`] as a mathematical value.
pub enum LaunchEventView {
    Done,
    Failed(ErrnoKind, Seq<char>),
    Refused(ErrorView),
}

/// A [`Launch`] as a mathematical value.
pub struct LaunchView {
    /// What the program is executed by.
    pub path: Seq<char>,
    /// The calls to be made, in order.
    pub pending: Seq<LaunchOpView>,
}

impl View for LaunchOp {
    type V = LaunchOpView;

    open spec fn view(&self) -> LaunchOpView {
        match self {
            LaunchOp::DropPrivileges => LaunchOpView::DropPrivileges,
            LaunchOp::ClearCloexec(fd) => LaunchOpView::ClearCloexec(*fd),
            LaunchOp::DefaultSigpipe => LaunchOpView::DefaultSigpipe,
            LaunchOp::Exec(argv) => LaunchOpView::Exec(texts(argv@)),
            LaunchOp::Report(e) => LaunchOpView::Report(e@),
        }
    }
}

impl View for LaunchEvent {
    type V = LaunchEventView;

    open spec fn view(&self) -> LaunchEventView {
        match self {
            LaunchEvent::Done => LaunchEventView::Done,
            LaunchEvent::Failed(f) => LaunchEventView::Failed(f.kind, f.text@),
            LaunchEvent::Refused(e) => LaunchEventView::Refused(e@),
        }
    }
}

/// Calls as mathematical values.
pub open spec fn launch_calls(v: Seq<LaunchOp>) -> Seq<LaunchOpView> {
    Seq::new(v.len(), |i: int| v[i]@)
}

/// The way from the daemon to the program.
#[derive(Debug)]
pub struct Launch {
    path: String,
    pending: Vec<LaunchOp>,
}

impl View for Launch {
    type V = LaunchView;

    closed spec fn view(&self) -> LaunchView {
        LaunchView { path: self.path@, pending: launch_calls(self.pending@) }
    }
}

/// The change of user and group, where one is configured.
pub open spec fn identity_calls(c: ConfigView) -> Seq<LaunchOpView> {
    if c.switches_identity() {
        seq![LaunchOpView::DropPrivileges]
    } else {
        Seq::empty()
    }
}

/// What is done for a lock that is held.
pub open spec fn lock_calls(lock: Option<i32>) -> Seq<LaunchOpView> {
    match lock {
        Some(fd) => seq![LaunchOpView::ClearCloexec(fd)],
        None => Seq::empty(),
    }
}

/// The execution, or the report of arguments that cannot be handed to a program.
pub open spec fn exec_calls(path: Seq<char>, program: Seq<Seq<char>>) -> Seq<LaunchOpView> {
    match exec_argv(path, program) {
        Ok(argv) => seq![LaunchOpView::DefaultSigpipe, LaunchOpView::Exec(argv)],
        Err(e) => seq![LaunchOpView::Report(e)],
    }
}

/// The way to the program at its start.
pub open spec fn new_launch(
    c: ConfigView,
    lock: Option<i32>,
    path: Seq<char>,
    program: Seq<Seq<char>>,
) -> LaunchView {
    LaunchView { path, pending: identity_calls(c) + lock_calls(lock) + exec_calls(path, program) }
}

/// Whether `e` can be what came of `op`. A program that is executed does not come
/// back, nor does the report of an error.
pub open spec fn launch_fits(op: LaunchOpView, e: LaunchEventView) -> bool {
    match op {
        LaunchOpView::DropPrivileges => e is Done || e is Refused,
        LaunchOpView::ClearCloexec(_) => e is Done || e is Failed,
        LaunchOpView::DefaultSigpipe => e is Done,
        LaunchOpView::Exec(_) => e is Failed,
        LaunchOpView::Report(_) => false,
    }
}

/// Nothing but the report of an error is left to be done.
pub open spec fn reporting(s: LaunchView, e: ErrorView) -> LaunchView {
    LaunchView { pending: seq![LaunchOpView::Report(e)], ..s }
}

/// The way to the program after `e` came of the call that was to be made. What
/// cannot have come of it changes nothing.
pub open spec fn launch_after(s: LaunchView, e: LaunchEventView) -> LaunchView {
    if s.pending.len() == 0 || !launch_fits(s.pending[0], e) {
        s
    } else {
        match e {
            LaunchEventView::Done => LaunchView { pending: s.pending.skip(1), ..s },
            LaunchEventView::Refused(error) => reporting(s, error),
            LaunchEventView::Failed(kind, text) => if s.pending[0] is Exec {
                reporting(s, exec_error(kind, "exec "@ + s.path + ": "@ + text))
            } else {
                reporting(
                    s,
                    ErrorView::ExecFailed("failed to clear CLOEXEC on lockfile fd: "@ + text),
                )
            },
        }
    }
}

impl Launch {
    /// The way to a program that is executed by `path`, for a daemon that holds
    /// the lock `lock`.
    pub fn new(
        config: &DaemonConfig,
        lock: Option<i32>,
        path: String,
        program: &Vec<String>,
    ) -> (r: Launch)
        ensures
            r@ == new_launch(config@, lock, path@, texts(program@)),
    {
        let mut pending: Vec<LaunchOp> = Vec::new();
        if config.switches_identity() {
            pending.push(LaunchOp::DropPrivileges);
        }
        assert(launch_calls(pending@) =~= identity_calls(config@));
        match lock {
            Some(fd) => pending.push(LaunchOp::ClearCloexec(fd)),
            None => {},
        }
        assert(launch_calls(pending@) =~= identity_calls(config@) + lock_calls(lock));
        match build_argv(path.as_str(), program) {
            Ok(argv) => {
                pending.push(LaunchOp::DefaultSigpipe);
                pending.push(LaunchOp::Exec(argv));
            },
            Err(e) => pending.push(LaunchOp::Report(e)),
        }
        assert(launch_calls(pending@) =~= new_launch(
            config@,
            lock,
            path@,
            texts(program@),
        ).pending);
        Launch { path, pending }
    }

    /// The call to be made. There is always one: the last is the execution of the
    /// program or the report of an error.
    pub fn op(&self) -> (r: Option<&LaunchOp>)
        ensures
            match r {
                Some(op) => self@.pending.len() > 0 && op@ == self@.pending[0],
                None => self@.pending.len() == 0,
            },
    {
        if self.pending.len() == 0 {
            None
        } else {
            Some(&self.pending[0])
        }
    }

    fn report(&mut self, error: DaemonizeError)
        ensures
            final(self)@ == reporting(old(self)@, error@),
    {
        let mut pending: Vec<LaunchOp> = Vec::new();
        let ghost view = error@;
        pending.push(LaunchOp::Report(error));
        assert(launch_calls(pending@) =~= seq![LaunchOpView::Report(view)]);
        self.pending = pending;
    }

    /// Takes what came of the call that was to be made. What cannot have come of
    /// it changes nothing.
    pub fn advance(&mut self, event: LaunchEvent)
        ensures
            final(self)@ == launch_after(old(self)@, event@),
    {
        if self.pending.len() == 0 {
            return;
        }
        let ghost start = self@;
        assert(start.pending[0] == self.pending@[0]@);
        match event {
            LaunchEvent::Done => {
                let moves = matches!(
                    &self.pending[0],
                    LaunchOp::DropPrivileges | LaunchOp::ClearCloexec(_) | LaunchOp::DefaultSigpipe
                );
                if moves {
                    let ghost before = self.pending@;
                    self.pending.remove(0);
                    assert(launch_calls(self.pending@) =~= launch_calls(before).skip(1));
                }
            },
            LaunchEvent::Refused(error) => {
                if matches!(&self.pending[0], LaunchOp::DropPrivileges) {
                    self.report(error);
                }
            },
            LaunchEvent::Failed(failure) => {
                if matches!(&self.pending[0], LaunchOp::Exec(_)) {
                    let error = exec_failure(self.path.as_str(), &failure);
                    self.report(error);
                } else if matches!(&self.pending[0], LaunchOp::ClearCloexec(_)) {
                    let error = cloexec_failure(&failure);
                    self.report(error);
                }
            },
        }
    }
}

// ---------------------------------------------------------------------------
// Laws
// ---------------------------------------------------------------------------

/// The way to the program after `events` came of the calls, one after the other.
pub open spec fn launch_run(s: LaunchView, events: Seq<LaunchEventView>) -> LaunchView
    decreases events.len(),
{
    if events.len() == 0 {
        s
    } else {
        launch_run(launch_after(s, events[0]), events.skip(1))
    }
}

/// The calls that came back when `events` came of the calls.
pub open spec fn launch_made(s: LaunchView, events: Seq<LaunchEventView>) -> Seq<LaunchOpView>
    decreases events.len(),
{
    if events.len() == 0 {
        Seq::empty()
    } else {
        let rest = launch_made(launch_after(s, events[0]), events.skip(1));
        if s.pending.len() > 0 && launch_fits(s.pending[0], events[0]) {
            seq![s.pending[0]] + rest
        } else {
            rest
        }
    }
}

/// Whether nothing is left but to report an error.
pub open spec fn gives_up(s: LaunchView) -> bool {
    s.pending.len() == 1 && s.pending[0] is Report
}

proof fn lemma_stays_given_up(s: LaunchView, events: Seq<LaunchEventView>)
    requires
        gives_up(s),
    ensures
        launch_run(s, events) == s,
        launch_made(s, events) == Seq::<LaunchOpView>::empty(),
    decreases events.len(),
{
    if events.len() > 0 {
        lemma_stays_given_up(s, events.skip(1));
    }
}

proof fn lemma_launch(s: LaunchView, events: Seq<LaunchEventView>)
    requires
        s.pending.len() > 0,
        s.pending.last() is Exec || s.pending.last() is Report,
        forall|i: int|
            0 <= i < s.pending.len() - 1 ==> !((#[trigger] s.pending[i]) is Exec)
                && !(s.pending[i] is Report),
    ensures
        gives_up(launch_run(s, events)) || (launch_run(s, events).pending.len() > 0 && launch_made(
            s,
            events,
        ) + launch_run(s, events).pending == s.pending),
        launch_run(s, events).path == s.path,
    decreases events.len(),
{
    if events.len() == 0 {
        assert(launch_made(s, events) + s.pending =~= s.pending);
    } else {
        let rest = events.skip(1);
        let next = launch_after(s, events[0]);
        if s.pending.len() > 0 && launch_fits(s.pending[0], events[0]) {
            if events[0] is Done {
                assert(s.pending.len() > 1) by {
                    if s.pending.len() == 1 {
                        assert(s.pending.last() == s.pending[0]);
                    }
                }
                assert(next.pending.last() == s.pending.last());
                assert forall|i: int| 0 <= i < next.pending.len() - 1 implies !((
                #[trigger] next.pending[i]) is Exec) && !(next.pending[i] is Report) by {
                    assert(next.pending[i] == s.pending[i + 1]);
                }
                lemma_launch(next, rest);
                if !gives_up(launch_run(next, rest)) {
                    assert(launch_made(s, events) + launch_run(s, events).pending =~= seq![
                        s.pending[0],
                    ] + next.pending);
                    assert(seq![s.pending[0]] + next.pending =~= s.pending);
                }
            } else {
                lemma_stays_given_up(next, rest);
            }
        } else {
            lemma_launch(s, rest);
        }
    }
}

/// A program is executed only after everything before it came off, in order: the
/// change to the configured user and group, handing the lock on, and giving
/// `SIGPIPE` its default disposition.
pub proof fn programs_are_executed_last(
    c: ConfigView,
    lock: Option<i32>,
    path: Seq<char>,
    program: Seq<Seq<char>>,
    events: Seq<LaunchEventView>,
)
    requires
        launch_run(new_launch(c, lock, path, program), events).pending.len() > 0,
        launch_run(new_launch(c, lock, path, program), events).pending[0] is Exec,
    ensures
        launch_made(new_launch(c, lock, path, program), events) == identity_calls(c) + lock_calls(
            lock,
        ) + seq![LaunchOpView::DefaultSigpipe],
        exec_argv(path, program) is Ok,
        launch_run(new_launch(c, lock, path, program), events).pending == seq![
            LaunchOpView::Exec(exec_argv(path, program)->Ok_0),
        ],
{
    let s = new_launch(c, lock, path, program);
    let end = launch_run(s, events);
    let before = identity_calls(c) + lock_calls(lock);
    lemma_launch_start(c, lock, path, program);
    lemma_launch(s, events);
    let made = launch_made(s, events);
    assert(made + end.pending == s.pending);
    assert(s.pending[made.len() as int] == end.pending[0]);
    assert(made.len() == s.pending.len() - 1);
    assert(s.pending =~= before + exec_calls(path, program));
    assert(made =~= s.pending.drop_last());
    assert(end.pending =~= seq![s.pending.last()]);
    assert(s.pending.drop_last() =~= before + seq![LaunchOpView::DefaultSigpipe]);
}

proof fn lemma_launch_start(
    c: ConfigView,
    lock: Option<i32>,
    path: Seq<char>,
    program: Seq<Seq<char>>,
)
    ensures
        ({
            let p = new_launch(c, lock, path, program).pending;
            &&& p.len() > 0
            &&& p.last() == exec_calls(path, program).last()
            &&& p.last() is Exec || p.last() is Report
            &&& forall|i: int|
                0 <= i < p.len() - 1 ==> !((#[trigger] p[i]) is Exec) && !(p[i] is Report)
        }),
{
}

/// There is always a call to be made: the way ends in a program or in the report
/// of an error, and after a failure nothing is done but to report it.
pub proof fn launching_ends_in_a_program_or_a_report(
    c: ConfigView,
    lock: Option<i32>,
    path: Seq<char>,
    program: Seq<Seq<char>>,
    events: Seq<LaunchEventView>,
    e: LaunchEventView,
    more: Seq<LaunchEventView>,
)
    ensures
        ({
            let s = launch_run(new_launch(c, lock, path, program), events);
            &&& s.pending.len() > 0
            &&& launch_fits(s.pending[0], e) && !(e is Done) ==> {
                &&& gives_up(launch_after(s, e))
                &&& launch_made(launch_after(s, e), more) == Seq::<LaunchOpView>::empty()
                &&& launch_run(launch_after(s, e), more) == launch_after(s, e)
            }
        }),
{
    let start = new_launch(c, lock, path, program);
    let s = launch_run(start, events);
    lemma_launch_start(c, lock, path, program);
    lemma_launch(start, events);
    if launch_fits(s.pending[0], e) && !(e is Done) {
        lemma_stays_given_up(launch_after(s, e), more);
    }
}

} // verus!
