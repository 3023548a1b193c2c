//! What a daemon holds after its start, and what it does with it.

use vstd::prelude::*;
use crate::config::{ConfigView, DaemonConfig};
use crate::error::{DaemonizeError, ErrorView};
use crate::install::{new_install, InstallTask};
use crate::notify::{
    error_message, ready_message, unnotified_message, NotifyPipe, PipeWrite, PipeWriteView,
};
use crate::path::{clone_opt, opt_bytes, paths_view, utf8_lossy, UnixPath};
use crate::privileges::{new_task, switched_to, PrivilegeTask};
use crate::signals::term_signals;
use crate::text::{clone_text, opt_text, IntoText};
use crate::thread_count::{assert_single_threaded, unknown_text, violation_text};

verus! {

/// What is done when a daemon ends, in order.
#[derive(Debug, PartialEq, Eq)]
pub enum FinalAction {
    /// Remove the pidfile; that it cannot be removed does not matter.
    RemovePidfile(UnixPath),
    /// Write to the notification pipe and close it; that it cannot be written
    /// does not matter.
    WritePipe(PipeWrite),
    /// Close the descriptor that holds the lock.
    ReleaseLock(i32),
    /// End the process at once with this code.
    Exit(i32),
}

/// A [`FinalAction`] as a mathematical value.
pub enum FinalActionView {
    RemovePidfile(Seq<u8>),
    WritePipe(PipeWriteView),
    ReleaseLock(int),
    Exit(int),
}

impl View for FinalAction {
    type V = FinalActionView;

    open spec fn view(&self) -> FinalActionView {
        match self {
            FinalAction::RemovePidfile(p) => FinalActionView::RemovePidfile(p@),
            FinalAction::WritePipe(w) => FinalActionView::WritePipe(w@),
            FinalAction::ReleaseLock(fd) => FinalActionView::ReleaseLock(*fd as int),
            FinalAction::Exit(code) => FinalActionView::Exit(*code as int),
        }
    }
}

/// Actions as mathematical values.
pub open spec fn finals_view(v: Seq<FinalAction>) -> Seq<FinalActionView> {
    Seq::new(v.len(), |i: int| v[i]@)
}

/// The context of a daemon: its configuration, the lock, the notification pipe.
///
/// The process still has its original privileges when it gets the context. It
/// does its privileged work, drops the privileges and then says that it is ready.
#[non_exhaustive]
pub struct DaemonContext {
    config: DaemonConfig,
    lockfile: Option<i32>,
    notify_pipe: Option<NotifyPipe>,
    cleaned_up: bool,
    privileges_dropped: bool,
}

/// A [`DaemonContext`] as a mathematical value.
pub struct ContextView {
    pub config: ConfigView,
    /// The descriptor that holds the lock.
    pub lock: Option<int>,
    /// The write end of the notification pipe, while nothing has been said on it.
    pub pipe: Option<int>,
    /// The pidfile has been removed.
    pub cleaned_up: bool,
    /// The change of user or group is complete.
    pub privileges_dropped: bool,
}

/// An optional descriptor as a mathematical value.
pub open spec fn opt_fd(fd: Option<i32>) -> Option<int> {
    match fd {
        Some(n) => Some(n as int),
        None => None,
    }
}

/// An optional pipe as a mathematical value.
pub open spec fn opt_pipe(pipe: Option<NotifyPipe>) -> Option<int> {
    match pipe {
        Some(p) => Some(p@),
        None => None,
    }
}

impl View for DaemonContext {
    type V = ContextView;

    closed spec fn view(&self) -> ContextView {
        ContextView {
            config: self.config@,
            lock: opt_fd(self.lockfile),
            pipe: opt_pipe(self.notify_pipe),
            cleaned_up: self.cleaned_up,
            privileges_dropped: self.privileges_dropped,
        }
    }
}

/// The context of a daemon that has just been started.
pub open spec fn new_context(
    config: ConfigView,
    lock: Option<int>,
    pipe: Option<int>,
) -> ContextView {
    ContextView { config, lock, pipe, cleaned_up: false, privileges_dropped: false }
}

/// The pidfile that a cleanup removes: none if there is none, or if it has been
/// removed before.
pub open spec fn removal(c: ContextView) -> Option<Seq<u8>> {
    if c.cleaned_up {
        None
    } else {
        c.config.pidfile
    }
}

/// Whether readiness may be signaled: not while a configured change of user or
/// group is outstanding.
pub open spec fn may_notify(c: ContextView) -> bool {
    !c.config.switches_identity() || c.privileges_dropped
}

/// A message to the notification pipe, if nothing has been said on it.
pub open spec fn pipe_write(pipe: Option<int>, bytes: Seq<u8>) -> Option<PipeWriteView> {
    match pipe {
        Some(fd) => Some(PipeWriteView { fd, bytes }),
        None => None,
    }
}

/// An optional write as a mathematical value.
pub open spec fn opt_write(w: Option<PipeWrite>) -> Option<PipeWriteView> {
    match w {
        Some(x) => Some(x@),
        None => None,
    }
}

/// The removal of the pidfile at the end, where it is wanted.
pub open spec fn end_removal(c: ContextView) -> Seq<FinalActionView> {
    match removal(c) {
        Some(p) => if c.config.cleanup_on_drop {
            seq![FinalActionView::RemovePidfile(p)]
        } else {
            Seq::empty()
        },
        None => Seq::empty(),
    }
}

/// A message at the end, if nothing has been said before.
pub open spec fn end_message(c: ContextView, bytes: Seq<u8>) -> Seq<FinalActionView> {
    match pipe_write(c.pipe, bytes) {
        Some(w) => seq![FinalActionView::WritePipe(w)],
        None => Seq::empty(),
    }
}

/// What is done to report an error: the pidfile goes first, so that it is gone
/// when the parent learns of the error.
pub open spec fn report_actions(c: ContextView, e: ErrorView) -> Seq<FinalActionView> {
    end_removal(c) + end_message(c, error_message(e)) + seq![FinalActionView::Exit(e.code() as int)]
}

/// What is done when the context goes away.
pub open spec fn drop_actions(c: ContextView) -> Seq<FinalActionView> {
    end_message(c, unnotified_message()) + end_removal(c) + (match c.lock {
        Some(fd) => seq![FinalActionView::ReleaseLock(fd)],
        None => Seq::empty(),
    })
}

/// The context after its end: nothing is left to be said, and where cleaning up
/// is wanted it has been done.
pub open spec fn ended(c: ContextView) -> ContextView {
    ContextView { pipe: None, cleaned_up: c.cleaned_up || c.config.cleanup_on_drop, ..c }
}

/// The files of a daemon: pidfile, lockfile, stdout, stderr.
pub open spec fn owned_paths(c: ConfigView) -> Seq<Seq<u8>> {
    opt_seq(c.pidfile) + opt_seq(c.effective_lockfile()) + opt_seq(c.stdout) + opt_seq(c.stderr)
}

/// A path or nothing.
pub open spec fn opt_seq(p: Option<Seq<u8>>) -> Seq<Seq<u8>> {
    match p {
        Some(path) => seq![path],
        None => Seq::empty(),
    }
}

fn push_path(out: &mut Vec<UnixPath>, p: Option<&UnixPath>)
    ensures
        paths_view(final(out)@) == paths_view(old(out)@) + opt_seq(
            match p {
                Some(q) => Some(q@),
                None => None,
            },
        ),
{
    let ghost before = out@;
    match p {
        Some(path) => out.push(path.clone()),
        None => {},
    }
    assert(paths_view(out@) =~= paths_view(before) + opt_seq(
        match p {
            Some(q) => Some(q@),
            None => None,
        },
    ));
}

impl DaemonConfig {
    /// The files of the daemon: pidfile, lockfile, stdout, stderr.
    pub fn owned_paths(&self) -> (r: Vec<UnixPath>)
        ensures
            paths_view(r@) == owned_paths(self@),
    {
        let mut out: Vec<UnixPath> = Vec::new();
        push_path(&mut out, self.pidfile.as_ref());
        push_path(&mut out, self.effective_lockfile());
        push_path(&mut out, self.stdout.as_ref());
        push_path(&mut out, self.stderr.as_ref());
        assert(paths_view(out@) =~= owned_paths(self@));
        out
    }
}

/// What came of writing the readiness byte: nothing, or the error in words.
pub fn notify_outcome(failure: Option<String>) -> (r: Result<(), DaemonizeError>)
    ensures
        r is Ok <==> failure is None,
        r matches Err(e) ==> e@ == ErrorView::NotifyFailed(failure->0@),
{
    match failure {
        None => Ok(()),
        Some(text) => Err(DaemonizeError::NotifyFailed(text)),
    }
}

impl DaemonContext {
    /// The context of a daemon that has just been started.
    pub fn new(config: DaemonConfig, lockfile: Option<i32>, notify_pipe: Option<NotifyPipe>) -> (r:
        DaemonContext)
        ensures
            r@ == new_context(config@, opt_fd(lockfile), opt_pipe(notify_pipe)),
    {
        DaemonContext {
            config,
            lockfile,
            notify_pipe,
            cleaned_up: false,
            privileges_dropped: false,
        }
    }

    /// The descriptor that holds the lock.
    pub fn lockfile_fd(&self) -> (r: Option<i32>)
        ensures
            opt_fd(r) == self@.lock,
    {
        self.lockfile
    }

    /// Overrides whether the pidfile is removed when the context goes away.
    pub fn set_cleanup_on_drop(&mut self, cleanup: bool)
        ensures
            final(self)@ == (ContextView {
                config: ConfigView { cleanup_on_drop: cleanup, ..old(self)@.config },
                ..old(self)@
            }),
    {
        self.config.cleanup_on_drop = cleanup;
    }

    /// Takes note that the pidfile is removed, and returns the file to remove.
    /// Only the first call returns one; a lockfile of its own is left alone.
    pub fn cleanup(&mut self) -> (r: Option<UnixPath>)
        ensures
            opt_bytes(r) == removal(old(self)@),
            opt_bytes(r) == (if old(self)@.cleaned_up {
                None
            } else {
                old(self)@.config.pidfile
            }),
            final(self)@ == (ContextView { cleaned_up: true, ..old(self)@ }),
    {
        if self.cleaned_up {
            return None;
        }
        self.cleaned_up = true;
        clone_opt(&self.config.pidfile)
    }

    fn take_write(&mut self, ready: bool, error: Option<&DaemonizeError>) -> (r: Option<PipeWrite>)
        ensures
            opt_write(r) == pipe_write(
                old(self)@.pipe,
                if ready {
                    ready_message()
                } else {
                    match error {
                        Some(e) => error_message(e@),
                        None => unnotified_message(),
                    }
                },
            ),
            final(self)@ == (ContextView { pipe: None, ..old(self)@ }),
    {
        match self.notify_pipe.take() {
            None => None,
            Some(pipe) => if ready {
                Some(pipe.signal_ready())
            } else {
                match error {
                    Some(e) => Some(pipe.signal_error(e)),
                    None => Some(pipe.signal_unnotified()),
                }
            },
        }
    }

    /// Says that the daemon is ready: returns what is to be written, if anything
    /// is; [`notify_outcome`] takes what came of it. Refused while a configured
    /// change of user or group is outstanding; the pipe then stays open.
    #[must_use]
    pub fn notify_parent(&mut self) -> (r: Result<Option<PipeWrite>, DaemonizeError>)
        ensures
            match r {
                Ok(w) => {
                    &&& may_notify(old(self)@)
                    &&& opt_write(w) == pipe_write(old(self)@.pipe, ready_message())
                    &&& final(self)@ == (ContextView { pipe: None, ..old(self)@ })
                },
                Err(e) => {
                    &&& !may_notify(old(self)@)
                    &&& e@ == ErrorView::PrivilegesNotDropped
                    &&& final(self)@ == old(self)@
                },
            },
            r is Ok <==> old(self)@.privileges_dropped || (old(self)@.config.user is None && old(
                self,
            )@.config.group is None),
            r matches Ok(w) ==> (w is Some <==> old(self)@.pipe is Some),
            r matches Ok(Some(w)) ==> old(self)@.pipe == Some(w.fd as int) && w.bytes@ == seq![0u8],
    {
        if self.config.switches_identity() && !self.privileges_dropped {
            return Err(DaemonizeError::PrivilegesNotDropped);
        }
        Ok(self.take_write(true, None))
    }

    /// Says that the daemon is ready like [`notify_parent`](DaemonContext::notify_parent).
    /// Where that is refused, returns what is done to report the refusal. A write
    /// that fails is to be reported with [`report_error`](DaemonContext::report_error).
    pub fn notify_parent_or_report(&mut self) -> (r: Result<Option<PipeWrite>, Vec<FinalAction>>)
        ensures
            match r {
                Ok(w) => {
                    &&& may_notify(old(self)@)
                    &&& opt_write(w) == pipe_write(old(self)@.pipe, ready_message())
                    &&& final(self)@ == (ContextView { pipe: None, ..old(self)@ })
                },
                Err(actions) => {
                    &&& !may_notify(old(self)@)
                    &&& finals_view(actions@) == report_actions(
                        old(self)@,
                        ErrorView::PrivilegesNotDropped,
                    )
                    &&& final(self)@ == ended(old(self)@)
                },
            },
    {
        match self.notify_parent() {
            Ok(w) => Ok(w),
            Err(e) => Err(self.report_error(&e)),
        }
    }

    fn push_removal(&mut self, out: &mut Vec<FinalAction>)
        ensures
            finals_view(final(out)@) == finals_view(old(out)@) + end_removal(old(self)@),
            final(self)@ == (ContextView {
                cleaned_up: old(self)@.cleaned_up || old(self)@.config.cleanup_on_drop,
                ..old(self)@
            }),
    {
        let ghost before = out@;
        let ghost start = self@;
        if self.config.cleanup_on_drop {
            match self.cleanup() {
                Some(p) => out.push(FinalAction::RemovePidfile(p)),
                None => {},
            }
        }
        assert(finals_view(out@) =~= finals_view(before) + end_removal(start));
    }

    fn push_message(&mut self, out: &mut Vec<FinalAction>, error: Option<&DaemonizeError>)
        ensures
            finals_view(final(out)@) == finals_view(old(out)@) + end_message(
                old(self)@,
                match error {
                    Some(e) => error_message(e@),
                    None => unnotified_message(),
                },
            ),
            final(self)@ == (ContextView { pipe: None, ..old(self)@ }),
    {
        let ghost before = out@;
        let ghost start = self@;
        match self.take_write(false, error) {
            Some(w) => out.push(FinalAction::WritePipe(w)),
            None => {},
        }
        assert(finals_view(out@) =~= finals_view(before) + end_message(
            start,
            match error {
                Some(e) => error_message(e@),
                None => unnotified_message(),
            },
        ));
    }

    /// Reports an error to the parent and ends: returns what is done, in order.
    pub fn report_error(&mut self, err: &DaemonizeError) -> (r: Vec<FinalAction>)
        ensures
            finals_view(r@) == report_actions(old(self)@, err@),
            final(self)@ == ended(old(self)@),
    {
        let ghost start = self@;
        let mut out: Vec<FinalAction> = Vec::new();
        self.push_removal(&mut out);
        self.push_message(&mut out, Some(err));
        out.push(FinalAction::Exit(err.exit_code() as i32));
        assert(finals_view(out@) =~= report_actions(start, err@));
        out
    }

    /// Reports a failure of the application's own and ends.
    pub fn report_error_msg<S: IntoText>(&mut self, code: u8, message: S) -> (r: Vec<FinalAction>)
        ensures
            finals_view(r@) == report_actions(
                old(self)@,
                ErrorView::Application(code, message.text()),
            ),
            final(self)@ == ended(old(self)@),
    {
        let err = DaemonizeError::application(code, message);
        self.report_error(&err)
    }

    /// What is done when the context goes away.
    pub fn finish(&mut self) -> (r: Vec<FinalAction>)
        ensures
            finals_view(r@) == drop_actions(old(self)@),
            final(self)@ == (ContextView { lock: None, ..ended(old(self)@) }),
    {
        let ghost start = self@;
        let mut out: Vec<FinalAction> = Vec::new();
        self.push_message(&mut out, None);
        self.push_removal(&mut out);
        match self.lockfile.take() {
            Some(fd) => out.push(FinalAction::ReleaseLock(fd)),
            None => {},
        }
        assert(finals_view(out@) =~= drop_actions(start));
        out
    }

    /// The task of handing the daemon's files over to the configured user and
    /// group.
    pub fn chown_paths(&self) -> (r: PrivilegeTask)
        ensures
            r@ == new_task(
                self@.config.user,
                self@.config.group,
                owned_paths(self@.config),
                false,
            ),
    {
        PrivilegeTask::new(
            &self.config.user,
            &self.config.group,
            self.config.owned_paths(),
            false,
        )
    }

    /// The task of changing to the configured user and group, which hands the
    /// files over first unless that is switched off. It must be carried out by a
    /// process with one thread; see [`drop_privileges`](DaemonContext::drop_privileges).
    pub fn drop_privileges_unchecked(&self) -> (r: PrivilegeTask)
        ensures
            r@ == new_task(
                self@.config.user,
                self@.config.group,
                if self@.config.chown_paths {
                    owned_paths(self@.config)
                } else {
                    Seq::empty()
                },
                true,
            ),
    {
        let paths: Vec<UnixPath> = if self.config.chown_paths {
            self.config.owned_paths()
        } else {
            Vec::new()
        };
        assert(!self@.config.chown_paths ==> paths_view(paths@) =~= Seq::<
            Seq<u8>,
        >::empty());
        PrivilegeTask::new(&self.config.user, &self.config.group, paths, true)
    }

    /// The task of [`drop_privileges_unchecked`](DaemonContext::drop_privileges_unchecked),
    /// given the number of threads, or the complaint if a user is configured and
    /// it is not known to be one: the environment is changed along with the user.
    pub fn drop_privileges(&self, threads: Option<usize>) -> (r: Result<PrivilegeTask, String>)
        ensures
            match r {
                Ok(task) => {
                    &&& self@.config.user is None || threads == Some(1usize)
                    &&& task@ == new_task(
                        self@.config.user,
                        self@.config.group,
                        if self@.config.chown_paths {
                            owned_paths(self@.config)
                        } else {
                            Seq::empty()
                        },
                        true,
                    )
                },
                Err(m) => {
                    &&& self@.config.user is Some && threads != Some(1usize)
                    &&& m@ == (match threads {
                        Some(n) => violation_text("drop_privileges"@, n as nat),
                        None => unknown_text("drop_privileges"@),
                    })
                },
            },
    {
        if self.config.user.is_some() {
            match assert_single_threaded("drop_privileges", threads) {
                Ok(()) => {},
                Err(message) => return Err(message),
            }
        }
        Ok(self.drop_privileges_unchecked())
    }

    /// Takes note of a finished change to the configured user and group. Returns
    /// whether the task was one.
    pub fn privileges_dropped(&mut self, task: &PrivilegeTask) -> (r: bool)
        ensures
            r == switched_to(task@, old(self)@.config.user, old(self)@.config.group),
            final(self)@ == (ContextView {
                privileges_dropped: old(self)@.privileges_dropped || r,
                ..old(self)@
            }),
    {
        let done = task.has_switched_to(&self.config.user, &self.config.group);
        if done {
            self.privileges_dropped = true;
        }
        done
    }

    /// The task of installing handlers that remove the pidfile on these signals.
    /// There is none without a pidfile or without signals.
    pub fn cleanup_on_signals(&self, signals: &[i32]) -> (r: Result<
        Option<InstallTask>,
        DaemonizeError,
    >)
        ensures
            match self@.config.pidfile {
                None => r matches Ok(None),
                Some(p) => if signals@.len() == 0 {
                    r matches Ok(None)
                } else if p.contains(0u8) {
                    r matches Err(e) && e@ == ErrorView::ValidationError(
                        "pidfile path contains NUL byte"@,
                    )
                } else {
                    r matches Ok(Some(task)) && task@ == new_install(p, signals@)
                },
            },
    {
        match &self.config.pidfile {
            None => Ok(None),
            Some(p) => if signals.len() == 0 {
                Ok(None)
            } else if p.has_nul() {
                Err(DaemonizeError::ValidationError("pidfile path contains NUL byte".to_owned()))
            } else {
                Ok(Some(InstallTask::new(p.clone(), signals)))
            },
        }
    }

    /// The task of [`cleanup_on_signals`](DaemonContext::cleanup_on_signals) for
    /// `SIGINT` and `SIGTERM`.
    pub fn cleanup_on_term_signals(&self) -> (r: Result<Option<InstallTask>, DaemonizeError>)
        ensures
            match self@.config.pidfile {
                None => r matches Ok(None),
                Some(p) => if p.contains(0u8) {
                    r matches Err(e) && e@ == ErrorView::ValidationError(
                        "pidfile path contains NUL byte"@,
                    )
                } else {
                    r matches Ok(Some(task)) && task@ == new_install(p, seq![2i32, 15i32])
                },
            },
    {
        let signals = term_signals();
        self.cleanup_on_signals(signals.as_slice())
    }
}

// ---------------------------------------------------------------------------
// Debugging
// ---------------------------------------------------------------------------

/// What the `Debug` of `str` makes of a text: the text in quotes, with what is
/// not printable escaped.
pub uninterp spec fn debug_quoted(s: Seq<char>) -> Seq<char>;

/// Formats a text with the `Debug` of `str`, which depends on the text alone.
#[verifier::external_body]
fn quote(s: &str) -> (r: String)
    ensures
        r@ == debug_quoted(s@),
{
    format!("{:?}", s)
}

/// What the `Debug` of `std::path::Path` makes of a path that is spelled by a
/// text: the text in quotes, with what is not printable escaped.
pub uninterp spec fn debug_quoted_path(s: Seq<char>) -> Seq<char>;

/// Formats the path that a text spells with the `Debug` of `std::path::Path`, which
/// depends on the text alone.
#[verifier::external_body]
fn quote_path(s: &str) -> (r: String)
    ensures
        r@ == debug_quoted_path(s@),
{
    format!("{:?}", std::path::Path::new(s))
}

/// What a context shows for debugging: whether the lock is held and the pipe is
/// open, but no descriptor, and the settings that matter after the start.
pub struct DebugFields {
    pub lockfile: Option<String>,
    pub notify_pipe: Option<String>,
    pub pidfile: Option<String>,
    pub lockfile_path: Option<String>,
    pub stdout: Option<String>,
    pub stderr: Option<String>,
    pub user: Option<String>,
    pub group: Option<String>,
    pub cleanup_on_drop: bool,
}

/// [`DebugFields`] as a mathematical value.
pub struct DebugView {
    pub lockfile: Option<Seq<char>>,
    pub notify_pipe: Option<Seq<char>>,
    pub pidfile: Option<Seq<char>>,
    pub lockfile_path: Option<Seq<char>>,
    pub stdout: Option<Seq<char>>,
    pub stderr: Option<Seq<char>>,
    pub user: Option<Seq<char>>,
    pub group: Option<Seq<char>>,
    pub cleanup_on_drop: bool,
}

impl View for DebugFields {
    type V = DebugView;

    open spec fn view(&self) -> DebugView {
        DebugView {
            lockfile: opt_text(self.lockfile),
            notify_pipe: opt_text(self.notify_pipe),
            pidfile: opt_text(self.pidfile),
            lockfile_path: opt_text(self.lockfile_path),
            stdout: opt_text(self.stdout),
            stderr: opt_text(self.stderr),
            user: opt_text(self.user),
            group: opt_text(self.group),
            cleanup_on_drop: self.cleanup_on_drop,
        }
    }
}

/// A path as text.
pub open spec fn path_text(p: Option<Seq<u8>>) -> Option<Seq<char>> {
    match p {
        Some(path) => Some(utf8_lossy(path)),
        None => None,
    }
}

/// What a context shows.
pub open spec fn debug_view(c: ContextView) -> DebugView {
    DebugView {
        lockfile: if c.lock is Some {
            Some("held"@)
        } else {
            None
        },
        notify_pipe: if c.pipe is Some {
            Some("open"@)
        } else {
            None
        },
        pidfile: path_text(c.config.pidfile),
        lockfile_path: path_text(c.config.effective_lockfile()),
        stdout: path_text(c.config.stdout),
        stderr: path_text(c.config.stderr),
        user: c.config.user,
        group: c.config.group,
        cleanup_on_drop: c.config.cleanup_on_drop,
    }
}

/// A quoted text, if there is one.
pub open spec fn quoted(s: Option<Seq<char>>) -> Option<Seq<char>> {
    match s {
        Some(t) => Some(debug_quoted(t)),
        None => None,
    }
}

/// A quoted path, if there is one.
pub open spec fn quoted_path(s: Option<Seq<char>>) -> Option<Seq<char>> {
    match s {
        Some(t) => Some(debug_quoted_path(t)),
        None => None,
    }
}

/// The fields with their texts and paths quoted. A path that is not UTF-8 is quoted
/// as it is displayed, with the invalid sequences replaced.
pub open spec fn quoted_view(f: DebugView) -> DebugView {
    DebugView {
        lockfile: quoted(f.lockfile),
        notify_pipe: quoted(f.notify_pipe),
        pidfile: quoted_path(f.pidfile),
        lockfile_path: quoted_path(f.lockfile_path),
        stdout: quoted_path(f.stdout),
        stderr: quoted_path(f.stderr),
        user: quoted(f.user),
        group: quoted(f.group),
        cleanup_on_drop: f.cleanup_on_drop,
    }
}

/// A text, or `none`.
pub open spec fn or_none(s: Option<Seq<char>>) -> Seq<char> {
    match s {
        Some(t) => t,
        None => "none"@,
    }
}

/// The fields in a line.
pub open spec fn debug_line(f: DebugView) -> Seq<char> {
    "DaemonContext { lockfile: "@ + or_none(f.lockfile) + ", notify_pipe: "@ + or_none(
        f.notify_pipe,
    ) + ", pidfile: "@ + or_none(f.pidfile) + ", lockfile_path: "@ + or_none(f.lockfile_path)
        + ", stdout: "@ + or_none(f.stdout) + ", stderr: "@ + or_none(f.stderr) + ", user: "@
        + or_none(f.user) + ", group: "@ + or_none(f.group) + (if f.cleanup_on_drop {
        ", cleanup_on_drop: true }"@
    } else {
        ", cleanup_on_drop: false }"@
    })
}

fn show(out: &mut String, label: &str, s: &Option<String>)
    ensures
        final(out)@ == old(out)@ + label@ + or_none(opt_text(*s)),
{
    out.append(label);
    match s {
        Some(t) => out.append(t.as_str()),
        None => out.append("none"),
    }
}

fn quote_opt(s: &Option<String>) -> (r: Option<String>)
    ensures
        opt_text(r) == quoted(opt_text(*s)),
{
    match s {
        Some(t) => Some(quote(t.as_str())),
        None => None,
    }
}

fn quote_path_opt(s: &Option<String>) -> (r: Option<String>)
    ensures
        opt_text(r) == quoted_path(opt_text(*s)),
{
    match s {
        Some(t) => Some(quote_path(t.as_str())),
        None => None,
    }
}

fn display_opt(p: Option<&UnixPath>) -> (r: Option<String>)
    ensures
        opt_text(r) == path_text(
            match p {
                Some(q) => Some(q@),
                None => None,
            },
        ),
{
    match p {
        Some(q) => Some(q.display()),
        None => None,
    }
}

impl DebugFields {
    /// The fields with their texts and paths quoted. A path that is not UTF-8 is
    /// quoted as it is displayed, with the invalid sequences replaced.
    pub fn quoted(&self) -> (r: DebugFields)
        ensures
            r@ == quoted_view(self@),
    {
        DebugFields {
            lockfile: quote_opt(&self.lockfile),
            notify_pipe: quote_opt(&self.notify_pipe),
            pidfile: quote_path_opt(&self.pidfile),
            lockfile_path: quote_path_opt(&self.lockfile_path),
            stdout: quote_path_opt(&self.stdout),
            stderr: quote_path_opt(&self.stderr),
            user: quote_opt(&self.user),
            group: quote_opt(&self.group),
            cleanup_on_drop: self.cleanup_on_drop,
        }
    }

    /// The fields in a line.
    pub fn line(&self) -> (r: String)
        ensures
            r@ == debug_line(self@),
    {
        let mut out = String::new();
        show(&mut out, "DaemonContext { lockfile: ", &self.lockfile);
        show(&mut out, ", notify_pipe: ", &self.notify_pipe);
        show(&mut out, ", pidfile: ", &self.pidfile);
        show(&mut out, ", lockfile_path: ", &self.lockfile_path);
        show(&mut out, ", stdout: ", &self.stdout);
        show(&mut out, ", stderr: ", &self.stderr);
        show(&mut out, ", user: ", &self.user);
        show(&mut out, ", group: ", &self.group);
        if self.cleanup_on_drop {
            out.append(", cleanup_on_drop: true }");
        } else {
            out.append(", cleanup_on_drop: false }");
        }
        assert(out@ =~= debug_line(self@));
        out
    }
}

impl DaemonContext {
    /// What the context shows for debugging.
    pub fn debug_fields(&self) -> (r: DebugFields)
        ensures
            r@ == debug_view(self@),
    {
        DebugFields {
            lockfile: if self.lockfile.is_some() {
                Some("held".to_owned())
            } else {
                None
            },
            notify_pipe: if self.notify_pipe.is_some() {
                Some("open".to_owned())
            } else {
                None
            },
            pidfile: display_opt(self.config.pidfile.as_ref()),
            lockfile_path: display_opt(self.config.effective_lockfile()),
            stdout: display_opt(self.config.stdout.as_ref()),
            stderr: display_opt(self.config.stderr.as_ref()),
            user: clone_text(&self.config.user),
            group: clone_text(&self.config.group),
            cleanup_on_drop: self.config.cleanup_on_drop,
        }
    }

    /// The context in a line for debugging, with texts and paths quoted.
    pub fn debug_text(&self) -> (r: String)
        ensures
            r@ == debug_line(quoted_view(debug_view(self@))),
    {
        self.debug_fields().quoted().line()
    }
}

} // verus!
