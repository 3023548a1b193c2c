//! What the mathematical values stand for: everything that the values they are made of
//! hold, and nothing else.

use vstd::prelude::*;
use vstd::utf8::*;
use crate::calls::{calls, Event, EventView, Op, OpView};
use crate::cli::{CliArgs, ProgramFacts, ProgramView};
use crate::config::{env_view, DaemonConfig, LockfileSetting, LockfileView};
use crate::context::{
    finals_view, opt_fd, opt_pipe, opt_write, DebugFields, FinalAction, FinalActionView,
};
use crate::error::{opt_error, DaemonizeError, ErrorView};
use crate::host::{facts_view, HostFacts, PathFacts};
use crate::identity::{
    opt_int, GroupQuery, GroupQueryView, GroupReply, GroupReplyView, ResolvedIdentity, ResolvedUser,
    UserQuery, UserQueryView, UserReply, UserReplyView,
};
use crate::launch::{launch_calls, LaunchEvent, LaunchEventView, LaunchOp, LaunchOpView};
use crate::notify::{NotifyPipe, Outcome, OutcomeView, PipeWrite};
use crate::output::{StreamAction, StreamView};
use crate::path::{opt_bytes, paths_view, IntoPath, UnixPath};
use crate::privileges::{
    ops_view, PrivEvent, PrivEventView, PrivOp, PrivOpView, PrivStep, PrivStepView,
};
use crate::sequence::{Step, StepView};
use crate::text::{opt_text, texts, IntoText};

verus! {

/// A sequence is seen whole and in order.
pub proof fn sequences_are_seen_whole(
    strings: Seq<String>,
    paths: Seq<UnixPath>,
    env: Seq<(String, String)>,
    ops: Seq<Op>,
    priv_ops: Seq<PrivOp>,
    launch_ops: Seq<LaunchOp>,
    finals: Seq<FinalAction>,
    facts: Seq<PathFacts>,
    i: int,
)
    ensures
        texts(strings).len() == strings.len(),
        0 <= i < strings.len() ==> texts(strings)[i] == strings[i]@,
        paths_view(paths).len() == paths.len(),
        0 <= i < paths.len() ==> paths_view(paths)[i] == paths[i]@,
        env_view(env).len() == env.len(),
        0 <= i < env.len() ==> env_view(env)[i] == (env[i].0@, env[i].1@),
        calls(ops).len() == ops.len(),
        0 <= i < ops.len() ==> calls(ops)[i] == ops[i]@,
        ops_view(priv_ops).len() == priv_ops.len(),
        0 <= i < priv_ops.len() ==> ops_view(priv_ops)[i] == priv_ops[i]@,
        launch_calls(launch_ops).len() == launch_ops.len(),
        0 <= i < launch_ops.len() ==> launch_calls(launch_ops)[i] == launch_ops[i]@,
        finals_view(finals).len() == finals.len(),
        0 <= i < finals.len() ==> finals_view(finals)[i] == finals[i]@,
        facts_view(facts).len() == facts.len(),
        0 <= i < facts.len() ==> facts_view(facts)[i] == facts[i]@,
{
}

/// What may be there is seen where it is there.
pub proof fn options_are_seen_as_they_are(
    s: String,
    p: UnixPath,
    fd: i32,
    n: u32,
    pipe: NotifyPipe,
    w: PipeWrite,
    e: DaemonizeError,
)
    ensures
        opt_text(Some(s)) == Some(s@),
        opt_text(None) is None,
        opt_bytes(Some(p)) == Some(p@),
        opt_bytes(None) is None,
        opt_fd(Some(fd)) == Some(fd as int),
        opt_fd(None) is None,
        opt_int(Some(n)) == Some(n as int),
        opt_int(None) is None,
        opt_pipe(Some(pipe)) == Some(pipe@),
        opt_pipe(None) is None,
        opt_write(Some(w)) == Some(w@),
        opt_write(None) is None,
        opt_error(Some(e)) == Some(e@),
        opt_error(None) is None,
{
}

/// What is given for a path or a text is taken as it is spelled.
pub proof fn what_is_given_is_taken(a: &str, b: String, p: UnixPath)
    ensures
        a.path_bytes() == encode_utf8(a@),
        b.path_bytes() == encode_utf8(b@),
        p.path_bytes() == p@,
        (&p).path_bytes() == p@,
        a.text() == a@,
        b.text() == b@,
{
}

/// A configuration is seen setting by setting.
pub proof fn configurations_are_seen_whole(c: DaemonConfig)
    ensures
        c@.pidfile == opt_bytes(c.pidfile),
        c@.chdir == c.chdir@,
        c@.umask == c.umask,
        c@.stdout == opt_bytes(c.stdout),
        c@.stderr == opt_bytes(c.stderr),
        c@.append == c.append,
        c@.lockfile == (match c.lockfile {
            LockfileSetting::Derive => LockfileView::Derive,
            LockfileSetting::Explicit(p) => LockfileView::Explicit(p@),
            LockfileSetting::Disabled => LockfileView::Disabled,
        }),
        c@.user == opt_text(c.user),
        c@.group == opt_text(c.group),
        c@.foreground == c.foreground,
        c@.close_fds == c.close_fds,
        c@.cleanup_on_drop == c.cleanup_on_drop,
        c@.chown_paths == c.chown_paths,
        c@.env == env_view(c.env@),
        c@.switches_identity() <==> c.user is Some || c.group is Some,
{
}

/// Arguments are seen one by one.
pub proof fn arguments_are_seen_whole(a: CliArgs)
    ensures
        a@.pidfile == opt_bytes(a.pidfile),
        a@.chdir == opt_bytes(a.chdir),
        a@.umask == a.umask,
        a@.stdout == opt_bytes(a.stdout),
        a@.stderr == opt_bytes(a.stderr),
        a@.append == a.append,
        a@.lockfile == opt_bytes(a.lockfile),
        a@.no_lock == a.no_lock,
        a@.env == texts(a.env@),
        a@.user == opt_text(a.user),
        a@.group == opt_text(a.group),
        a@.foreground == a.foreground,
        a@.verbose == a.verbose,
        a@.program == texts(a.program@),
{
}

/// A call of the sequence is seen with all that it is made with.
pub proof fn calls_are_seen_whole(op: Op)
    ensures
        match op {
            Op::CreatePipe => op@ == OpView::CreatePipe,
            Op::FirstFork => op@ == OpView::FirstFork,
            Op::SecondFork => op@ == OpView::SecondFork,
            Op::CloseEnd(fd) => op@ == OpView::CloseEnd(fd),
            Op::ReadPipe(fd) => op@ == OpView::ReadPipe(fd),
            Op::Setsid => op@ == OpView::Setsid,
            Op::SetUmask(m) => op@ == OpView::SetUmask(m as int),
            Op::Chdir(p) => op@ == OpView::Chdir(p@),
            Op::Open { path, flags, purpose } => op@ == (OpView::Open { path: path@, flags, purpose }),
            Op::Dup2 { source, target, reason } => op@ == (OpView::Dup2 { source, target, reason }),
            Op::Release { fd, close, purpose } => op@ == (OpView::Release { fd, close, purpose }),
            Op::Flock { fd, path } => op@ == (OpView::Flock { fd, path: path@ }),
            Op::QueryPidfile { pidfile, lockfile } => op@ == (OpView::QueryPidfile {
                pidfile: pidfile@,
                lockfile: opt_bytes(lockfile),
            }),
            Op::SeekStart(fd) => op@ == OpView::SeekStart(fd),
            Op::Truncate(fd) => op@ == OpView::Truncate(fd),
            Op::Write { fd, bytes, file } => op@ == (OpView::Write {
                fd,
                bytes: bytes@,
                file: opt_bytes(file),
            }),
            Op::ResetSignal(n) => op@ == OpView::ResetSignal(n),
            Op::ClearSignalMask => op@ == OpView::ClearSignalMask,
            Op::SetEnv { key, value } => op@ == (OpView::SetEnv { key: key@, value: value@ }),
            Op::QueryOutputs { stdout, stderr } => op@ == (OpView::QueryOutputs {
                stdout: stdout@,
                stderr: stderr@,
            }),
            Op::ListFds => op@ == OpView::ListFds,
            Op::QueryFdLimit => op@ == OpView::QueryFdLimit,
            Op::CloseFds(fds) => op@ == OpView::CloseFds(fds@),
            Op::CloseRange { max_fd, skip } => op@ == (OpView::CloseRange { max_fd, skip: skip@ }),
        },
{
}

/// What came of a call is seen with all that was told, but for the bare error number.
pub proof fn events_are_seen_whole(e: Event)
    ensures
        match e {
            Event::Done => e@ == EventView::Done,
            Event::Failed(f) => e@ == EventView::Failed(f.kind, f.text@),
            Event::Pipe { read, write } => e@ == (EventView::Pipe { read, write }),
            Event::Parent => e@ == EventView::Parent,
            Event::Child => e@ == EventView::Child,
            Event::Bytes(b) => e@ == EventView::Bytes(b@),
            Event::Opened(fd) => e@ == EventView::Opened(fd),
            Event::Pidfile { pid, pidfile, lockfile } => e@ == (EventView::Pidfile {
                pid,
                pidfile: opt_bytes(pidfile),
                lockfile: opt_bytes(lockfile),
            }),
            Event::Outputs { stdout, stderr } => e@ == (EventView::Outputs {
                stdout: opt_bytes(stdout),
                stderr: opt_bytes(stderr),
            }),
            Event::Fds(None) => e@ == EventView::Fds(None),
            Event::Fds(Some(names)) => e@ == EventView::Fds(Some(texts(names@))),
            Event::Limit(n) => e@ == EventView::Limit(n),
        },
{
}

/// What the sequence comes to is seen whole.
pub proof fn steps_are_seen_whole(s: Step)
    ensures
        match s {
            Step::Continue(d) => s@ == StepView::Continue(d@),
            Step::Return(c) => s@ == StepView::Return(c@),
            Step::Fail { error, close } => s@ == (StepView::Fail { error: error@, close: close@ }),
            Step::Exit { write, message, code } => s@ == (StepView::Exit {
                write: opt_write(write),
                message: opt_text(message),
                code: code as int,
            }),
        },
{
}

/// An error is seen as what it is, with its text.
pub proof fn errors_are_seen_whole(e: DaemonizeError)
    ensures
        match e {
            DaemonizeError::ValidationError(m) => e@ == ErrorView::ValidationError(m@),
            DaemonizeError::ProgramNotFound(m) => e@ == ErrorView::ProgramNotFound(m@),
            DaemonizeError::UserNotFound(m) => e@ == ErrorView::UserNotFound(m@),
            DaemonizeError::GroupNotFound(m) => e@ == ErrorView::GroupNotFound(m@),
            DaemonizeError::LockConflict { path } => e@ == ErrorView::LockConflict(path@),
            DaemonizeError::LockfileError(m) => e@ == ErrorView::LockfileError(m@),
            DaemonizeError::ForkFailed(m) => e@ == ErrorView::ForkFailed(m@),
            DaemonizeError::SetsidFailed(m) => e@ == ErrorView::SetsidFailed(m@),
            DaemonizeError::ChdirFailed(m) => e@ == ErrorView::ChdirFailed(m@),
            DaemonizeError::PermissionDenied(m) => e@ == ErrorView::PermissionDenied(m@),
            DaemonizeError::PidfileError(m) => e@ == ErrorView::PidfileError(m@),
            DaemonizeError::OutputFileError(m) => e@ == ErrorView::OutputFileError(m@),
            DaemonizeError::ChownError(m) => e@ == ErrorView::ChownError(m@),
            DaemonizeError::ExecFailed(m) => e@ == ErrorView::ExecFailed(m@),
            DaemonizeError::SystemError(m) => e@ == ErrorView::SystemError(m@),
            DaemonizeError::NotifyFailed(m) => e@ == ErrorView::NotifyFailed(m@),
            DaemonizeError::PrivilegesNotDropped => e@ == ErrorView::PrivilegesNotDropped,
            DaemonizeError::Application { code, message } => e@ == ErrorView::Application(
                code,
                message@,
            ),
        },
{
}

/// An operation on files or on the identity is seen with all that it is performed with.
pub proof fn operations_are_seen_whole(op: PrivOp, e: PrivEvent, s: PrivStep)
    ensures
        match op {
            PrivOp::LookUpUser(UserQuery::ById(n)) => op@ == PrivOpView::LookUpUser(
                UserQueryView::ById(n as int),
            ),
            PrivOp::LookUpUser(UserQuery::ByName(name)) => op@ == PrivOpView::LookUpUser(
                UserQueryView::ByName(name@),
            ),
            PrivOp::LookUpGroup(name) => op@ == PrivOpView::LookUpGroup(name@),
            PrivOp::Probe(p) => op@ == PrivOpView::Probe(p@),
            PrivOp::Chown { path, uid, gid } => op@ == (PrivOpView::Chown {
                path: path@,
                uid: opt_int(uid),
                gid: opt_int(gid),
            }),
            PrivOp::InitGroups { name, primary } => op@ == (PrivOpView::InitGroups {
                name: name@,
                primary: primary as int,
            }),
            PrivOp::SetGid(g) => op@ == PrivOpView::SetGid(g as int),
            PrivOp::SetUid(u) => op@ == PrivOpView::SetUid(u as int),
            PrivOp::SetEnv { key, value } => op@ == (PrivOpView::SetEnv { key: key@, value: value@ }),
        },
        match e {
            PrivEvent::User(UserReply::Found(u)) => e@ == PrivEventView::User(
                UserReplyView::Found(u@),
            ),
            PrivEvent::User(UserReply::Missing) => e@ == PrivEventView::User(UserReplyView::Missing),
            PrivEvent::User(UserReply::Failed(t)) => e@ == PrivEventView::User(
                UserReplyView::Failed(t@),
            ),
            PrivEvent::Group(GroupReply::Found(g)) => e@ == PrivEventView::Group(
                GroupReplyView::Found(g as int),
            ),
            PrivEvent::Group(GroupReply::Missing) => e@ == PrivEventView::Group(
                GroupReplyView::Missing,
            ),
            PrivEvent::Group(GroupReply::Failed(t)) => e@ == PrivEventView::Group(
                GroupReplyView::Failed(t@),
            ),
            PrivEvent::Present(b) => e@ == PrivEventView::Present(b),
            PrivEvent::Done => e@ == PrivEventView::Done,
            PrivEvent::Failed(f) => e@ == PrivEventView::Failed(f.text@),
        },
        match s {
            PrivStep::Perform(o) => s@ == PrivStepView::Perform(o@),
            PrivStep::Finished => s@ == PrivStepView::Finished,
            PrivStep::Abandoned => s@ == PrivStepView::Abandoned,
        },
{
}

/// A user, and the user and group to change to, are seen whole.
pub proof fn identities_are_seen_whole(u: ResolvedUser, id: ResolvedIdentity, q: GroupQuery)
    ensures
        u@.name == u.name@,
        u@.uid == u.uid,
        u@.gid == u.gid,
        u@.dir == u.dir@,
        id@.user == (match id.user {
            Some(v) => Some(v@),
            None => None,
        }),
        id@.explicit_group == opt_int(id.explicit_group),
        match q {
            GroupQuery::Id(n) => q@ == GroupQueryView::Id(n as int),
            GroupQuery::ByName(s) => q@ == GroupQueryView::ByName(s@),
        },
        id@.uid() == (match id.user {
            Some(v) => Some(v.uid as int),
            None => None,
        }),
        id@.effective_gid() == (match (id.explicit_group, id.user) {
            (Some(g), _) => Some(g as int),
            (None, Some(v)) => Some(v.gid as int),
            (None, None) => None,
        }),
{
}

/// What is done at the end of a daemon, or on the way to a program, is seen whole.
pub proof fn actions_are_seen_whole(
    a: FinalAction,
    w: PipeWrite,
    o: Outcome,
    l: LaunchOp,
    e: LaunchEvent,
)
    ensures
        match a {
            FinalAction::RemovePidfile(p) => a@ == FinalActionView::RemovePidfile(p@),
            FinalAction::WritePipe(x) => a@ == FinalActionView::WritePipe(x@),
            FinalAction::ReleaseLock(fd) => a@ == FinalActionView::ReleaseLock(fd as int),
            FinalAction::Exit(code) => a@ == FinalActionView::Exit(code as int),
        },
        w@.fd == w.fd,
        w@.bytes == w.bytes@,
        match o {
            Outcome::Success => o@ == OutcomeView::Success,
            Outcome::Failure { code, message } => o@ == (OutcomeView::Failure {
                code: code as int,
                message: message@,
            }),
        },
        match l {
            LaunchOp::DropPrivileges => l@ == LaunchOpView::DropPrivileges,
            LaunchOp::ClearCloexec(fd) => l@ == LaunchOpView::ClearCloexec(fd),
            LaunchOp::DefaultSigpipe => l@ == LaunchOpView::DefaultSigpipe,
            LaunchOp::Exec(argv) => l@ == LaunchOpView::Exec(texts(argv@)),
            LaunchOp::Report(error) => l@ == LaunchOpView::Report(error@),
        },
        match e {
            LaunchEvent::Done => e@ == LaunchEventView::Done,
            LaunchEvent::Failed(f) => e@ == LaunchEventView::Failed(f.kind, f.text@),
            LaunchEvent::Refused(error) => e@ == LaunchEventView::Refused(error@),
        },
{
}

/// What was observed, and what is planned or shown, is seen whole.
pub proof fn observations_are_seen_whole(
    f: PathFacts,
    h: HostFacts,
    p: ProgramFacts,
    s: StreamAction,
    d: DebugFields,
)
    ensures
        f@.0 == f.path@,
        f@.1.present == f.present,
        f@.1.is_dir == f.is_dir,
        f@.1.writable == f.writable,
        f@.1.canonical == opt_bytes(f.canonical),
        h@.euid == h.euid,
        h@.paths == facts_view(h.paths@),
        h@.signals == h.signals,
        match p {
            ProgramFacts::Unresolved(t) => p@ == ProgramView::Unresolved(t@),
            ProgramFacts::NotUtf8 => p@ == ProgramView::NotUtf8,
            ProgramFacts::Resolved { path, executable } => p@ == (ProgramView::Resolved {
                path: path@,
                executable,
            }),
        },
        match s {
            StreamAction::Leave => s@ == StreamView::Leave,
            StreamAction::OpenAndRedirect { path, flags, target_fd } => s@ == (
            StreamView::OpenAndRedirect { path: path@, flags, target_fd: target_fd as int }),
            StreamAction::DupStdoutToStderr => s@ == StreamView::DupStdoutToStderr,
        },
        d@.lockfile == opt_text(d.lockfile),
        d@.notify_pipe == opt_text(d.notify_pipe),
        d@.pidfile == opt_text(d.pidfile),
        d@.lockfile_path == opt_text(d.lockfile_path),
        d@.stdout == opt_text(d.stdout),
        d@.stderr == opt_text(d.stderr),
        d@.user == opt_text(d.user),
        d@.group == opt_text(d.group),
        d@.cleanup_on_drop == d.cleanup_on_drop,
{
}

} // verus!
