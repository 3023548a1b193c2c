//! The calls of the daemonization sequence, and what can come of them.

use vstd::prelude::*;
use crate::errno::{ErrnoKind, OsFailure};
use crate::output::OpenFlags;
use crate::path::{opt_bytes, UnixPath};
use crate::text::texts;

verus! {

/// What a file is opened for.
#[derive(Debug, Clone, Copy, PartialEq, Eq, Structural)]
pub enum OpenPurpose {
    /// To stand in for the standard streams.
    DevNull,
    /// To be locked.
    Lock,
    /// To hold this process id.
    Pidfile(u32),
    /// To take the place of this output stream.
    Output(i32),
}

/// What a descriptor is duplicated for.
#[derive(Debug, Clone, Copy, PartialEq, Eq, Structural)]
pub enum DupReason {
    /// `/dev/null` takes the place of a standard stream.
    DevNull,
    /// A file takes the place of an output stream.
    Output,
    /// stderr shares stdout's file.
    Share,
}

/// A call to be made.
#[derive(Debug, PartialEq, Eq)]
pub enum Op {
    /// Create the notification pipe, both ends closed by `exec`.
    CreatePipe,
    /// Fork off the process that becomes the session leader.
    FirstFork,
    /// Fork off the daemon, which leads no session.
    SecondFork,
    /// Close one end of the pipe without a word.
    CloseEnd(i32),
    /// Read the pipe up to its end, or as far as it can be read, and close it.
    ReadPipe(i32),
    Setsid,
    SetUmask(u32),
    Chdir(UnixPath),
    Open { path: UnixPath, flags: OpenFlags, purpose: OpenPurpose },
    Dup2 { source: i32, target: i32, reason: DupReason },
    /// Be done with a descriptor: close it, or leave it open because it is one of
    /// the standard streams.
    Release { fd: i32, close: bool, purpose: OpenPurpose },
    /// Lock a descriptor exclusively, without waiting.
    Flock { fd: i32, path: UnixPath },
    /// Tell the process id and the canonical forms of the two paths.
    QueryPidfile { pidfile: UnixPath, lockfile: Option<UnixPath> },
    /// Go to the start of the file.
    SeekStart(i32),
    /// Empty the file.
    Truncate(i32),
    /// Write all of the bytes. `file` is named if it is not the lockfile.
    Write { fd: i32, bytes: Vec<u8>, file: Option<UnixPath> },
    /// Reset the disposition of a signal.
    ResetSignal(i32),
    /// Unblock all signals.
    ClearSignalMask,
    SetEnv { key: String, value: String },
    /// Tell the canonical forms of the two paths.
    QueryOutputs { stdout: UnixPath, stderr: UnixPath },
    /// List the names in the directory of this process's descriptors.
    ListFds,
    /// Tell the limit on open files.
    QueryFdLimit,
    /// Close these descriptors, whether or not they are open.
    CloseFds(Vec<i32>),
    /// Close the descriptors of [`fds_to_close`](crate::fds::fds_to_close),
    /// whether or not they are open.
    CloseRange { max_fd: i32, skip: Vec<i32> },
}

/// What came of a call.
#[derive(Debug)]
pub enum Event {
    Done,
    Failed(OsFailure),
    Pipe { read: i32, write: i32 },
    /// This is the process that forked.
    Parent,
    /// This is the process that was forked off.
    Child,
    Bytes(Vec<u8>),
    Opened(i32),
    /// The process id, and the canonical forms of pidfile and lockfile.
    Pidfile { pid: u32, pidfile: Option<UnixPath>, lockfile: Option<UnixPath> },
    /// The canonical forms of the two output files.
    Outputs { stdout: Option<UnixPath>, stderr: Option<UnixPath> },
    /// The names, where there is such a directory.
    Fds(Option<Vec<String>>),
    Limit(u64),
}

/// An [`Op`] as a mathematical value.
pub enum OpView {
    CreatePipe,
    FirstFork,
    SecondFork,
    CloseEnd(i32),
    ReadPipe(i32),
    Setsid,
    SetUmask(int),
    Chdir(Seq<u8>),
    Open { path: Seq<u8>, flags: OpenFlags, purpose: OpenPurpose },
    Dup2 { source: i32, target: i32, reason: DupReason },
    Release { fd: i32, close: bool, purpose: OpenPurpose },
    Flock { fd: i32, path: Seq<u8> },
    QueryPidfile { pidfile: Seq<u8>, lockfile: Option<Seq<u8>> },
    SeekStart(i32),
    Truncate(i32),
    Write { fd: i32, bytes: Seq<u8>, file: Option<Seq<u8>> },
    ResetSignal(i32),
    ClearSignalMask,
    SetEnv { key: Seq<char>, value: Seq<char> },
    QueryOutputs { stdout: Seq<u8>, stderr: Seq<u8> },
    ListFds,
    QueryFdLimit,
    CloseFds(Seq<i32>),
    CloseRange { max_fd: i32, skip: Seq<i32> },
}

/// An [`Event`] as a mathematical value.
pub enum EventView {
    Done,
    Failed(ErrnoKind, Seq<char>),
    Pipe { read: i32, write: i32 },
    Parent,
    Child,
    Bytes(Seq<u8>),
    Opened(i32),
    Pidfile { pid: u32, pidfile: Option<Seq<u8>>, lockfile: Option<Seq<u8>> },
    Outputs { stdout: Option<Seq<u8>>, stderr: Option<Seq<u8>> },
    Fds(Option<Seq<Seq<char>>>),
    Limit(u64),
}

impl View for Op {
    type V = OpView;

    open spec fn view(&self) -> OpView {
        match self {
            Op::CreatePipe => OpView::CreatePipe,
            Op::FirstFork => OpView::FirstFork,
            Op::SecondFork => OpView::SecondFork,
            Op::CloseEnd(fd) => OpView::CloseEnd(*fd),
            Op::ReadPipe(fd) => OpView::ReadPipe(*fd),
            Op::Setsid => OpView::Setsid,
            Op::SetUmask(m) => OpView::SetUmask(*m as int),
            Op::Chdir(p) => OpView::Chdir(p@),
            Op::Open { path, flags, purpose } => OpView::Open {
                path: path@,
                flags: *flags,
                purpose: *purpose,
            },
            Op::Dup2 { source, target, reason } => OpView::Dup2 {
                source: *source,
                target: *target,
                reason: *reason,
            },
            Op::Release { fd, close, purpose } => OpView::Release {
                fd: *fd,
                close: *close,
                purpose: *purpose,
            },
            Op::Flock { fd, path } => OpView::Flock { fd: *fd, path: path@ },
            Op::QueryPidfile { pidfile, lockfile } => OpView::QueryPidfile {
                pidfile: pidfile@,
                lockfile: opt_bytes(*lockfile),
            },
            Op::SeekStart(fd) => OpView::SeekStart(*fd),
            Op::Truncate(fd) => OpView::Truncate(*fd),
            Op::Write { fd, bytes, file } => OpView::Write {
                fd: *fd,
                bytes: bytes@,
                file: opt_bytes(*file),
            },
            Op::ResetSignal(n) => OpView::ResetSignal(*n),
            Op::ClearSignalMask => OpView::ClearSignalMask,
            Op::SetEnv { key, value } => OpView::SetEnv { key: key@, value: value@ },
            Op::QueryOutputs { stdout, stderr } => OpView::QueryOutputs {
                stdout: stdout@,
                stderr: stderr@,
            },
            Op::ListFds => OpView::ListFds,
            Op::QueryFdLimit => OpView::QueryFdLimit,
            Op::CloseFds(fds) => OpView::CloseFds(fds@),
            Op::CloseRange { max_fd, skip } => OpView::CloseRange { max_fd: *max_fd, skip: skip@ },
        }
    }
}

impl View for Event {
    type V = EventView;

    open spec fn view(&self) -> EventView {
        match self {
            Event::Done => EventView::Done,
            Event::Failed(f) => EventView::Failed(f.kind, f.text@),
            Event::Pipe { read, write } => EventView::Pipe { read: *read, write: *write },
            Event::Parent => EventView::Parent,
            Event::Child => EventView::Child,
            Event::Bytes(b) => EventView::Bytes(b@),
            Event::Opened(fd) => EventView::Opened(*fd),
            Event::Pidfile { pid, pidfile, lockfile } => EventView::Pidfile {
                pid: *pid,
                pidfile: opt_bytes(*pidfile),
                lockfile: opt_bytes(*lockfile),
            },
            Event::Outputs { stdout, stderr } => EventView::Outputs {
                stdout: opt_bytes(*stdout),
                stderr: opt_bytes(*stderr),
            },
            Event::Fds(names) => EventView::Fds(
                match names {
                    Some(v) => Some(texts(v@)),
                    None => None,
                },
            ),
            Event::Limit(n) => EventView::Limit(*n),
        }
    }
}

/// Calls as mathematical values.
pub open spec fn calls(v: Seq<Op>) -> Seq<OpView> {
    Seq::new(v.len(), |i: int| v[i]@)
}

} // verus!
