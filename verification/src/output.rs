//! Where stdout and stderr go.

use vstd::prelude::*;
use crate::path::{opt_bytes, paths_same, same_file, UnixPath};

verus! {

/// How a file is opened.
#[derive(Debug, Clone, Copy, PartialEq, Eq, Structural)]
pub struct OpenFlags {
    /// For reading and writing rather than for writing only.
    pub read_write: bool,
    /// Create it if it is missing, with [`FILE_MODE`].
    pub create: bool,
    /// Write at its end.
    pub append: bool,
    /// Empty it first.
    pub truncate: bool,
    /// Close it when another program is executed.
    pub cloexec: bool,
}

/// The permissions of files that are created, subject to the umask.
pub const FILE_MODE: u32 = 0o644;

/// What is done with one of the two output streams.
#[derive(Debug, PartialEq, Eq)]
pub enum StreamAction {
    /// Leave it as it is.
    Leave,
    /// Open a file and put it in the stream's place.
    OpenAndRedirect { path: UnixPath, flags: OpenFlags, target_fd: i32 },
    /// Let stderr share stdout's file.
    DupStdoutToStderr,
}

/// What is done with the output streams.
#[derive(Debug, PartialEq, Eq)]
pub struct OutputRedirectPlan {
    pub stdout: StreamAction,
    pub stderr: StreamAction,
}

/// A [`StreamAction`] as a mathematical value.
pub enum StreamView {
    Leave,
    OpenAndRedirect { path: Seq<u8>, flags: OpenFlags, target_fd: int },
    DupStdoutToStderr,
}

impl View for StreamAction {
    type V = StreamView;

    open spec fn view(&self) -> StreamView {
        match self {
            StreamAction::Leave => StreamView::Leave,
            StreamAction::OpenAndRedirect { path, flags, target_fd } => StreamView::OpenAndRedirect {
                path: path@,
                flags: *flags,
                target_fd: *target_fd as int,
            },
            StreamAction::DupStdoutToStderr => StreamView::DupStdoutToStderr,
        }
    }
}

/// How output files are opened: created if missing, then either appended to or
/// emptied.
pub open spec fn output_flags(append: bool) -> OpenFlags {
    OpenFlags { read_write: false, create: true, append, truncate: !append, cloexec: false }
}

/// What is done with the stream `target_fd` that has a file or none.
pub open spec fn redirect_to(path: Option<Seq<u8>>, append: bool, target_fd: int) -> StreamView {
    match path {
        Some(p) => StreamView::OpenAndRedirect { path: p, flags: output_flags(append), target_fd },
        None => StreamView::Leave,
    }
}

/// Whether the two streams go to the same file.
pub open spec fn same_output(
    stdout: Option<Seq<u8>>,
    stdout_canonical: Option<Seq<u8>>,
    stderr: Option<Seq<u8>>,
    stderr_canonical: Option<Seq<u8>>,
) -> bool {
    match (stdout, stderr) {
        (Some(out), Some(err)) => same_file(out, stdout_canonical, err, stderr_canonical),
        _ => false,
    }
}

/// What is done with stderr: it shares stdout's file where the two are the same.
pub open spec fn stderr_action(same: bool, stderr: Option<Seq<u8>>, append: bool) -> StreamView {
    if same {
        StreamView::DupStdoutToStderr
    } else {
        redirect_to(stderr, append, 2)
    }
}

fn redirect_action(path: Option<&UnixPath>, append: bool, target_fd: i32) -> (r: StreamAction)
    ensures
        r@ == redirect_to(
            match path {
                Some(p) => Some(p@),
                None => None,
            },
            append,
            target_fd as int,
        ),
{
    match path {
        Some(p) => StreamAction::OpenAndRedirect {
            path: p.clone(),
            flags: OpenFlags {
                read_write: false,
                create: true,
                append,
                truncate: !append,
                cloexec: false,
            },
            target_fd,
        },
        None => StreamAction::Leave,
    }
}

/// Decides where stdout and stderr go, given their files and the canonical forms
/// of those.
pub fn plan_output_redirect(
    stdout: Option<&UnixPath>,
    stdout_canonical: &Option<UnixPath>,
    stderr: Option<&UnixPath>,
    stderr_canonical: &Option<UnixPath>,
    append: bool,
) -> (r: OutputRedirectPlan)
    ensures
        ({
            let out = match stdout {
                Some(p) => Some(p@),
                None => None,
            };
            let err = match stderr {
                Some(p) => Some(p@),
                None => None,
            };
            let same = same_output(
                out,
                opt_bytes(*stdout_canonical),
                err,
                opt_bytes(*stderr_canonical),
            );
            &&& r.stdout@ == redirect_to(out, append, 1)
            &&& r.stderr@ == stderr_action(same, err, append)
        }),
{
    let same = match (stdout, stderr) {
        (Some(out), Some(err)) => paths_same(out, stdout_canonical, err, stderr_canonical),
        _ => false,
    };
    OutputRedirectPlan {
        stdout: redirect_action(stdout, append, 1),
        stderr: if same {
            StreamAction::DupStdoutToStderr
        } else {
            redirect_action(stderr, append, 2)
        },
    }
}

/// Whatever is configured, stdout is never made to share stderr's file, and
/// stderr shares stdout's only where stdout has one.
pub proof fn sharing_needs_a_stdout_file(
    stdout: Option<Seq<u8>>,
    stdout_canonical: Option<Seq<u8>>,
    stderr: Option<Seq<u8>>,
    stderr_canonical: Option<Seq<u8>>,
    append: bool,
)
    ensures
        !(redirect_to(stdout, append, 1) is DupStdoutToStderr),
        stderr_action(
            same_output(stdout, stdout_canonical, stderr, stderr_canonical),
            stderr,
            append,
        ) is DupStdoutToStderr ==> redirect_to(stdout, append, 1) is OpenAndRedirect,
{
}

/// The append flag decides for both streams alike.
pub proof fn append_applies_to_both_streams(
    stdout: Seq<u8>,
    stderr: Seq<u8>,
    append: bool,
)
    ensures
        redirect_to(Some(stdout), append, 1)->flags == redirect_to(Some(stderr), append, 2)->flags,
        redirect_to(Some(stdout), append, 1)->flags.append == append,
        redirect_to(Some(stdout), append, 1)->flags.truncate == !append,
{
}

/// A stream with a file goes to that file, which is created if it is missing, for
/// writing only, and is appended to or emptied as asked; a program that is executed
/// inherits it. A stream without a file is left alone. Stderr shares the file of stdout
/// exactly if both have a file and it is the same one.
pub proof fn where_the_streams_go(
    stdout: Option<Seq<u8>>,
    stdout_canonical: Option<Seq<u8>>,
    stderr: Option<Seq<u8>>,
    stderr_canonical: Option<Seq<u8>>,
    append: bool,
)
    ensures
        ({
            let flags = OpenFlags {
                read_write: false,
                create: true,
                append,
                truncate: !append,
                cloexec: false,
            };
            let same = same_output(stdout, stdout_canonical, stderr, stderr_canonical);
            &&& same <==> stdout is Some && stderr is Some && (if stdout_canonical is Some
                && stderr_canonical is Some {
                stdout_canonical == stderr_canonical
            } else {
                stdout == stderr
            })
            &&& redirect_to(stdout, append, 1) == (match stdout {
                Some(path) => StreamView::OpenAndRedirect { path, flags, target_fd: 1 },
                None => StreamView::Leave,
            })
            &&& stderr_action(same, stderr, append) == (match stderr {
                Some(path) => if same {
                    StreamView::DupStdoutToStderr
                } else {
                    StreamView::OpenAndRedirect { path, flags, target_fd: 2 }
                },
                None => StreamView::Leave,
            })
            &&& FILE_MODE == 0o644
        }),
{
}

} // verus!
