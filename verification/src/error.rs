//! Errors of the daemonization sequence, with `sysexits.h` exit codes.

use vstd::prelude::*;
use crate::path::{utf8_lossy, UnixPath};
use crate::text::{cat, cat3, IntoText};

verus! {

/// Everything that can go wrong from validation to readiness.
///
/// Each variant has a `sysexits.h` code, see [`exit_code`](DaemonizeError::exit_code).
#[derive(Debug)]
#[non_exhaustive]
pub enum DaemonizeError {
    /// Bad path, bad environment entry, path overlap, or another configuration error.
    ValidationError(String),
    /// The program to execute is missing or not executable.
    ProgramNotFound(String),
    /// The user to switch to does not exist.
    UserNotFound(String),
    /// The group to switch to does not exist.
    GroupNotFound(String),
    /// Another process holds the lock.
    LockConflict {
        /// The lockfile.
        path: UnixPath,
    },
    /// The lockfile cannot be opened.
    LockfileError(String),
    /// `fork` failed.
    ForkFailed(String),
    /// `setsid` failed.
    SetsidFailed(String),
    /// `chdir` failed.
    ChdirFailed(String),
    /// A switch of user or group by a caller who is not root, or one that the kernel refused.
    PermissionDenied(String),
    /// The pidfile cannot be written.
    PidfileError(String),
    /// The file for stdout or stderr cannot be opened or put in place.
    OutputFileError(String),
    /// The owner of the pidfile, the lockfile or an output file cannot be changed.
    ChownError(String),
    /// The program cannot be executed.
    ExecFailed(String),
    /// A system call failed for which there is no more specific variant.
    SystemError(String),
    /// The readiness byte cannot be written to the notification pipe.
    NotifyFailed(String),
    /// A user or group was configured, and readiness was to be signaled before
    /// `drop_privileges` had been called.
    PrivilegesNotDropped,
    /// A failure of the application's own start, reported by the caller.
    Application {
        /// The exit code to report; 0 counts as 70 (`EX_SOFTWARE`).
        code: u8,
        /// What happened, in words.
        message: String,
    },
}

/// A [`DaemonizeError`] as a mathematical value.
pub enum ErrorView {
    ValidationError(Seq<char>),
    ProgramNotFound(Seq<char>),
    UserNotFound(Seq<char>),
    GroupNotFound(Seq<char>),
    LockConflict(Seq<u8>),
    LockfileError(Seq<char>),
    ForkFailed(Seq<char>),
    SetsidFailed(Seq<char>),
    ChdirFailed(Seq<char>),
    PermissionDenied(Seq<char>),
    PidfileError(Seq<char>),
    OutputFileError(Seq<char>),
    ChownError(Seq<char>),
    ExecFailed(Seq<char>),
    SystemError(Seq<char>),
    NotifyFailed(Seq<char>),
    PrivilegesNotDropped,
    Application(u8, Seq<char>),
}

impl View for DaemonizeError {
    type V = ErrorView;

    open spec fn view(&self) -> ErrorView {
        match self {
            DaemonizeError::ValidationError(m) => ErrorView::ValidationError(m@),
            DaemonizeError::ProgramNotFound(m) => ErrorView::ProgramNotFound(m@),
            DaemonizeError::UserNotFound(m) => ErrorView::UserNotFound(m@),
            DaemonizeError::GroupNotFound(m) => ErrorView::GroupNotFound(m@),
            DaemonizeError::LockConflict { path } => ErrorView::LockConflict(path@),
            DaemonizeError::LockfileError(m) => ErrorView::LockfileError(m@),
            DaemonizeError::ForkFailed(m) => ErrorView::ForkFailed(m@),
            DaemonizeError::SetsidFailed(m) => ErrorView::SetsidFailed(m@),
            DaemonizeError::ChdirFailed(m) => ErrorView::ChdirFailed(m@),
            DaemonizeError::PermissionDenied(m) => ErrorView::PermissionDenied(m@),
            DaemonizeError::PidfileError(m) => ErrorView::PidfileError(m@),
            DaemonizeError::OutputFileError(m) => ErrorView::OutputFileError(m@),
            DaemonizeError::ChownError(m) => ErrorView::ChownError(m@),
            DaemonizeError::ExecFailed(m) => ErrorView::ExecFailed(m@),
            DaemonizeError::SystemError(m) => ErrorView::SystemError(m@),
            DaemonizeError::NotifyFailed(m) => ErrorView::NotifyFailed(m@),
            DaemonizeError::PrivilegesNotDropped => ErrorView::PrivilegesNotDropped,
            DaemonizeError::Application { code, message } => ErrorView::Application(*code, message@),
        }
    }
}

impl ErrorView {
    /// The exit code that stands for the error.
    pub open spec fn code(self) -> u8 {
        match self {
            ErrorView::ValidationError(_) => 64,
            ErrorView::ProgramNotFound(_) => 66,
            ErrorView::UserNotFound(_) => 67,
            ErrorView::GroupNotFound(_) => 67,
            ErrorView::LockConflict(_) => 69,
            ErrorView::LockfileError(_) => 73,
            ErrorView::ForkFailed(_) => 71,
            ErrorView::SetsidFailed(_) => 71,
            ErrorView::ChdirFailed(_) => 71,
            ErrorView::PermissionDenied(_) => 77,
            ErrorView::PidfileError(_) => 73,
            ErrorView::OutputFileError(_) => 73,
            ErrorView::ChownError(_) => 73,
            ErrorView::ExecFailed(_) => 71,
            ErrorView::SystemError(_) => 71,
            ErrorView::NotifyFailed(_) => 71,
            ErrorView::PrivilegesNotDropped => 70,
            ErrorView::Application(code, _) => if code == 0 {
                70
            } else {
                code
            },
        }
    }

    /// The error in words: what kind it is, then what happened.
    pub open spec fn message(self) -> Seq<char> {
        match self {
            ErrorView::ValidationError(m) => "validation error: "@ + m,
            ErrorView::ProgramNotFound(m) => "program not found: "@ + m,
            ErrorView::UserNotFound(m) => "user not found: "@ + m,
            ErrorView::GroupNotFound(m) => "group not found: "@ + m,
            ErrorView::LockConflict(path) => "lock conflict: "@ + utf8_lossy(path)
                + " is already locked by another process"@,
            ErrorView::LockfileError(m) => "lockfile error: "@ + m,
            ErrorView::ForkFailed(m) => "fork failed: "@ + m,
            ErrorView::SetsidFailed(m) => "setsid failed: "@ + m,
            ErrorView::ChdirFailed(m) => "chdir failed: "@ + m,
            ErrorView::PermissionDenied(m) => "permission denied: "@ + m,
            ErrorView::PidfileError(m) => "pidfile error: "@ + m,
            ErrorView::OutputFileError(m) => "output file error: "@ + m,
            ErrorView::ChownError(m) => "chown error: "@ + m,
            ErrorView::ExecFailed(m) => "exec failed: "@ + m,
            ErrorView::SystemError(m) => "system error: "@ + m,
            ErrorView::NotifyFailed(m) => "failed to notify parent: "@ + m,
            ErrorView::PrivilegesNotDropped => "privileges not dropped: a user/group was configured but drop_privileges() was never called before notifying readiness"@,
            ErrorView::Application(_, m) => "application error: "@ + m,
        }
    }
}

impl DaemonizeError {
    /// An error of the application's own, with an exit code of its choosing.
    pub fn application<S: IntoText>(code: u8, message: S) -> (r: DaemonizeError)
        ensures
            r@ == ErrorView::Application(code, message.text()),
    {
        DaemonizeError::Application { code, message: message.into_text() }
    }

    /// The `sysexits.h` code of the error. It is never 0.
    pub fn exit_code(&self) -> (r: u8)
        ensures
            r == self@.code(),
            r != 0,
    {
        match self {
            DaemonizeError::ValidationError(_) => 64,
            DaemonizeError::ProgramNotFound(_) => 66,
            DaemonizeError::UserNotFound(_) => 67,
            DaemonizeError::GroupNotFound(_) => 67,
            DaemonizeError::LockConflict { .. } => 69,
            DaemonizeError::LockfileError(_) => 73,
            DaemonizeError::ForkFailed(_) => 71,
            DaemonizeError::SetsidFailed(_) => 71,
            DaemonizeError::ChdirFailed(_) => 71,
            DaemonizeError::PermissionDenied(_) => 77,
            DaemonizeError::PidfileError(_) => 73,
            DaemonizeError::OutputFileError(_) => 73,
            DaemonizeError::ChownError(_) => 73,
            DaemonizeError::ExecFailed(_) => 71,
            DaemonizeError::SystemError(_) => 71,
            DaemonizeError::NotifyFailed(_) => 71,
            DaemonizeError::PrivilegesNotDropped => 70,
            DaemonizeError::Application { code, .. } => if *code == 0 {
                70
            } else {
                *code
            },
        }
    }

    /// The error in words.
    pub fn to_string(&self) -> (r: String)
        ensures
            r@ == self@.message(),
    {
        match self {
            DaemonizeError::ValidationError(m) => cat("validation error: ", m.as_str()),
            DaemonizeError::ProgramNotFound(m) => cat("program not found: ", m.as_str()),
            DaemonizeError::UserNotFound(m) => cat("user not found: ", m.as_str()),
            DaemonizeError::GroupNotFound(m) => cat("group not found: ", m.as_str()),
            DaemonizeError::LockConflict { path } => cat3(
                "lock conflict: ",
                path.display().as_str(),
                " is already locked by another process",
            ),
            DaemonizeError::LockfileError(m) => cat("lockfile error: ", m.as_str()),
            DaemonizeError::ForkFailed(m) => cat("fork failed: ", m.as_str()),
            DaemonizeError::SetsidFailed(m) => cat("setsid failed: ", m.as_str()),
            DaemonizeError::ChdirFailed(m) => cat("chdir failed: ", m.as_str()),
            DaemonizeError::PermissionDenied(m) => cat("permission denied: ", m.as_str()),
            DaemonizeError::PidfileError(m) => cat("pidfile error: ", m.as_str()),
            DaemonizeError::OutputFileError(m) => cat("output file error: ", m.as_str()),
            DaemonizeError::ChownError(m) => cat("chown error: ", m.as_str()),
            DaemonizeError::ExecFailed(m) => cat("exec failed: ", m.as_str()),
            DaemonizeError::SystemError(m) => cat("system error: ", m.as_str()),
            DaemonizeError::NotifyFailed(m) => cat("failed to notify parent: ", m.as_str()),
            DaemonizeError::PrivilegesNotDropped => "privileges not dropped: a user/group was configured but drop_privileges() was never called before notifying readiness".to_owned(),
            DaemonizeError::Application { message, .. } => cat(
                "application error: ",
                message.as_str(),
            ),
        }
    }
}

/// An optional error as a mathematical value.
pub open spec fn opt_error(e: Option<DaemonizeError>) -> Option<ErrorView> {
    match e {
        Some(x) => Some(x@),
        None => None,
    }
}

/// No error is reported with the exit code of success.
pub proof fn exit_code_is_never_success(e: ErrorView)
    ensures
        e.code() != 0,
{
}

/// The exit codes of `sysexits.h` by which a caller tells errors apart: 64 for a wrong
/// configuration, 66 for a missing program, 67 for a missing user or group, 69 for a
/// lock that another process holds, 70 for readiness before privileges were dropped, 71
/// for a failure of the system, 73 for a file that cannot be made or handed over, and 77
/// for a lack of permission. An application has the code of its choosing, but for 0,
/// which counts as 70.
pub proof fn errors_are_told_apart_by_their_codes(e: ErrorView)
    ensures
        e is ValidationError ==> e.code() == 64,
        e is ProgramNotFound ==> e.code() == 66,
        e is UserNotFound || e is GroupNotFound ==> e.code() == 67,
        e is LockConflict ==> e.code() == 69,
        e is PrivilegesNotDropped ==> e.code() == 70,
        e is ForkFailed || e is SetsidFailed || e is ChdirFailed || e is ExecFailed || e is SystemError
            || e is NotifyFailed ==> e.code() == 71,
        e is LockfileError || e is PidfileError || e is OutputFileError || e is ChownError ==> e.code()
            == 73,
        e is PermissionDenied ==> e.code() == 77,
        e matches ErrorView::Application(code, _) ==> e.code() == (if code == 0 {
            70
        } else {
            code
        }),
{
}

/// The text of an error says what kind of error it is, and then what happened.
pub proof fn the_text_of_an_error_says_what_happened(m: Seq<char>, path: Seq<u8>, code: u8)
    ensures
        ErrorView::ValidationError(m).message() == "validation error: "@ + m,
        ErrorView::ProgramNotFound(m).message() == "program not found: "@ + m,
        ErrorView::UserNotFound(m).message() == "user not found: "@ + m,
        ErrorView::GroupNotFound(m).message() == "group not found: "@ + m,
        ErrorView::LockConflict(path).message() == "lock conflict: "@ + utf8_lossy(path)
            + " is already locked by another process"@,
        ErrorView::LockfileError(m).message() == "lockfile error: "@ + m,
        ErrorView::ForkFailed(m).message() == "fork failed: "@ + m,
        ErrorView::SetsidFailed(m).message() == "setsid failed: "@ + m,
        ErrorView::ChdirFailed(m).message() == "chdir failed: "@ + m,
        ErrorView::PermissionDenied(m).message() == "permission denied: "@ + m,
        ErrorView::PidfileError(m).message() == "pidfile error: "@ + m,
        ErrorView::OutputFileError(m).message() == "output file error: "@ + m,
        ErrorView::ChownError(m).message() == "chown error: "@ + m,
        ErrorView::ExecFailed(m).message() == "exec failed: "@ + m,
        ErrorView::SystemError(m).message() == "system error: "@ + m,
        ErrorView::NotifyFailed(m).message() == "failed to notify parent: "@ + m,
        ErrorView::PrivilegesNotDropped.message()
            == "privileges not dropped: a user/group was configured but drop_privileges() was never called before notifying readiness"@,
        ErrorView::Application(code, m).message() == "application error: "@ + m,
{
}

} // verus!
