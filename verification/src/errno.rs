//! Failures of system calls.

use vstd::prelude::*;

verus! {

/// The error numbers that decide what is done next.
#[derive(Debug, Clone, Copy, PartialEq, Eq, Structural)]
pub enum ErrnoKind {
    /// `ENOENT`.
    NoEntry,
    /// `EACCES`.
    AccessDenied,
    /// `EWOULDBLOCK`, the same as `EAGAIN`.
    WouldBlock,
    /// `EINVAL`.
    InvalidArgument,
    /// Any other.
    Other,
}

/// The error numbers of an operating system that decide what is done next.
#[derive(Debug, Clone, Copy, PartialEq, Eq, Structural)]
pub struct ErrnoNumbers {
    pub enoent: i32,
    pub eacces: i32,
    pub ewouldblock: i32,
    pub einval: i32,
}

/// A system call that failed.
#[derive(Debug)]
pub struct OsFailure {
    /// The raw error number.
    pub errno: i32,
    /// Which one of the numbers that matter it is.
    pub kind: ErrnoKind,
    /// The error in words.
    pub text: String,
}

/// The error numbers of Linux.
pub open spec fn linux_errnos() -> ErrnoNumbers {
    ErrnoNumbers { enoent: 2, eacces: 13, ewouldblock: 11, einval: 22 }
}

/// The words that `nix::errno::Errno` has on Linux for the numbers from 1 to 34,
/// which are the same on every processor.
pub uninterp spec fn errno_words(errno: i32) -> Seq<char>;

/// The numbers of `ENOENT`, `EACCES`, `EWOULDBLOCK` and `EINVAL` in
/// `nix::errno::Errno`. This speaks of Linux, where they are 2, 13, 11 and 22 on
/// every processor; other systems number their errors otherwise.
#[verifier::external_body]
fn host_errnos() -> (r: ErrnoNumbers)
    ensures
        r == linux_errnos(),
{
    ErrnoNumbers {
        enoent: nix::errno::Errno::ENOENT as i32,
        eacces: nix::errno::Errno::EACCES as i32,
        ewouldblock: nix::errno::Errno::EWOULDBLOCK as i32,
        einval: nix::errno::Errno::EINVAL as i32,
    }
}

/// Words a raw error number with `nix::errno::Errno::from_raw` and the `Display`
/// of that type: the constant's name, a colon and a description, so never
/// nothing. This speaks of Linux. From 1 to 34 the numbers have the same meaning
/// on every processor, so the words go by the number alone; those of the four
/// numbers that decide something are spelled out. Of other numbers the meaning
/// differs from one processor to the next, and their words are not stated.
#[verifier::external_body]
fn errno_text(errno: i32) -> (r: String)
    ensures
        r@.len() > 0,
        1 <= errno <= 34 ==> r@ == errno_words(errno),
        errno == 2 ==> r@ == "ENOENT: No such file or directory"@,
        errno == 11 ==> r@ == "EAGAIN: Try again"@,
        errno == 13 ==> r@ == "EACCES: Permission denied"@,
        errno == 22 ==> r@ == "EINVAL: Invalid argument"@,
{
    nix::errno::Errno::from_raw(errno).to_string()
}

impl ErrnoNumbers {
    /// Which one of the numbers that matter `errno` is.
    pub open spec fn kind_of(self, errno: i32) -> ErrnoKind {
        if errno == self.enoent {
            ErrnoKind::NoEntry
        } else if errno == self.eacces {
            ErrnoKind::AccessDenied
        } else if errno == self.ewouldblock {
            ErrnoKind::WouldBlock
        } else if errno == self.einval {
            ErrnoKind::InvalidArgument
        } else {
            ErrnoKind::Other
        }
    }

    /// Tells which one of the numbers that matter `errno` is.
    pub fn classify(self, errno: i32) -> (r: ErrnoKind)
        ensures
            r == self.kind_of(errno),
    {
        if errno == self.enoent {
            ErrnoKind::NoEntry
        } else if errno == self.eacces {
            ErrnoKind::AccessDenied
        } else if errno == self.ewouldblock {
            ErrnoKind::WouldBlock
        } else if errno == self.einval {
            ErrnoKind::InvalidArgument
        } else {
            ErrnoKind::Other
        }
    }
}

impl OsFailure {
    /// The failure with this error number and these words on a host with these
    /// numbers.
    pub fn of(numbers: ErrnoNumbers, errno: i32, text: String) -> (r: OsFailure)
        ensures
            r.errno == errno,
            r.kind == numbers.kind_of(errno),
            r.text@ == text@,
    {
        OsFailure { errno, kind: numbers.classify(errno), text }
    }

    /// The failure with this error number on the running host, a Linux. Its words
    /// are not stated for numbers beyond 34, which go by the processor.
    pub fn from_raw(errno: i32) -> (r: OsFailure)
        ensures
            r.errno == errno,
            r.kind == linux_errnos().kind_of(errno),
            r.text@.len() > 0,
            1 <= errno <= 34 ==> r.text@ == errno_words(errno),
            r.kind is NoEntry ==> r.text@ == "ENOENT: No such file or directory"@,
            r.kind is WouldBlock ==> r.text@ == "EAGAIN: Try again"@,
            r.kind is AccessDenied ==> r.text@ == "EACCES: Permission denied"@,
            r.kind is InvalidArgument ==> r.text@ == "EINVAL: Invalid argument"@,
    {
        OsFailure::of(host_errnos(), errno, errno_text(errno))
    }
}

/// Of the error numbers of Linux, 2 is a missing file, 13 a denied access, 11 a call that
/// would block, and 22 an invalid argument; no other number is one of these.
pub proof fn what_error_numbers_mean(errno: i32)
    ensures
        linux_errnos().kind_of(errno) is NoEntry <==> errno == 2,
        linux_errnos().kind_of(errno) is AccessDenied <==> errno == 13,
        linux_errnos().kind_of(errno) is WouldBlock <==> errno == 11,
        linux_errnos().kind_of(errno) is InvalidArgument <==> errno == 22,
{
}

/// On any system whose numbers for them differ, each of the four is recognized by its
/// number, and nothing else is.
pub proof fn error_numbers_are_recognized(n: ErrnoNumbers, errno: i32)
    requires
        n.enoent != n.eacces && n.enoent != n.ewouldblock && n.enoent != n.einval,
        n.eacces != n.ewouldblock && n.eacces != n.einval && n.ewouldblock != n.einval,
    ensures
        n.kind_of(errno) is NoEntry <==> errno == n.enoent,
        n.kind_of(errno) is AccessDenied <==> errno == n.eacces,
        n.kind_of(errno) is WouldBlock <==> errno == n.ewouldblock,
        n.kind_of(errno) is InvalidArgument <==> errno == n.einval,
{
}

} // verus!
