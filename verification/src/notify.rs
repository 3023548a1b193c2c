//! Wire protocol of the pipe on which the daemon tells its parent how it went.
//!
//! The daemon writes exactly one message and closes the pipe. A message is an
//! exit-code byte, followed by a text in UTF-8:
//!
//! - `0x00`: the daemon is ready; what follows is ignored.
//! - another code and a text: the daemon failed; the parent prints the text and
//!   exits with the code.
//! - nothing at all: the daemon executed another program, which closed the pipe;
//!   that counts as ready.

use vstd::prelude::*;
use vstd::utf8::*;
use crate::error::{DaemonizeError, ErrorView};
use crate::path::{clone_bytes, copy_bytes, decode_lossy, utf8_lossy, utf8_lossy_of_encoding};

verus! {

/// The message of a daemon that is ready.
pub const SUCCESS: [u8; 1] = [0x00];

/// The exit code of a daemon that went away without a word.
pub const UNNOTIFIED_CODE: u8 = 1;

/// The text that goes with [`UNNOTIFIED_CODE`].
pub open spec fn unnotified_text() -> Seq<char> {
    "daemon exited without signaling readiness"@
}

/// The message of a failure.
pub open spec fn failure_message(code: u8, text: Seq<char>) -> Seq<u8> {
    seq![code] + encode_utf8(text)
}

/// The message that reports an error.
pub open spec fn error_message(e: ErrorView) -> Seq<u8> {
    failure_message(e.code(), e.message())
}

/// The message of a daemon that went away without a word.
pub open spec fn unnotified_message() -> Seq<u8> {
    failure_message(UNNOTIFIED_CODE, unnotified_text())
}

/// The message of a daemon that is ready.
pub open spec fn ready_message() -> Seq<u8> {
    seq![0u8]
}

/// What the parent makes of what it read.
#[derive(Debug, PartialEq, Eq)]
pub enum Outcome {
    /// The daemon is ready.
    Success,
    /// The daemon failed: print `message` and exit with `code`.
    Failure { code: i32, message: String },
}

/// An [`Outcome`] as a mathematical value.
pub enum OutcomeView {
    Success,
    Failure { code: int, message: Seq<char> },
}

impl View for Outcome {
    type V = OutcomeView;

    open spec fn view(&self) -> OutcomeView {
        match self {
            Outcome::Success => OutcomeView::Success,
            Outcome::Failure { code, message } => OutcomeView::Failure {
                code: *code as int,
                message: message@,
            },
        }
    }
}

/// The outcome that a message stands for.
pub open spec fn outcome(buf: Seq<u8>) -> OutcomeView {
    if buf.len() == 0 || buf[0] == 0 {
        OutcomeView::Success
    } else {
        OutcomeView::Failure { code: buf[0] as int, message: utf8_lossy(buf.skip(1)) }
    }
}

/// A message: the code, then the text's bytes.
pub fn encode(code: u8, msg: &[u8]) -> (r: Vec<u8>)
    ensures
        r@ == seq![code] + msg@,
{
    let mut buf: Vec<u8> = Vec::new();
    buf.push(code);
    let mut rest = clone_bytes(msg);
    buf.append(&mut rest);
    assert(buf@ =~= seq![code] + msg@);
    buf
}

/// The message that reports `err`: its exit code and its text.
pub fn error_bytes(err: &DaemonizeError) -> (r: Vec<u8>)
    ensures
        r@ == error_message(err@),
{
    encode(err.exit_code(), err.to_string().as_str().as_bytes())
}

/// The message of a daemon that went away without a word.
pub fn unnotified_bytes() -> (r: Vec<u8>)
    ensures
        r@ == unnotified_message(),
{
    encode(UNNOTIFIED_CODE, "daemon exited without signaling readiness".as_bytes())
}

/// Decodes what was read from the pipe up to its end.
pub fn decode(buf: &[u8]) -> (r: Outcome)
    ensures
        r@ == outcome(buf@),
{
    if buf.len() == 0 || buf[0] == 0 {
        Outcome::Success
    } else {
        let text = copy_bytes(buf, 1, buf.len());
        assert(text@ =~= buf@.skip(1));
        Outcome::Failure { code: buf[0] as i32, message: decode_lossy(text.as_slice()) }
    }
}

/// Bytes to write to a descriptor, which is closed afterwards.
#[derive(Debug, PartialEq, Eq)]
pub struct PipeWrite {
    pub fd: i32,
    pub bytes: Vec<u8>,
}

/// A [`PipeWrite`] as a mathematical value.
pub struct PipeWriteView {
    pub fd: int,
    pub bytes: Seq<u8>,
}

impl View for PipeWrite {
    type V = PipeWriteView;

    open spec fn view(&self) -> PipeWriteView {
        PipeWriteView { fd: self.fd as int, bytes: self.bytes@ }
    }
}

/// The write end of the notification pipe. It speaks once: every method that
/// says something, or closes the pipe in silence, consumes it.
#[derive(Debug)]
pub struct NotifyPipe {
    fd: i32,
}

impl View for NotifyPipe {
    type V = int;

    closed spec fn view(&self) -> int {
        self.fd as int
    }
}

impl NotifyPipe {
    /// The write end with this descriptor.
    pub fn new(fd: i32) -> (r: NotifyPipe)
        ensures
            r@ == fd,
    {
        NotifyPipe { fd }
    }

    /// The descriptor, to keep it from being closed with the inherited ones.
    pub fn as_fd(&self) -> (r: i32)
        ensures
            r == self@,
    {
        self.fd
    }

    /// Gives the descriptor up to be closed without a word. The processes between
    /// the caller and the daemon hold a copy of it and must stay silent.
    pub fn close(self) -> (r: i32)
        ensures
            r == self@,
    {
        self.fd
    }

    /// Says that the daemon is ready.
    pub fn signal_ready(self) -> (r: PipeWrite)
        ensures
            r@ == (PipeWriteView { fd: self@, bytes: ready_message() }),
    {
        let mut bytes: Vec<u8> = Vec::new();
        bytes.push(SUCCESS[0]);
        assert(bytes@ =~= ready_message());
        PipeWrite { fd: self.fd, bytes }
    }

    /// Reports an error.
    pub fn signal_error(self, err: &DaemonizeError) -> (r: PipeWrite)
        ensures
            r@ == (PipeWriteView { fd: self@, bytes: error_message(err@) }),
    {
        PipeWrite { fd: self.fd, bytes: error_bytes(err) }
    }

    /// Reports that the daemon goes away without having said that it is ready.
    pub fn signal_unnotified(self) -> (r: PipeWrite)
        ensures
            r@ == (PipeWriteView { fd: self@, bytes: unnotified_message() }),
    {
        PipeWrite { fd: self.fd, bytes: unnotified_bytes() }
    }
}

/// The parent learns of an error exactly what the daemon reported: its exit code
/// and its text.
pub proof fn error_round_trip(e: ErrorView)
    ensures
        outcome(error_message(e)) == (OutcomeView::Failure {
            code: e.code() as int,
            message: e.message(),
        }),
{
    assert(error_message(e).skip(1) =~= encode_utf8(e.message()));
    utf8_lossy_of_encoding(e.message());
}

/// A daemon that goes away without a word is a failure with code 1.
pub proof fn unnotified_round_trip()
    ensures
        outcome(unnotified_message()) == (OutcomeView::Failure {
            code: 1,
            message: unnotified_text(),
        }),
{
    assert(unnotified_message().skip(1) =~= encode_utf8(unnotified_text()));
    utf8_lossy_of_encoding(unnotified_text());
}

/// Readiness, whatever follows it, and a pipe closed by a program that was
/// executed are successes; no other message is.
pub proof fn success_is_zero_or_silence(buf: Seq<u8>)
    ensures
        outcome(buf) is Success <==> buf.len() == 0 || buf[0] == 0,
        outcome(ready_message() + buf) is Success,
{
}

/// What is written to the pipe: the one byte 0 by a daemon that is ready; the exit code
/// of an error and its text by one that failed; and code 1 and a text by one that goes
/// away without a word.
pub proof fn what_is_written_to_the_pipe(e: ErrorView)
    ensures
        ready_message() == seq![0u8],
        error_message(e) == seq![e.code()] + encode_utf8(e.message()),
        unnotified_message() == seq![1u8] + encode_utf8(
            "daemon exited without signaling readiness"@,
        ),
{
}

/// What the parent makes of it: success where nothing or 0 comes first, and otherwise
/// the code that comes first and the text behind it.
pub proof fn what_is_read_from_the_pipe(buf: Seq<u8>, code: u8, text: Seq<char>)
    ensures
        buf.len() == 0 ==> outcome(buf) is Success,
        outcome(seq![0u8] + buf) is Success,
        code != 0 ==> outcome(seq![code] + buf) == (OutcomeView::Failure {
            code: code as int,
            message: utf8_lossy(buf),
        }),
        code != 0 ==> outcome(seq![code] + encode_utf8(text)) == (OutcomeView::Failure {
            code: code as int,
            message: text,
        }),
{
    assert((seq![code] + buf).skip(1) =~= buf);
    assert((seq![code] + encode_utf8(text)).skip(1) =~= encode_utf8(text));
    utf8_lossy_of_encoding(text);
}

} // verus!
