use blivet::context::{notify_outcome, FinalAction};
use blivet::notify::{
    decode, error_bytes, unnotified_bytes, NotifyPipe, Outcome, SUCCESS, UNNOTIFIED_CODE,
};
use blivet::{DaemonConfig, DaemonContext, DaemonizeError};

/// Sends bytes through a real pipe and reads them up to the end.
fn through_pipe(bytes: &[u8]) -> Vec<u8> {
    let (rd, wr) = nix::unistd::pipe().unwrap();
    let mut sent = 0;
    while sent < bytes.len() {
        sent += nix::unistd::write(&wr, &bytes[sent..]).unwrap();
    }
    drop(wr);
    let mut all = Vec::new();
    let mut buf = [0u8; 64];
    loop {
        let n = nix::unistd::read(&rd, &mut buf).unwrap();
        if n == 0 {
            return all;
        }
        all.extend_from_slice(&buf[..n]);
    }
}

#[test]
fn signal_ready_writes_success_byte() {
    let write = NotifyPipe::new(7).signal_ready();
    assert_eq!(write.fd, 7);
    assert_eq!(through_pipe(&write.bytes), SUCCESS);
}

#[test]
fn signal_error_writes_protocol() {
    let err = DaemonizeError::ForkFailed("boom".into());
    let write = NotifyPipe::new(7).signal_error(&err);
    assert_eq!(decode(&through_pipe(&write.bytes)), decode(&error_bytes(&err)));
}

#[test]
fn signal_unnotified_writes_protocol() {
    let write = NotifyPipe::new(7).signal_unnotified();
    assert_eq!(
        decode(&through_pipe(&write.bytes)),
        Outcome::Failure {
            code: UNNOTIFIED_CODE as i32,
            message: "daemon exited without signaling readiness".into(),
        }
    );
}

#[test]
fn drop_without_signal_reports_unnotified_failure() {
    // A pipe that goes away with its context must report a failure, not let the
    // closed pipe decode as success.
    let mut ctx = DaemonContext::new(DaemonConfig::new(), None, Some(NotifyPipe::new(7)));
    let actions = ctx.finish();
    assert_eq!(actions.len(), 1);
    match &actions[0] {
        FinalAction::WritePipe(write) => assert_eq!(
            decode(&through_pipe(&write.bytes)),
            Outcome::Failure {
                code: UNNOTIFIED_CODE as i32,
                message: "daemon exited without signaling readiness".into(),
            }
        ),
        other => panic!("expected a message, got {other:?}"),
    }
}

#[test]
fn close_writes_nothing() {
    // The processes between the caller and the daemon give up their copy of the
    // write end in silence: the pipe must end without a byte.
    let fd = NotifyPipe::new(7).close();
    assert_eq!(fd, 7);
    assert_eq!(through_pipe(&[]), Vec::<u8>::new());
}

#[test]
fn drop_after_signal_does_not_double_write() {
    let mut ctx = DaemonContext::new(DaemonConfig::new(), None, Some(NotifyPipe::new(7)));
    let write = ctx.notify_parent().unwrap().unwrap();
    assert_eq!(through_pipe(&write.bytes), SUCCESS);
    assert!(ctx.finish().is_empty());
}

#[test]
fn signal_ready_errors_on_closed_reader() {
    let (rd, wr) = nix::unistd::pipe().unwrap();
    drop(rd); // reader gone: write end sees EPIPE
    let write = NotifyPipe::new(7).signal_ready();
    let result = match nix::unistd::write(&wr, &write.bytes) {
        Ok(_) => notify_outcome(None),
        Err(e) => notify_outcome(Some(e.to_string())),
    };
    assert!(result.is_err());
    assert!(matches!(result, Err(DaemonizeError::NotifyFailed(_))));
}

#[test]
fn decode_success_byte() {
    assert_eq!(decode(&SUCCESS), Outcome::Success);
}

#[test]
fn decode_eof_is_success() {
    assert_eq!(decode(&[]), Outcome::Success);
}

#[test]
fn decode_ignores_what_follows_success() {
    assert_eq!(decode(&[0, 71, b'x']), Outcome::Success);
}

#[test]
fn decode_replaces_invalid_bytes() {
    assert_eq!(
        decode(&[3, b'a', 0xff, b'b']),
        Outcome::Failure {
            code: 3,
            message: "a\u{fffd}b".into()
        }
    );
    assert_eq!(
        decode(&[255]),
        Outcome::Failure {
            code: 255,
            message: String::new()
        }
    );
}

#[test]
fn error_bytes_round_trip() {
    let err = DaemonizeError::ForkFailed("boom".into());
    let code = err.exit_code();
    assert_eq!(
        decode(&error_bytes(&err)),
        Outcome::Failure {
            code: code as i32,
            message: "fork failed: boom".into(),
        }
    );
}

#[test]
fn error_bytes_round_trip_beyond_ascii() {
    let err = DaemonizeError::application(75, "käse \u{1f9c0}");
    assert_eq!(
        decode(&error_bytes(&err)),
        Outcome::Failure {
            code: 75,
            message: "application error: käse \u{1f9c0}".into(),
        }
    );
}

#[test]
fn application_zero_code_is_not_silently_success() {
    // A caller-chosen code of 0 would collide with the success byte and be
    // decoded as readiness.
    let err = DaemonizeError::application(0, "boom");
    match decode(&error_bytes(&err)) {
        Outcome::Failure { code, message } => {
            assert_ne!(code, 0);
            assert_eq!(message, "application error: boom");
        }
        Outcome::Success => panic!("a reported error was decoded as success"),
    }
}

#[test]
fn unnotified_round_trip() {
    assert_eq!(
        decode(&unnotified_bytes()),
        Outcome::Failure {
            code: UNNOTIFIED_CODE as i32,
            message: "daemon exited without signaling readiness".into(),
        }
    );
}
