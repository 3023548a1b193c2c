use blivet::errno::OsFailure;
use blivet::launch::{Launch, LaunchEvent, LaunchOp};
use blivet::{DaemonConfig, DaemonizeError};

fn program() -> Vec<String> {
    vec!["x".to_string(), "-a".to_string()]
}

fn launch(config: &DaemonConfig, lock: Option<i32>) -> Launch {
    Launch::new(config, lock, "/bin/x".to_string(), &program())
}

fn failure(errno: i32) -> LaunchEvent {
    LaunchEvent::Failed(OsFailure::from_raw(errno))
}

fn reported(launch: &Launch) -> String {
    match launch.op() {
        Some(LaunchOp::Report(e)) => format!("{} {}", e.exit_code(), e.to_string()),
        other => panic!("an error should be reported, not {other:?}"),
    }
}

#[test]
fn programs_are_executed_after_everything_else() {
    let mut config = DaemonConfig::new();
    config.user("jane");
    let mut launch = launch(&config, Some(7));
    assert!(matches!(launch.op(), Some(LaunchOp::DropPrivileges)));
    // An answer that does not fit changes nothing.
    launch.advance(failure(libc::EPERM));
    assert!(matches!(launch.op(), Some(LaunchOp::DropPrivileges)));
    launch.advance(LaunchEvent::Done);
    assert!(matches!(launch.op(), Some(LaunchOp::ClearCloexec(7))));
    launch.advance(LaunchEvent::Done);
    assert!(matches!(launch.op(), Some(LaunchOp::DefaultSigpipe)));
    launch.advance(LaunchEvent::Done);
    match launch.op() {
        Some(LaunchOp::Exec(argv)) => assert_eq!(*argv, vec!["/bin/x", "-a"]),
        other => panic!("the program should be executed, not {other:?}"),
    }
    launch.advance(LaunchEvent::Done);
    assert!(matches!(launch.op(), Some(LaunchOp::Exec(_))));
    launch.advance(failure(libc::ENOEXEC));
    assert_eq!(
        reported(&launch),
        "71 exec failed: exec /bin/x: ENOEXEC: Exec format error"
    );
    launch.advance(LaunchEvent::Done);
    assert!(matches!(launch.op(), Some(LaunchOp::Report(_))));
}

#[test]
fn missing_programs_are_not_found() {
    let mut launch = launch(&DaemonConfig::new(), None);
    assert!(matches!(launch.op(), Some(LaunchOp::DefaultSigpipe)));
    launch.advance(LaunchEvent::Done);
    launch.advance(failure(libc::ENOENT));
    assert_eq!(
        reported(&launch),
        "66 program not found: exec /bin/x: ENOENT: No such file or directory"
    );
}

#[test]
fn nothing_is_executed_after_a_failure() {
    let mut config = DaemonConfig::new();
    config.group("staff");
    let mut refused = launch(&config, Some(7));
    refused.advance(LaunchEvent::Refused(DaemonizeError::GroupNotFound(
        "staff".to_string(),
    )));
    assert_eq!(reported(&refused), "67 group not found: staff");

    let mut unlocked = launch(&DaemonConfig::new(), Some(7));
    unlocked.advance(failure(libc::EBADF));
    assert_eq!(
        reported(&unlocked),
        "71 exec failed: failed to clear CLOEXEC on lockfile fd: EBADF: Bad file number"
    );
}

#[test]
fn arguments_with_nul_are_reported_when_their_turn_comes() {
    let program = vec!["x".to_string(), "a\0b".to_string()];
    let mut launch = Launch::new(&DaemonConfig::new(), Some(7), "x".to_string(), &program);
    assert!(matches!(launch.op(), Some(LaunchOp::ClearCloexec(7))));
    launch.advance(LaunchEvent::Done);
    assert_eq!(
        reported(&launch),
        "71 exec failed: argument contains null byte: a\0b"
    );
}
