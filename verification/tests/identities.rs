use blivet::errno::OsFailure;
use blivet::identity::{
    check_name, resolve_group_gid, resolve_user, GroupQuery, GroupReply, ResolvedIdentity,
    ResolvedUser, UserQuery, UserReply,
};
use blivet::path::UnixPath;
use blivet::privileges::{PrivEvent, PrivOp, PrivStep, PrivilegeTask};
use blivet::{DaemonConfig, DaemonContext, DaemonizeError};

use nix::unistd::{Group, Uid, User};

fn look_up_user(query: &UserQuery) -> UserReply {
    let found = match query {
        UserQuery::ById(n) => User::from_uid(Uid::from_raw(*n)),
        UserQuery::ByName(name) => User::from_name(name),
    };
    match found {
        Ok(Some(u)) => UserReply::Found(ResolvedUser {
            name: u.name,
            uid: u.uid.as_raw(),
            gid: u.gid.as_raw(),
            dir: UnixPath::new(u.dir.to_str().unwrap()),
        }),
        Ok(None) => UserReply::Missing,
        Err(e) => UserReply::Failed(e.to_string()),
    }
}

fn look_up_group(name: &str) -> GroupReply {
    match Group::from_name(name) {
        Ok(Some(g)) => GroupReply::Found(g.gid.as_raw()),
        Ok(None) => GroupReply::Missing,
        Err(e) => GroupReply::Failed(e.to_string()),
    }
}

fn user(spec: &str) -> Result<ResolvedUser, DaemonizeError> {
    let query = UserQuery::of(spec);
    let reply = look_up_user(&query);
    resolve_user(&query, reply)
}

fn group(spec: &str) -> Result<u32, DaemonizeError> {
    match GroupQuery::of(spec) {
        GroupQuery::Id(n) => Ok(n),
        GroupQuery::ByName(name) => resolve_group_gid(&name, look_up_group(&name)),
    }
}

/// Runs a task against the real user database; no identity is changed, and files
/// are reported as they are.
fn run(mut task: PrivilegeTask) -> (Result<(), DaemonizeError>, Vec<PrivOp>) {
    let mut made = Vec::new();
    loop {
        let op = match task.step() {
            PrivStep::Perform(op) => op,
            PrivStep::Finished => return (Ok(()), made),
            PrivStep::Abandoned => panic!("an abandoned task reports its error"),
        };
        let event = match &op {
            PrivOp::LookUpUser(q) => PrivEvent::User(look_up_user(q)),
            PrivOp::LookUpGroup(name) => PrivEvent::Group(look_up_group(name)),
            PrivOp::Probe(path) => {
                PrivEvent::Present(std::path::Path::new(&path.display()).exists())
            }
            _ => PrivEvent::Done,
        };
        made.push(op);
        if let Some(e) = task.answer(event) {
            assert!(matches!(task.step(), PrivStep::Abandoned));
            return (Err(e), made);
        }
    }
}

fn ctx(config: &DaemonConfig) -> DaemonContext {
    DaemonContext::new(config.clone(), None, None)
}

fn jane() -> ResolvedUser {
    ResolvedUser {
        name: "jane".into(),
        uid: 1000,
        gid: 100,
        dir: UnixPath::new("/home/jane"),
    }
}

#[test]
fn resolve_user_numeric() {
    // UID 0 should resolve to root on all Unix systems
    let user = user("0").unwrap();
    assert_eq!(user.uid, 0);
    assert_eq!(user.name, "root");
}

#[test]
fn resolve_user_name() {
    let user = user("root").unwrap();
    assert_eq!(user.uid, 0);
}

#[test]
fn resolve_user_nonexistent_name() {
    let result = user("nonexistent_daemonize_test_user_xyz");
    assert!(result.is_err());
}

#[test]
fn resolve_group_gid_numeric() {
    let gid = group("0").unwrap();
    assert_eq!(gid, 0);
}

#[test]
fn resolve_group_gid_by_name() {
    let result = group("root").or_else(|_| group("wheel"));
    assert!(result.is_ok());
}

#[test]
fn resolve_group_gid_nonexistent_name() {
    let result = group("nonexistent_daemonize_test_group_xyz");
    assert!(matches!(result, Err(DaemonizeError::GroupNotFound(_))));
}

#[test]
fn specs_that_read_as_numbers_are_ids() {
    assert_eq!(UserQuery::of("1000"), UserQuery::ById(1000));
    assert_eq!(UserQuery::of("+7"), UserQuery::ById(7));
    assert_eq!(UserQuery::of("4294967295"), UserQuery::ById(u32::MAX));
    assert_eq!(
        UserQuery::of("4294967296"),
        UserQuery::ByName("4294967296".into())
    );
    assert_eq!(UserQuery::of("-1"), UserQuery::ByName("-1".into()));
    assert_eq!(UserQuery::of(""), UserQuery::ByName("".into()));
    assert_eq!(GroupQuery::of("12"), GroupQuery::Id(12));
    assert_eq!(GroupQuery::of("1a"), GroupQuery::ByName("1a".into()));
}

#[test]
fn lookup_errors_name_the_query() {
    let text = |q: UserQuery, r: UserReply| resolve_user(&q, r).unwrap_err().to_string();
    assert_eq!(
        text(UserQuery::ById(9), UserReply::Missing),
        "user not found: uid 9"
    );
    assert_eq!(
        text(UserQuery::ById(9), UserReply::Failed("EIO".into())),
        "user not found: getpwuid(9): EIO"
    );
    assert_eq!(
        text(UserQuery::ByName("x".into()), UserReply::Missing),
        "user not found: x"
    );
    assert_eq!(
        text(UserQuery::ByName("x".into()), UserReply::Failed("EIO".into())),
        "user not found: getpwnam(x): EIO"
    );
    assert_eq!(
        resolve_group_gid("g", GroupReply::Missing)
            .unwrap_err()
            .to_string(),
        "group not found: g"
    );
    assert_eq!(
        resolve_group_gid("g", GroupReply::Failed("EIO".into()))
            .unwrap_err()
            .to_string(),
        "group not found: getgrnam(g): EIO"
    );
}

#[test]
fn names_with_nul_are_refused() {
    assert!(check_name("jane").is_ok());
    assert_eq!(
        check_name("ja\0ne").unwrap_err().to_string(),
        "user not found: invalid username: nul byte found in provided data at position: 2"
    );
    assert_eq!(jane().cname().unwrap(), "jane");
}

#[test]
fn chown_ids_user_only() {
    // User only: owner is the user's UID, group is the user's primary GID.
    let id = ResolvedIdentity {
        user: Some(user("root").unwrap()),
        explicit_group: None,
    };
    let (uid, gid) = id.chown_ids();
    assert_eq!(uid.unwrap(), 0);
    assert_eq!(gid.unwrap(), 0); // root's primary group
}

#[test]
fn chown_ids_neither_leaves_unchanged() {
    let id = ResolvedIdentity {
        user: None,
        explicit_group: None,
    };
    assert_eq!(id.chown_ids(), (None, None));
}

#[test]
fn chown_ids_group_only_numeric() {
    // Group only: owner unchanged, group set to the numeric GID.
    let id = ResolvedIdentity {
        user: None,
        explicit_group: Some(group("0").unwrap()),
    };
    let (uid, gid) = id.chown_ids();
    assert!(uid.is_none()); // no user change
    assert_eq!(gid.unwrap(), 0);
}

#[test]
fn effective_gid_prefers_explicit_group() {
    // Explicit group overrides the user's primary group.
    let id = ResolvedIdentity {
        user: Some(user("root").unwrap()),
        explicit_group: Some(group("0").unwrap()),
    };
    assert_eq!(id.effective_gid().unwrap(), 0);
    let id = ResolvedIdentity {
        user: Some(jane()),
        explicit_group: Some(5),
    };
    assert_eq!(id.effective_gid(), Some(5));
    let id = ResolvedIdentity {
        user: Some(jane()),
        explicit_group: None,
    };
    assert_eq!(id.effective_gid(), Some(100));
}

#[test]
fn drop_privileges_noop_without_user_or_group() {
    let ctx = ctx(&DaemonConfig::new());
    let (result, made) = run(ctx.drop_privileges(None).unwrap());
    assert!(result.is_ok());
    assert!(made.is_empty());
}

#[test]
fn chown_paths_noop_without_user_or_group() {
    let mut config = DaemonConfig::new();
    config.pidfile("/tmp/x.pid");
    let (result, made) = run(ctx(&config).chown_paths());
    assert!(result.is_ok());
    assert!(made.is_empty());
}

#[test]
fn drop_privileges_user_not_found() {
    let mut config = DaemonConfig::new();
    config.user("nonexistent_daemonize_test_user_xyz");
    let (result, _) = run(ctx(&config).drop_privileges(Some(1)).unwrap());
    assert!(matches!(result, Err(DaemonizeError::UserNotFound(_))));
}

#[test]
fn drop_privileges_group_not_found() {
    let mut config = DaemonConfig::new();
    config.group("nonexistent_daemonize_test_group_xyz");
    let (result, _) = run(ctx(&config).drop_privileges(None).unwrap());
    assert!(matches!(result, Err(DaemonizeError::GroupNotFound(_))));
}

#[test]
fn chown_paths_skips_nonexistent_files() {
    let mut config = DaemonConfig::new();
    config
        .pidfile("/nonexistent_daemonize_test_xyz/test.pid")
        .cleanup_on_drop(false)
        .user("root");
    let (result, made) = run(ctx(&config).chown_paths());
    assert!(result.is_ok());
    assert!(!made.iter().any(|op| matches!(op, PrivOp::Chown { .. })));
}

#[test]
fn chown_paths_idempotent() {
    let ctx = ctx(&DaemonConfig::new());
    assert!(run(ctx.chown_paths()).0.is_ok());
    assert!(run(ctx.chown_paths()).0.is_ok());
}

#[test]
fn drop_privileges_idempotent_noop() {
    let ctx = ctx(&DaemonConfig::new());
    assert!(run(ctx.drop_privileges(Some(1)).unwrap()).0.is_ok());
    assert!(run(ctx.drop_privileges(Some(1)).unwrap()).0.is_ok());
}

#[test]
fn drop_privileges_needs_one_thread_for_a_user() {
    let mut config = DaemonConfig::new();
    config.user("root");
    let guarded = ctx(&config);
    assert!(guarded.drop_privileges(Some(1)).is_ok());
    assert_eq!(
        guarded.drop_privileges(Some(2)).unwrap_err(),
        "drop_privileges: 2 threads running (expected 1). Call drop_privileges before \
         spawning threads, async runtimes, or libraries with background threads."
    );
    assert_eq!(
        guarded.drop_privileges(None).unwrap_err(),
        "drop_privileges: cannot determine thread count to verify single-threadedness"
    );
    // A group alone sets no variable.
    let mut config = DaemonConfig::new();
    config.group("0");
    assert!(ctx(&config).drop_privileges(Some(2)).is_ok());
}

fn failed() -> PrivEvent {
    PrivEvent::Failed(OsFailure::from_raw(nix::errno::Errno::EPERM as i32))
}

#[test]
fn switch_to_user_and_group_step_by_step() {
    let mut config = DaemonConfig::new();
    config
        .pidfile("/run/a.pid")
        .stdout("/log/o")
        .user("jane")
        .group("staff");
    let mut task = ctx(&config).drop_privileges_unchecked();
    let expect = |task: &PrivilegeTask, op: PrivOp| {
        assert_eq!(task.step(), PrivStep::Perform(op));
    };

    expect(&task, PrivOp::LookUpUser(UserQuery::ByName("jane".into())));
    // An answer that does not fit changes nothing.
    assert!(task.answer(PrivEvent::Done).is_none());
    expect(&task, PrivOp::LookUpUser(UserQuery::ByName("jane".into())));
    assert!(task
        .answer(PrivEvent::User(UserReply::Found(jane())))
        .is_none());
    expect(&task, PrivOp::LookUpGroup("staff".into()));
    assert!(task
        .answer(PrivEvent::Group(GroupReply::Found(50)))
        .is_none());
    expect(&task, PrivOp::Probe(UnixPath::new("/run/a.pid")));
    assert!(task.answer(PrivEvent::Present(true)).is_none());
    expect(
        &task,
        PrivOp::Chown {
            path: UnixPath::new("/run/a.pid"),
            uid: Some(1000),
            gid: Some(50),
        },
    );
    assert!(task.answer(PrivEvent::Done).is_none());
    expect(&task, PrivOp::Probe(UnixPath::new("/run/a.pid"))); // the derived lock
    assert!(task.answer(PrivEvent::Present(false)).is_none());
    expect(&task, PrivOp::Probe(UnixPath::new("/log/o")));
    assert!(task.answer(PrivEvent::Present(false)).is_none());
    expect(
        &task,
        PrivOp::InitGroups {
            name: "jane".into(),
            primary: 100,
        },
    );
    assert!(task.answer(PrivEvent::Done).is_none());
    expect(&task, PrivOp::SetGid(50));
    assert!(task.answer(PrivEvent::Done).is_none());
    expect(&task, PrivOp::SetUid(1000));
    assert!(task.answer(PrivEvent::Done).is_none());
    for (key, value) in [("USER", "jane"), ("HOME", "/home/jane"), ("LOGNAME", "jane")] {
        expect(
            &task,
            PrivOp::SetEnv {
                key: key.into(),
                value: value.as_bytes().to_vec(),
            },
        );
        assert!(task.answer(PrivEvent::Done).is_none());
    }
    assert_eq!(task.step(), PrivStep::Finished);
    assert!(task.has_switched_to(&Some("jane".into()), &Some("staff".into())));
    assert!(!task.has_switched_to(&Some("jane".into()), &None));
}

#[test]
fn switch_without_handing_over_files() {
    let mut config = DaemonConfig::new();
    config.pidfile("/run/a.pid").group("50").chown_paths(false);
    let task = ctx(&config).drop_privileges_unchecked();
    assert_eq!(task.step(), PrivStep::Perform(PrivOp::SetGid(50)));
}

#[test]
fn failed_chown_stops_before_the_switch() {
    let mut config = DaemonConfig::new();
    config.pidfile("/run/a.pid").group("50");
    let mut task = ctx(&config).drop_privileges_unchecked();
    assert!(task.answer(PrivEvent::Present(true)).is_none());
    let error = task.answer(failed()).unwrap();
    assert!(matches!(&error, DaemonizeError::ChownError(m) if m.starts_with("/run/a.pid: EPERM")));
    assert_eq!(task.step(), PrivStep::Abandoned);
    assert!(task.answer(PrivEvent::Done).is_none());
    assert_eq!(task.step(), PrivStep::Abandoned);
    assert!(!task.has_switched_to(&None, &Some("50".into())));
}

#[test]
fn refused_switches_are_permission_errors() {
    let mut config = DaemonConfig::new();
    config.user("jane");
    for (steps, prefix) in [(0, "initgroups: "), (1, "setgid: "), (2, "setuid: ")] {
        let mut task = ctx(&config).drop_privileges_unchecked();
        assert!(task
            .answer(PrivEvent::User(UserReply::Found(jane())))
            .is_none());
        for _ in 0..steps {
            assert!(task.answer(PrivEvent::Done).is_none());
        }
        let error = task.answer(failed()).unwrap();
        assert!(matches!(&error, DaemonizeError::PermissionDenied(m) if m.starts_with(prefix)));
        assert_eq!(error.exit_code(), 77);
    }
}

#[test]
fn user_with_nul_in_the_name_is_not_switched_to() {
    let mut config = DaemonConfig::new();
    config.user("7").pidfile("/run/a.pid");
    let mut task = ctx(&config).drop_privileges_unchecked();
    let mut strange = jane();
    strange.name = "j\0".into();
    assert!(task
        .answer(PrivEvent::User(UserReply::Found(strange)))
        .is_none());
    assert!(task.answer(PrivEvent::Present(false)).is_none());
    let error = task.answer(PrivEvent::Present(false)).unwrap();
    assert!(matches!(error, DaemonizeError::UserNotFound(_)));
}

/// Runs a task for jane on a host where only the listed files exist.
fn made_with_files(mut task: PrivilegeTask, files: &[&str]) -> Vec<PrivOp> {
    let mut made = Vec::new();
    while let PrivStep::Perform(op) = task.step() {
        let event = match &op {
            PrivOp::LookUpUser(_) => PrivEvent::User(UserReply::Found(jane())),
            PrivOp::LookUpGroup(_) => PrivEvent::Group(GroupReply::Found(50)),
            PrivOp::Probe(path) => {
                PrivEvent::Present(files.iter().any(|f| UnixPath::new(f) == *path))
            }
            _ => PrivEvent::Done,
        };
        made.push(op);
        assert!(task.answer(event).is_none());
    }
    assert_eq!(task.step(), PrivStep::Finished);
    made
}

#[test]
fn every_file_that_is_there_is_handed_over() {
    let mut config = DaemonConfig::new();
    config
        .pidfile("/run/a.pid")
        .lockfile("/run/a.lock")
        .stdout("/log/o")
        .stderr("/log/e")
        .user("jane");
    let files = ["/run/a.pid", "/run/a.lock", "/log/e"];
    let made = made_with_files(ctx(&config).drop_privileges_unchecked(), &files);
    let handed: Vec<&PrivOp> = made
        .iter()
        .filter(|op| matches!(op, PrivOp::Chown { .. }))
        .collect();
    assert_eq!(handed.len(), 3);
    for (file, op) in files.iter().zip(handed) {
        assert_eq!(
            *op,
            PrivOp::Chown {
                path: UnixPath::new(file),
                uid: Some(1000),
                gid: Some(100),
            }
        );
    }
}

#[test]
fn handing_over_alone_changes_no_identity() {
    let mut config = DaemonConfig::new();
    config.pidfile("/run/a.pid").user("jane").group("staff");
    let made = made_with_files(ctx(&config).chown_paths(), &["/run/a.pid"]);
    assert!(made
        .iter()
        .any(|op| matches!(op, PrivOp::Chown { uid: Some(1000), gid: Some(50), .. })));
    assert!(!made.iter().any(|op| matches!(
        op,
        PrivOp::InitGroups { .. }
            | PrivOp::SetGid(_)
            | PrivOp::SetUid(_)
            | PrivOp::SetEnv { .. }
    )));
}
