use std::collections::BTreeMap;

use blivet::calls::{Event, Op};
use blivet::fds::fds_to_close;
use blivet::path::UnixPath;
use blivet::sequence::{daemonize_inner, Step};
use blivet::signals::SignalNumbers;
use blivet::{DaemonConfig, DaemonContext};

/// What a descriptor of the simulated host leads to.
#[derive(Debug, Clone, PartialEq, Eq)]
enum Source {
    Inherited(i32),
    File { path: UnixPath, nth: usize },
    PipeEnd,
}

/// A host that gives out the lowest free descriptor.
struct Host {
    open: BTreeMap<i32, Source>,
    opened: usize,
    same_outputs: bool,
    has_listing: bool,
}

impl Host {
    fn with_open(fds: &[i32]) -> Host {
        Host {
            open: fds.iter().map(|fd| (*fd, Source::Inherited(*fd))).collect(),
            opened: 0,
            same_outputs: false,
            has_listing: true,
        }
    }

    fn lowest_free(&self) -> i32 {
        (0..).find(|fd| !self.open.contains_key(fd)).unwrap()
    }

    fn answer(&mut self, op: &Op) -> Event {
        match op {
            Op::CreatePipe => {
                let read = self.lowest_free();
                self.open.insert(read, Source::PipeEnd);
                let write = self.lowest_free();
                self.open.insert(write, Source::PipeEnd);
                Event::Pipe { read, write }
            }
            Op::FirstFork | Op::SecondFork => Event::Child,
            Op::Open { path, .. } => {
                let fd = self.lowest_free();
                let file = Source::File {
                    path: path.clone(),
                    nth: self.opened,
                };
                self.opened += 1;
                self.open.insert(fd, file);
                Event::Opened(fd)
            }
            Op::Dup2 { source, target, .. } => {
                let leads_to = self.open[source].clone();
                self.open.insert(*target, leads_to);
                Event::Done
            }
            Op::Release { fd, close, .. } => {
                if *close {
                    self.open.remove(fd);
                }
                Event::Done
            }
            Op::CloseEnd(fd) => {
                self.open.remove(fd);
                Event::Done
            }
            Op::QueryPidfile { .. } => Event::Pidfile {
                pid: 7,
                pidfile: None,
                lockfile: None,
            },
            Op::QueryOutputs { .. } => {
                let canonical = |name: &str| Some(UnixPath::new(name));
                Event::Outputs {
                    stdout: canonical("/real/out"),
                    stderr: canonical(if self.same_outputs {
                        "/real/out"
                    } else {
                        "/real/err"
                    }),
                }
            }
            Op::ListFds => Event::Fds(if self.has_listing {
                Some(self.open.keys().map(|fd| fd.to_string()).collect())
            } else {
                None
            }),
            Op::QueryFdLimit => Event::Limit(256),
            Op::CloseFds(fds) => {
                for fd in fds {
                    self.open.remove(fd);
                }
                Event::Done
            }
            Op::CloseRange { max_fd, skip } => {
                for fd in fds_to_close(*max_fd, skip).collect() {
                    self.open.remove(&fd);
                }
                Event::Done
            }
            _ => Event::Done,
        }
    }

    fn start(&mut self, config: &DaemonConfig) -> DaemonContext {
        let mut d = daemonize_inner(config, SignalNumbers::host());
        loop {
            let event = self.answer(d.op().unwrap());
            match d.advance(event) {
                Step::Continue(next) => d = next,
                Step::Return(context) => return context,
                _ => panic!("the process should become a daemon"),
            }
        }
    }

    fn path(&self, fd: i32) -> &UnixPath {
        match &self.open[&fd] {
            Source::File { path, .. } => path,
            other => panic!("{fd} should lead to a file, not to {other:?}"),
        }
    }
}

#[test]
fn streams_of_a_daemon_lead_to_devnull_or_their_files() {
    let mut host = Host::with_open(&[0, 1, 2, 5]);
    host.start(&DaemonConfig::new());
    for fd in 0..3 {
        assert_eq!(host.path(fd), &UnixPath::new("/dev/null"));
    }

    let mut config = DaemonConfig::new();
    config.stdout("/tmp/out").stderr("/tmp/err");
    let mut host = Host::with_open(&[0, 1, 2]);
    host.start(&config);
    assert_eq!(host.path(0), &UnixPath::new("/dev/null"));
    assert_eq!(host.path(1), &UnixPath::new("/tmp/out"));
    assert_eq!(host.path(2), &UnixPath::new("/tmp/err"));
}

#[test]
fn foreground_streams_are_inherited_without_files() {
    let mut config = DaemonConfig::new();
    config.foreground(true).stderr("/tmp/err");
    let mut host = Host::with_open(&[0, 1, 2]);
    host.start(&config);
    assert_eq!(host.path(0), &UnixPath::new("/dev/null"));
    assert_eq!(host.open[&1], Source::Inherited(1));
    assert_eq!(host.path(2), &UnixPath::new("/tmp/err"));
}

#[test]
fn streams_to_the_same_file_share_one_open_file() {
    let mut config = DaemonConfig::new();
    config.stdout("/tmp/out").stderr("/tmp/link");
    let mut host = Host::with_open(&[0, 1, 2]);
    host.same_outputs = true;
    host.start(&config);
    assert_eq!(host.open[&2], host.open[&1]);
    assert_eq!(host.path(2), &UnixPath::new("/tmp/out"));

    // Two files are opened separately.
    let mut host = Host::with_open(&[0, 1, 2]);
    host.start(&config);
    assert_ne!(host.open[&2], host.open[&1]);
}

#[test]
fn a_daemon_has_only_streams_lock_and_pipe_open() {
    let mut config = DaemonConfig::new();
    config.pidfile("/run/d.pid").stdout("/tmp/out");
    for has_listing in [true, false] {
        let mut host = Host::with_open(&[0, 1, 2, 3, 4, 17, 200]);
        host.has_listing = has_listing;
        let context = host.start(&config);
        let lock = context.lockfile_fd().unwrap();
        assert_eq!(host.path(lock), &UnixPath::new("/run/d.pid"));
        let pipe: Vec<i32> = host
            .open
            .iter()
            .filter(|(_, source)| **source == Source::PipeEnd)
            .map(|(fd, _)| *fd)
            .collect();
        assert_eq!(pipe.len(), 1);
        let mut wanted = vec![0, 1, 2, lock, pipe[0]];
        wanted.sort();
        assert_eq!(host.open.keys().copied().collect::<Vec<i32>>(), wanted);
    }
}

#[test]
fn inherited_descriptors_stay_where_they_are_not_to_be_closed() {
    let mut config = DaemonConfig::new();
    config.close_fds(false).pidfile("/run/d.pid");
    let mut host = Host::with_open(&[0, 1, 2, 3, 17]);
    host.start(&config);
    assert_eq!(host.open[&3], Source::Inherited(3));
    assert_eq!(host.open[&17], Source::Inherited(17));
}

#[test]
fn redirect_to_devnull_succeeds() {
    let mut host = Host::with_open(&[0, 1, 2]);
    host.start(&DaemonConfig::new());
    for fd in 0..3 {
        assert_eq!(host.path(fd), &UnixPath::new("/dev/null"));
    }
}

#[test]
fn redirect_to_devnull_foreground_preserves_stdout_stderr() {
    let mut config = DaemonConfig::new();
    config.foreground(true);
    let mut host = Host::with_open(&[0, 1, 2]);
    host.start(&config);

    assert_eq!(host.path(0), &UnixPath::new("/dev/null"));
    assert_eq!(host.open[&1], Source::Inherited(1));
    assert_eq!(host.open[&2], Source::Inherited(2));
}

#[test]
fn streams_that_were_closed_lead_where_configured() {
    for open in [vec![], vec![0], vec![1], vec![2], vec![0, 1], vec![0, 2], vec![1, 2]] {
        let mut config = DaemonConfig::new();
        config.stdout("/tmp/out").stderr("/tmp/err");
        let mut host = Host::with_open(&open);
        host.start(&config);
        assert_eq!(host.path(0), &UnixPath::new("/dev/null"));
        assert_eq!(host.path(1), &UnixPath::new("/tmp/out"));
        assert_eq!(host.path(2), &UnixPath::new("/tmp/err"));

        let mut host = Host::with_open(&open);
        host.same_outputs = true;
        host.start(&config);
        assert_eq!(host.open[&2], host.open[&1]);

        let mut host = Host::with_open(&open);
        host.start(&DaemonConfig::new());
        for fd in 0..3 {
            assert_eq!(host.path(fd), &UnixPath::new("/dev/null"));
        }

        // In the foreground a stream without a file is not touched.
        let mut config = DaemonConfig::new();
        config.foreground(true).pidfile("/run/d.pid");
        let mut host = Host::with_open(&open);
        host.start(&config);
        assert_eq!(host.path(0), &UnixPath::new("/dev/null"));
        for fd in open.into_iter().filter(|fd| *fd > 0) {
            assert_eq!(host.open[&fd], Source::Inherited(fd));
        }
    }
}

#[test]
fn lock_and_pipe_stay_open_where_stdin_was_closed() {
    let mut config = DaemonConfig::new();
    config.pidfile("/run/d.pid").stdout("/tmp/out");
    let mut host = Host::with_open(&[1, 2, 17]);
    let context = host.start(&config);
    let lock = context.lockfile_fd().unwrap();
    assert!(lock > 2);
    assert_eq!(host.path(lock), &UnixPath::new("/run/d.pid"));
    let pipes = host.open.values().filter(|s| **s == Source::PipeEnd).count();
    assert_eq!(pipes, 1);
    assert!(!host.open.contains_key(&17));
}
