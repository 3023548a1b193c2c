//! Configuration of a daemon.

use vstd::prelude::*;
use vstd::utf8::*;
use crate::path::{clone_opt, opt_bytes, IntoPath, UnixPath};
use crate::text::{clone_text, opt_text, IntoText};

verus! {

/// Where the lock is taken.
#[derive(Debug, PartialEq, Eq, Hash)]
pub enum LockfileSetting {
    /// On the pidfile itself, if there is one.
    Derive,
    /// On a file of its own.
    Explicit(UnixPath),
    /// Nowhere.
    Disabled,
}

/// A [`LockfileSetting`] as a mathematical value.
pub enum LockfileView {
    Derive,
    Explicit(Seq<u8>),
    Disabled,
}

impl View for LockfileSetting {
    type V = LockfileView;

    open spec fn view(&self) -> LockfileView {
        match self {
            LockfileSetting::Derive => LockfileView::Derive,
            LockfileSetting::Explicit(p) => LockfileView::Explicit(p@),
            LockfileSetting::Disabled => LockfileView::Disabled,
        }
    }
}

/// How a process is to become a daemon.
///
/// Builder methods set the values and cannot fail; what they set is checked in
/// one place, [`validate`](DaemonConfig::validate).
#[derive(Debug, PartialEq, Eq, Hash)]
#[non_exhaustive]
pub struct DaemonConfig {
    pub pidfile: Option<UnixPath>,
    pub chdir: UnixPath,
    pub umask: u32,
    pub stdout: Option<UnixPath>,
    pub stderr: Option<UnixPath>,
    pub append: bool,
    pub lockfile: LockfileSetting,
    pub user: Option<String>,
    pub group: Option<String>,
    pub foreground: bool,
    pub close_fds: bool,
    pub cleanup_on_drop: bool,
    pub chown_paths: bool,
    pub env: Vec<(String, String)>,
}

/// A [`DaemonConfig`] as a mathematical value.
pub struct ConfigView {
    pub pidfile: Option<Seq<u8>>,
    pub chdir: Seq<u8>,
    pub umask: int,
    pub stdout: Option<Seq<u8>>,
    pub stderr: Option<Seq<u8>>,
    pub append: bool,
    pub lockfile: LockfileView,
    pub user: Option<Seq<char>>,
    pub group: Option<Seq<char>>,
    pub foreground: bool,
    pub close_fds: bool,
    pub cleanup_on_drop: bool,
    pub chown_paths: bool,
    pub env: Seq<(Seq<char>, Seq<char>)>,
}

/// Environment entries as mathematical values.
pub open spec fn env_view(env: Seq<(String, String)>) -> Seq<(Seq<char>, Seq<char>)> {
    Seq::new(env.len(), |i: int| (env[i].0@, env[i].1@))
}

impl View for DaemonConfig {
    type V = ConfigView;

    open spec fn view(&self) -> ConfigView {
        ConfigView {
            pidfile: opt_bytes(self.pidfile),
            chdir: self.chdir@,
            umask: self.umask as int,
            stdout: opt_bytes(self.stdout),
            stderr: opt_bytes(self.stderr),
            append: self.append,
            lockfile: self.lockfile@,
            user: opt_text(self.user),
            group: opt_text(self.group),
            foreground: self.foreground,
            close_fds: self.close_fds,
            cleanup_on_drop: self.cleanup_on_drop,
            chown_paths: self.chown_paths,
            env: env_view(self.env@),
        }
    }
}

/// The configuration that nothing was set in.
pub open spec fn default_config() -> ConfigView {
    ConfigView {
        pidfile: None,
        chdir: encode_utf8("/"@),
        umask: 0,
        stdout: None,
        stderr: None,
        append: false,
        lockfile: LockfileView::Derive,
        user: None,
        group: None,
        foreground: false,
        close_fds: true,
        cleanup_on_drop: true,
        chown_paths: true,
        env: Seq::empty(),
    }
}

impl ConfigView {
    /// The file that is locked: the explicit one, or the pidfile where the lock
    /// is derived from it.
    pub open spec fn effective_lockfile(self) -> Option<Seq<u8>> {
        match self.lockfile {
            LockfileView::Derive => self.pidfile,
            LockfileView::Explicit(p) => Some(p),
            LockfileView::Disabled => None,
        }
    }

    /// Whether the process is to change to another user or group.
    pub open spec fn switches_identity(self) -> bool {
        self.user is Some || self.group is Some
    }
}

/// A copy of environment entries.
pub fn clone_env(env: &Vec<(String, String)>) -> (r: Vec<(String, String)>)
    ensures
        env_view(r@) == env_view(env@),
{
    let mut out: Vec<(String, String)> = Vec::new();
    let mut i: usize = 0;
    while i < env.len()
        invariant
            i == out@.len(),
            i <= env@.len(),
            forall|j: int|
                0 <= j < i ==> (#[trigger] out@[j]).0@ == env@[j].0@ && out@[j].1@ == env@[j].1@,
        decreases env@.len() - i,
    {
        out.push((env[i].0.clone(), env[i].1.clone()));
        i = i + 1;
    }
    assert(env_view(out@) =~= env_view(env@));
    out
}

impl Clone for LockfileSetting {
    fn clone(&self) -> (r: Self)
        ensures
            r@ == self@,
    {
        match self {
            LockfileSetting::Derive => LockfileSetting::Derive,
            LockfileSetting::Explicit(p) => LockfileSetting::Explicit(p.clone()),
            LockfileSetting::Disabled => LockfileSetting::Disabled,
        }
    }
}

impl Clone for DaemonConfig {
    fn clone(&self) -> (r: Self)
        ensures
            r@ == self@,
    {
        DaemonConfig {
            pidfile: clone_opt(&self.pidfile),
            chdir: self.chdir.clone(),
            umask: self.umask,
            stdout: clone_opt(&self.stdout),
            stderr: clone_opt(&self.stderr),
            append: self.append,
            lockfile: self.lockfile.clone(),
            user: clone_text(&self.user),
            group: clone_text(&self.group),
            foreground: self.foreground,
            close_fds: self.close_fds,
            cleanup_on_drop: self.cleanup_on_drop,
            chown_paths: self.chown_paths,
            env: clone_env(&self.env),
        }
    }
}

impl Default for DaemonConfig {
    fn default() -> (r: Self)
        ensures
            r@ == default_config(),
    {
        let r = DaemonConfig {
            pidfile: None,
            chdir: UnixPath::new("/"),
            umask: 0,
            stdout: None,
            stderr: None,
            append: false,
            lockfile: LockfileSetting::Derive,
            user: None,
            group: None,
            foreground: false,
            close_fds: true,
            cleanup_on_drop: true,
            chown_paths: true,
            env: Vec::new(),
        };
        assert(r@.env =~= default_config().env);
        r
    }
}

impl DaemonConfig {
    /// A configuration with default values.
    pub fn new() -> (r: DaemonConfig)
        ensures
            r@ == default_config(),
    {
        DaemonConfig::default()
    }

    /// Sets the pidfile. Default: none.
    pub fn pidfile<P: IntoPath>(&mut self, path: P) -> (r: &mut Self)
        ensures
            r@ == (ConfigView { pidfile: Some(path.path_bytes()), ..old(self)@ }),
            *final(self) == *final(r),
    {
        self.pidfile = Some(path.into_path());
        self
    }

    /// Sets the working directory. Default: `/`.
    pub fn chdir<P: IntoPath>(&mut self, path: P) -> (r: &mut Self)
        ensures
            r@ == (ConfigView { chdir: path.path_bytes(), ..old(self)@ }),
            *final(self) == *final(r),
    {
        self.chdir = path.into_path();
        self
    }

    /// Sets the umask, at most `0o7777`. Default: 0.
    pub fn umask(&mut self, umask: u32) -> (r: &mut Self)
        ensures
            r@ == (ConfigView { umask: umask as int, ..old(self)@ }),
            *final(self) == *final(r),
    {
        self.umask = umask;
        self
    }

    /// Sets the file for stdout. Default: none (stays `/dev/null`).
    pub fn stdout<P: IntoPath>(&mut self, path: P) -> (r: &mut Self)
        ensures
            r@ == (ConfigView { stdout: Some(path.path_bytes()), ..old(self)@ }),
            *final(self) == *final(r),
    {
        self.stdout = Some(path.into_path());
        self
    }

    /// Sets the file for stderr. Default: none (stays `/dev/null`).
    pub fn stderr<P: IntoPath>(&mut self, path: P) -> (r: &mut Self)
        ensures
            r@ == (ConfigView { stderr: Some(path.path_bytes()), ..old(self)@ }),
            *final(self) == *final(r),
    {
        self.stderr = Some(path.into_path());
        self
    }

    /// Sets whether to append to the output files. Default: `false`.
    pub fn append(&mut self, append: bool) -> (r: &mut Self)
        ensures
            r@ == (ConfigView { append, ..old(self)@ }),
            *final(self) == *final(r),
    {
        self.append = append;
        self
    }

    /// Sets a lockfile of its own. Default: the pidfile is locked.
    pub fn lockfile<P: IntoPath>(&mut self, path: P) -> (r: &mut Self)
        ensures
            r@ == (ConfigView {
                lockfile: LockfileView::Explicit(path.path_bytes()),
                ..old(self)@
            }),
            *final(self) == *final(r),
    {
        self.lockfile = LockfileSetting::Explicit(path.into_path());
        self
    }

    /// Takes no lock, not even on the pidfile.
    pub fn no_lockfile(&mut self) -> (r: &mut Self)
        ensures
            r@ == (ConfigView { lockfile: LockfileView::Disabled, ..old(self)@ }),
            *final(self) == *final(r),
    {
        self.lockfile = LockfileSetting::Disabled;
        self
    }

    /// Sets the user to switch to, by name or numeric id. Default: none.
    pub fn user<S: IntoText>(&mut self, name: S) -> (r: &mut Self)
        ensures
            r@ == (ConfigView { user: Some(name.text()), ..old(self)@ }),
            *final(self) == *final(r),
    {
        self.user = Some(name.into_text());
        self
    }

    /// Sets the group to switch to, by name or numeric id. Default: the user's own.
    pub fn group<S: IntoText>(&mut self, name: S) -> (r: &mut Self)
        ensures
            r@ == (ConfigView { group: Some(name.text()), ..old(self)@ }),
            *final(self) == *final(r),
    {
        self.group = Some(name.into_text());
        self
    }

    /// Sets whether to stay in the calling process. Default: `false`.
    pub fn foreground(&mut self, foreground: bool) -> (r: &mut Self)
        ensures
            r@ == (ConfigView { foreground, ..old(self)@ }),
            *final(self) == *final(r),
    {
        self.foreground = foreground;
        self
    }

    /// Sets whether to close inherited descriptors. Default: `true`.
    pub fn close_fds(&mut self, close_fds: bool) -> (r: &mut Self)
        ensures
            r@ == (ConfigView { close_fds, ..old(self)@ }),
            *final(self) == *final(r),
    {
        self.close_fds = close_fds;
        self
    }

    /// Sets whether the pidfile is removed at the end. Default: `true`.
    pub fn cleanup_on_drop(&mut self, cleanup_on_drop: bool) -> (r: &mut Self)
        ensures
            r@ == (ConfigView { cleanup_on_drop, ..old(self)@ }),
            *final(self) == *final(r),
    {
        self.cleanup_on_drop = cleanup_on_drop;
        self
    }

    /// Sets whether dropping privileges hands the files over to the new user.
    /// Default: `true`.
    pub fn chown_paths(&mut self, chown_paths: bool) -> (r: &mut Self)
        ensures
            r@ == (ConfigView { chown_paths, ..old(self)@ }),
            *final(self) == *final(r),
    {
        self.chown_paths = chown_paths;
        self
    }

    /// Adds an environment variable. Of several with the same key the last one
    /// takes effect.
    pub fn env<K: IntoText, T: IntoText>(&mut self, key: K, value: T) -> (r: &mut Self)
        ensures
            r@ == (ConfigView { env: old(self)@.env.push((key.text(), value.text())), ..old(self)@ }),
            *final(self) == *final(r),
    {
        let ghost before = self.env@;
        self.env.push((key.into_text(), value.into_text()));
        assert(env_view(self.env@) =~= env_view(before).push((key.text(), value.text())));
        self
    }

    /// The file to lock, if any.
    pub fn effective_lockfile(&self) -> (r: Option<&UnixPath>)
        ensures
            match r {
                Some(p) => self@.effective_lockfile() == Some(p@),
                None => self@.effective_lockfile() is None,
            },
    {
        match &self.lockfile {
            LockfileSetting::Derive => match &self.pidfile {
                Some(p) => Some(p),
                None => None,
            },
            LockfileSetting::Explicit(p) => Some(p),
            LockfileSetting::Disabled => None,
        }
    }

    /// Whether the process is to change to another user or group.
    pub fn switches_identity(&self) -> (r: bool)
        ensures
            r == self@.switches_identity(),
    {
        self.user.is_some() || self.group.is_some()
    }
}

/// A lone pidfile is locked itself; without a pidfile no lock is derived; and
/// without a lock there is none.
pub proof fn lock_is_derived_from_the_pidfile(c: ConfigView, p: Seq<u8>)
    ensures
        (ConfigView { pidfile: Some(p), lockfile: LockfileView::Derive, ..c }).effective_lockfile()
            == Some(p),
        (ConfigView { pidfile: None, lockfile: LockfileView::Derive, ..c }).effective_lockfile()
            is None,
        (ConfigView { lockfile: LockfileView::Disabled, ..c }).effective_lockfile() is None,
        (ConfigView { lockfile: LockfileView::Explicit(p), ..c }).effective_lockfile() == Some(p),
{
}

/// Of several settings of the lockfile the last one counts.
pub proof fn last_lockfile_setting_counts(c: ConfigView, p: Seq<u8>, q: Seq<u8>)
    ensures
        ({
            let explicit = ConfigView { lockfile: LockfileView::Explicit(p), ..c };
            let disabled = ConfigView { lockfile: LockfileView::Disabled, ..explicit };
            let again = ConfigView { lockfile: LockfileView::Explicit(q), ..disabled };
            &&& explicit.effective_lockfile() == Some(p)
            &&& disabled.effective_lockfile() is None
            &&& again.effective_lockfile() == Some(q)
        }),
{
}

} // verus!
