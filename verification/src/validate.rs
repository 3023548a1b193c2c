//! Validation of a configuration against what was observed of the host.

use vstd::prelude::*;
use crate::config::{env_view, ConfigView, DaemonConfig, LockfileView};
use crate::error::{opt_error, DaemonizeError, ErrorView};
use crate::host::{HostFacts, HostView};
use crate::path::{absolute, parent_path, paths_same, paths_view, same_file, UnixPath};
use crate::text::{cat, cat4, contains_char};

verus! {

/// A validation error with this text.
pub open spec fn invalid(text: Seq<char>) -> Option<ErrorView> {
    Some(ErrorView::ValidationError(text))
}

/// The first of two complaints.
pub open spec fn first(a: Option<ErrorView>, b: Option<ErrorView>) -> Option<ErrorView> {
    if a is Some {
        a
    } else {
        b
    }
}

/// What is wrong with a path that no system call would take.
pub open spec fn nul_problem(name: Seq<char>, p: Option<Seq<u8>>) -> Option<ErrorView> {
    match p {
        Some(path) => if path.contains(0u8) {
            invalid(name + " path contains NUL byte"@)
        } else {
            None
        },
        None => None,
    }
}

/// What is wrong with the working directory.
pub open spec fn chdir_problem(p: Seq<u8>, h: HostView) -> Option<ErrorView> {
    if !absolute(p) {
        invalid("chdir path must be absolute"@)
    } else if !h.facts(p).present {
        invalid("chdir path does not exist"@)
    } else if !h.facts(p).is_dir {
        invalid("chdir path is not a directory"@)
    } else {
        None
    }
}

/// What is wrong with the directory that a file is to be created in.
pub open spec fn parent_problem(name: Seq<char>, p: Seq<u8>, h: HostView) -> Option<ErrorView> {
    match parent_path(p) {
        None => invalid(name + " path has no parent directory"@),
        Some(dir) => if !h.facts(dir).present {
            invalid(name + " parent directory does not exist"@)
        } else if !h.facts(dir).writable {
            invalid(name + " parent directory is not writable"@)
        } else {
            None
        },
    }
}

/// What is wrong with a file to be created. Of the pidfile it is also asked that
/// it is no directory.
pub open spec fn file_problem(
    name: Seq<char>,
    p: Option<Seq<u8>>,
    no_dir: bool,
    h: HostView,
) -> Option<ErrorView> {
    match p {
        None => None,
        Some(path) => if !absolute(path) {
            invalid(name + " path must be absolute"@)
        } else if no_dir && h.facts(path).is_dir {
            invalid(name + " path is a directory"@)
        } else {
            parent_problem(name, path, h)
        },
    }
}

/// Whether two configured paths lead to the same file.
pub open spec fn overlap(a: Option<Seq<u8>>, b: Option<Seq<u8>>, h: HostView) -> bool {
    match (a, b) {
        (Some(x), Some(y)) => same_file(x, h.facts(x).canonical, y, h.facts(y).canonical),
        _ => false,
    }
}

/// What is wrong with two paths that must not be the same.
pub open spec fn overlap_problem(
    a_name: Seq<char>,
    a: Option<Seq<u8>>,
    b_name: Seq<char>,
    b: Option<Seq<u8>>,
    h: HostView,
) -> Option<ErrorView> {
    if overlap(a, b, h) {
        invalid(a_name + " and "@ + b_name + " must not be the same path"@)
    } else {
        None
    }
}

/// What is wrong with an environment entry.
pub open spec fn entry_problem(key: Seq<char>, value: Seq<char>) -> Option<ErrorView> {
    if key.len() == 0 {
        invalid("environment key must not be empty"@)
    } else if key.contains('=') {
        invalid("environment key must not contain '=': "@ + key)
    } else if key.contains('\0') {
        invalid("environment key must not contain a NUL byte: "@ + key)
    } else if value.contains('\0') {
        invalid("environment value must not contain a NUL byte: "@ + key)
    } else {
        None
    }
}

/// What is wrong with the first faulty environment entry.
pub open spec fn env_problem(env: Seq<(Seq<char>, Seq<char>)>) -> Option<ErrorView>
    decreases env.len(),
{
    if env.len() == 0 {
        None
    } else {
        first(entry_problem(env[0].0, env[0].1), env_problem(env.skip(1)))
    }
}

/// What is wrong with a switch of user or group.
pub open spec fn identity_problem(c: ConfigView, h: HostView) -> Option<ErrorView> {
    if c.switches_identity() && h.euid != 0 {
        Some(ErrorView::PermissionDenied("must be root to switch users or groups"@))
    } else {
        None
    }
}

/// What is wrong with the umask.
pub open spec fn umask_problem(umask: int) -> Option<ErrorView> {
    if umask > 0o7777 {
        invalid("umask out of range (max 7777)"@)
    } else {
        None
    }
}

/// What is wrong with a configuration on a host: the first complaint, in the
/// order in which the rules are checked.
pub open spec fn problem(c: ConfigView, h: HostView) -> Option<ErrorView> {
    first(
        path_bytes_problem(c),
        first(
            umask_problem(c.umask),
            first(
                chdir_problem(c.chdir, h),
                first(
                    files_problem(c, h),
                    first(
                        overlaps_problem(c, h),
                        first(env_problem(c.env), identity_problem(c, h)),
                    ),
                ),
            ),
        ),
    )
}

/// The first complaint about the bytes of the paths.
pub open spec fn path_bytes_problem(c: ConfigView) -> Option<ErrorView> {
    first(
        nul_problem("chdir"@, Some(c.chdir)),
        first(
            nul_problem("pidfile"@, c.pidfile),
            first(
                nul_problem("stdout"@, c.stdout),
                first(
                    nul_problem("stderr"@, c.stderr),
                    nul_problem("lockfile"@, c.effective_lockfile()),
                ),
            ),
        ),
    )
}

/// The first complaint about the files to be created.
pub open spec fn files_problem(c: ConfigView, h: HostView) -> Option<ErrorView> {
    first(
        file_problem("pidfile"@, c.pidfile, true, h),
        first(
            file_problem("stdout"@, c.stdout, false, h),
            first(
                file_problem("stderr"@, c.stderr, false, h),
                file_problem("lockfile"@, c.effective_lockfile(), false, h),
            ),
        ),
    )
}

/// The first complaint about paths that must not be the same.
pub open spec fn overlaps_problem(c: ConfigView, h: HostView) -> Option<ErrorView> {
    first(
        overlap_problem("lockfile"@, c.effective_lockfile(), "stdout"@, c.stdout, h),
        first(
            overlap_problem("lockfile"@, c.effective_lockfile(), "stderr"@, c.stderr, h),
            first(
                overlap_problem("pidfile"@, c.pidfile, "stdout"@, c.stdout, h),
                overlap_problem("pidfile"@, c.pidfile, "stderr"@, c.stderr, h),
            ),
        ),
    )
}

fn complain(text: String) -> (r: Option<DaemonizeError>)
    ensures
        opt_error(r) == invalid(text@),
{
    Some(DaemonizeError::ValidationError(text))
}

fn check_nul(name: &str, p: Option<&UnixPath>) -> (r: Option<DaemonizeError>)
    ensures
        opt_error(r) == nul_problem(
            name@,
            match p {
                Some(q) => Some(q@),
                None => None,
            },
        ),
{
    match p {
        Some(path) => if path.has_nul() {
            complain(cat(name, " path contains NUL byte"))
        } else {
            None
        },
        None => None,
    }
}

/// Asks that a path is absolute.
pub fn validate_absolute(path: &UnixPath, name: &str) -> (r: Result<(), DaemonizeError>)
    ensures
        r is Ok <==> absolute(path@),
        r matches Err(e) ==> invalid(name@ + " path must be absolute"@) == Some(e@),
{
    if path.is_absolute() {
        Ok(())
    } else {
        Err(DaemonizeError::ValidationError(cat(name, " path must be absolute")))
    }
}

/// Asks that a file can be created in the directory it belongs to.
pub fn validate_parent_writable(path: &UnixPath, name: &str, host: &HostFacts) -> (r: Result<
    (),
    DaemonizeError,
>)
    ensures
        r is Ok <==> parent_problem(name@, path@, host@) is None,
        r matches Err(e) ==> parent_problem(name@, path@, host@) == Some(e@),
{
    match path.parent() {
        None => Err(DaemonizeError::ValidationError(cat(name, " path has no parent directory"))),
        Some(dir) => if !host.is_present(&dir) {
            Err(DaemonizeError::ValidationError(cat(name, " parent directory does not exist")))
        } else if !host.writable(&dir) {
            Err(DaemonizeError::ValidationError(cat(name, " parent directory is not writable")))
        } else {
            Ok(())
        },
    }
}

fn check_file(name: &str, p: Option<&UnixPath>, no_dir: bool, host: &HostFacts) -> (r: Option<
    DaemonizeError,
>)
    ensures
        opt_error(r) == file_problem(
            name@,
            match p {
                Some(q) => Some(q@),
                None => None,
            },
            no_dir,
            host@,
        ),
{
    match p {
        None => None,
        Some(path) => {
            match validate_absolute(path, name) {
                Err(e) => return Some(e),
                Ok(()) => {},
            }
            if no_dir && host.is_dir(path) {
                return complain(cat(name, " path is a directory"));
            }
            match validate_parent_writable(path, name, host) {
                Err(e) => Some(e),
                Ok(()) => None,
            }
        },
    }
}

fn check_overlap(
    a_name: &str,
    a: Option<&UnixPath>,
    b_name: &str,
    b: Option<&UnixPath>,
    host: &HostFacts,
) -> (r: Option<DaemonizeError>)
    ensures
        opt_error(r) == overlap_problem(
            a_name@,
            match a {
                Some(q) => Some(q@),
                None => None,
            },
            b_name@,
            match b {
                Some(q) => Some(q@),
                None => None,
            },
            host@,
        ),
{
    match (a, b) {
        (Some(x), Some(y)) => if paths_same(x, &host.canonical(x), y, &host.canonical(y)) {
            complain(cat4(a_name, " and ", b_name, " must not be the same path"))
        } else {
            None
        },
        _ => None,
    }
}

fn check_entry(key: &String, value: &String) -> (r: Option<DaemonizeError>)
    ensures
        opt_error(r) == entry_problem(key@, value@),
{
    if key.as_str().is_empty() {
        complain("environment key must not be empty".to_owned())
    } else if contains_char(key.as_str(), '=') {
        complain(cat("environment key must not contain '=': ", key.as_str()))
    } else if contains_char(key.as_str(), '\0') {
        complain(cat("environment key must not contain a NUL byte: ", key.as_str()))
    } else if contains_char(value.as_str(), '\0') {
        complain(cat("environment value must not contain a NUL byte: ", key.as_str()))
    } else {
        None
    }
}

fn check_env(env: &Vec<(String, String)>) -> (r: Option<DaemonizeError>)
    ensures
        opt_error(r) == env_problem(env_view(env@)),
{
    let mut i: usize = 0;
    let ghost all = env_view(env@);
    assert(all.skip(0) =~= all);
    while i < env.len()
        invariant
            i <= env@.len(),
            all == env_view(env@),
            env_problem(all) == env_problem(all.skip(i as int)),
        decreases env@.len() - i,
    {
        assert(all.skip(i as int)[0] == (env@[i as int].0@, env@[i as int].1@));
        assert(all.skip(i as int).skip(1) =~= all.skip(i + 1));
        let found = check_entry(&env[i].0, &env[i].1);
        if found.is_some() {
            return found;
        }
        i = i + 1;
    }
    None
}

impl DaemonConfig {
    fn check_path_bytes(&self) -> (r: Option<DaemonizeError>)
        ensures
            opt_error(r) == path_bytes_problem(self@),
    {
        let found = check_nul("chdir", Some(&self.chdir));
        if found.is_some() {
            return found;
        }
        let found = check_nul("pidfile", self.pidfile.as_ref());
        if found.is_some() {
            return found;
        }
        let found = check_nul("stdout", self.stdout.as_ref());
        if found.is_some() {
            return found;
        }
        let found = check_nul("stderr", self.stderr.as_ref());
        if found.is_some() {
            return found;
        }
        check_nul("lockfile", self.effective_lockfile())
    }

    fn check_chdir(&self, host: &HostFacts) -> (r: Option<DaemonizeError>)
        ensures
            opt_error(r) == chdir_problem(self@.chdir, host@),
    {
        if !self.chdir.is_absolute() {
            complain("chdir path must be absolute".to_owned())
        } else if !host.is_present(&self.chdir) {
            complain("chdir path does not exist".to_owned())
        } else if !host.is_dir(&self.chdir) {
            complain("chdir path is not a directory".to_owned())
        } else {
            None
        }
    }

    fn check_files(&self, host: &HostFacts) -> (r: Option<DaemonizeError>)
        ensures
            opt_error(r) == files_problem(self@, host@),
    {
        let found = check_file("pidfile", self.pidfile.as_ref(), true, host);
        if found.is_some() {
            return found;
        }
        let found = check_file("stdout", self.stdout.as_ref(), false, host);
        if found.is_some() {
            return found;
        }
        let found = check_file("stderr", self.stderr.as_ref(), false, host);
        if found.is_some() {
            return found;
        }
        check_file("lockfile", self.effective_lockfile(), false, host)
    }

    fn check_overlaps(&self, host: &HostFacts) -> (r: Option<DaemonizeError>)
        ensures
            opt_error(r) == overlaps_problem(self@, host@),
    {
        let lockfile = self.effective_lockfile();
        let pidfile = self.pidfile.as_ref();
        let stdout = self.stdout.as_ref();
        let stderr = self.stderr.as_ref();
        let found = check_overlap("lockfile", lockfile, "stdout", stdout, host);
        if found.is_some() {
            return found;
        }
        let found = check_overlap("lockfile", lockfile, "stderr", stderr, host);
        if found.is_some() {
            return found;
        }
        let found = check_overlap("pidfile", pidfile, "stdout", stdout, host);
        if found.is_some() {
            return found;
        }
        check_overlap("pidfile", pidfile, "stderr", stderr, host)
    }

    fn find_problem(&self, host: &HostFacts) -> (r: Option<DaemonizeError>)
        ensures
            opt_error(r) == problem(self@, host@),
    {
        let found = self.check_path_bytes();
        if found.is_some() {
            return found;
        }
        if self.umask > 0o7777 {
            return complain("umask out of range (max 7777)".to_owned());
        }
        let found = self.check_chdir(host);
        if found.is_some() {
            return found;
        }
        let found = self.check_files(host);
        if found.is_some() {
            return found;
        }
        let found = self.check_overlaps(host);
        if found.is_some() {
            return found;
        }
        let found = check_env(&self.env);
        if found.is_some() {
            return found;
        }
        if self.switches_identity() && host.euid != 0 {
            Some(
                DaemonizeError::PermissionDenied(
                    "must be root to switch users or groups".to_owned(),
                ),
            )
        } else {
            None
        }
    }

    /// Validates the configuration against what was observed of the host. The
    /// observations needed are those of [`paths_to_observe`](DaemonConfig::paths_to_observe)
    /// and the effective user id.
    #[must_use]
    pub fn validate(&self, host: &HostFacts) -> (r: Result<(), DaemonizeError>)
        ensures
            r is Ok <==> problem(self@, host@) is None,
            r matches Err(e) ==> problem(self@, host@) == Some(e@),
    {
        match self.find_problem(host) {
            Some(e) => Err(e),
            None => Ok(()),
        }
    }
}

// ---------------------------------------------------------------------------
// Observations
// ---------------------------------------------------------------------------

/// A configured file and the directory it belongs to.
pub open spec fn with_parent(p: Option<Seq<u8>>) -> Seq<Seq<u8>> {
    match p {
        None => Seq::empty(),
        Some(path) => match parent_path(path) {
            None => seq![path],
            Some(dir) => seq![path, dir],
        },
    }
}

/// The paths that validation asks about.
pub open spec fn observed_paths(c: ConfigView) -> Seq<Seq<u8>> {
    seq![c.chdir] + with_parent(c.pidfile) + with_parent(c.stdout) + with_parent(c.stderr)
        + with_parent(c.effective_lockfile())
}

fn push_with_parent(out: &mut Vec<UnixPath>, p: Option<&UnixPath>)
    ensures
        paths_view(final(out)@) == paths_view(old(out)@) + with_parent(
            match p {
                Some(q) => Some(q@),
                None => None,
            },
        ),
{
    let ghost before = out@;
    match p {
        None => {},
        Some(path) => {
            out.push(path.clone());
            match path.parent() {
                None => {},
                Some(dir) => out.push(dir),
            }
        },
    }
    assert(paths_view(out@) =~= paths_view(before) + with_parent(
        match p {
            Some(q) => Some(q@),
            None => None,
        },
    ));
}

impl DaemonConfig {
    /// The paths to observe before validating.
    pub fn paths_to_observe(&self) -> (r: Vec<UnixPath>)
        ensures
            paths_view(r@) == observed_paths(self@),
    {
        let mut out: Vec<UnixPath> = Vec::new();
        out.push(self.chdir.clone());
        assert(paths_view(out@) =~= seq![self.chdir@]);
        push_with_parent(&mut out, self.pidfile.as_ref());
        push_with_parent(&mut out, self.stdout.as_ref());
        push_with_parent(&mut out, self.stderr.as_ref());
        push_with_parent(&mut out, self.effective_lockfile());
        out
    }
}

// ---------------------------------------------------------------------------
// Laws
// ---------------------------------------------------------------------------

/// A file can be created at `p`.
pub open spec fn creatable(p: Seq<u8>, h: HostView) -> bool {
    &&& !p.contains(0u8)
    &&& absolute(p)
    &&& parent_path(p) matches Some(dir) && h.facts(dir).present && h.facts(dir).writable
}

/// A configuration that a daemon can be started with.
pub open spec fn valid(c: ConfigView, h: HostView) -> bool {
    &&& !c.chdir.contains(0u8)
    &&& absolute(c.chdir)
    &&& h.facts(c.chdir).present
    &&& h.facts(c.chdir).is_dir
    &&& c.umask <= 0o7777
    &&& c.pidfile matches Some(p) ==> creatable(p, h) && !h.facts(p).is_dir
    &&& c.stdout matches Some(p) ==> creatable(p, h)
    &&& c.stderr matches Some(p) ==> creatable(p, h)
    &&& c.effective_lockfile() matches Some(p) ==> creatable(p, h)
    &&& !overlap(c.effective_lockfile(), c.stdout, h)
    &&& !overlap(c.effective_lockfile(), c.stderr, h)
    &&& !overlap(c.pidfile, c.stdout, h)
    &&& !overlap(c.pidfile, c.stderr, h)
    &&& forall|i: int|
        0 <= i < c.env.len() ==> {
            let (key, value) = #[trigger] c.env[i];
            &&& key.len() > 0
            &&& !key.contains('=')
            &&& !key.contains('\0')
            &&& !value.contains('\0')
        }
    &&& c.switches_identity() ==> h.euid == 0
}

proof fn lemma_env_problem(env: Seq<(Seq<char>, Seq<char>)>)
    ensures
        env_problem(env) is None <==> forall|i: int|
            0 <= i < env.len() ==> entry_problem((#[trigger] env[i]).0, env[i].1) is None,
    decreases env.len(),
{
    if env.len() > 0 {
        let rest = env.skip(1);
        lemma_env_problem(rest);
        if env_problem(env) is None {
            assert forall|i: int| 0 <= i < env.len() implies entry_problem(
                (#[trigger] env[i]).0,
                env[i].1,
            ) is None by {
                if i > 0 {
                    assert(env[i] == rest[i - 1]);
                }
            }
        } else if entry_problem(env[0].0, env[0].1) is None {
            let j = choose|j: int|
                0 <= j < rest.len() && entry_problem((#[trigger] rest[j]).0, rest[j].1) is Some;
            assert(env[j + 1] == rest[j]);
        }
    }
}

/// Validation accepts exactly the valid configurations.
pub proof fn validation_accepts_exactly_the_valid(c: ConfigView, h: HostView)
    ensures
        problem(c, h) is None <==> valid(c, h),
{
    lemma_env_problem(c.env);
    if valid(c, h) {
        assert forall|i: int| 0 <= i < c.env.len() implies entry_problem(
            (#[trigger] c.env[i]).0,
            c.env[i].1,
        ) is None by {}
    } else if problem(c, h) is None {
        assert forall|i: int| 0 <= i < c.env.len() implies {
            let (key, value) = #[trigger] c.env[i];
            &&& key.len() > 0
            &&& !key.contains('=')
            &&& !key.contains('\0')
            &&& !value.contains('\0')
        } by {
            assert(entry_problem(c.env[i].0, c.env[i].1) is None);
        }
    }
}

/// Validation fails with a permission error exactly if a caller who is not root
/// asks for another user or group and nothing else is wrong; every other complaint
/// is a validation error.
pub proof fn validation_error_kinds(c: ConfigView, h: HostView)
    ensures
        problem(c, h) matches Some(e) ==> e is ValidationError || e is PermissionDenied,
        (problem(c, h) matches Some(e) && e is PermissionDenied) <==> c.switches_identity() && h.euid
            != 0 && valid(c, HostView { euid: 0, ..h }),
{
    let root = HostView { euid: 0, ..h };
    lemma_env_error(c.env);
    validation_accepts_exactly_the_valid(c, root);
    assert(forall|p: Seq<u8>| h.facts(p) == root.facts(p));
}

proof fn lemma_env_error(env: Seq<(Seq<char>, Seq<char>)>)
    ensures
        env_problem(env) matches Some(e) ==> e is ValidationError,
    decreases env.len(),
{
    if env.len() > 0 {
        lemma_env_error(env.skip(1));
    }
}

/// Validation looks at nothing but the effective user id and the paths to be
/// observed.
pub proof fn validation_depends_on_observations_only(c: ConfigView, g: HostView, h: HostView)
    requires
        g.euid == h.euid,
        forall|i: int|
            0 <= i < observed_paths(c).len() ==> g.facts(#[trigger] observed_paths(c)[i]) == h.facts(
                observed_paths(c)[i],
            ),
    ensures
        problem(c, g) == problem(c, h),
{
    let all = observed_paths(c);
    let a = seq![c.chdir];
    let b = a + with_parent(c.pidfile);
    let d = b + with_parent(c.stdout);
    let e = d + with_parent(c.stderr);
    assert(all[0] == c.chdir);
    lemma_observed(all, a, c.pidfile, with_parent(c.stdout) + with_parent(c.stderr) + with_parent(
        c.effective_lockfile(),
    ), g, h);
    lemma_observed(all, b, c.stdout, with_parent(c.stderr) + with_parent(c.effective_lockfile()), g, h);
    lemma_observed(all, d, c.stderr, with_parent(c.effective_lockfile()), g, h);
    lemma_observed(all, e, c.effective_lockfile(), Seq::empty(), g, h);
}

proof fn lemma_observed(
    all: Seq<Seq<u8>>,
    before: Seq<Seq<u8>>,
    p: Option<Seq<u8>>,
    after: Seq<Seq<u8>>,
    g: HostView,
    h: HostView,
)
    requires
        all =~= before + with_parent(p) + after,
        forall|i: int| 0 <= i < all.len() ==> g.facts(#[trigger] all[i]) == h.facts(all[i]),
    ensures
        p matches Some(path) ==> g.facts(path) == h.facts(path),
        p matches Some(path) ==> (parent_path(path) matches Some(dir) ==> g.facts(dir) == h.facts(
            dir,
        )),
{
    if let Some(path) = p {
        assert(all[before.len() as int] == path);
        if let Some(dir) = parent_path(path) {
            assert(all[before.len() as int + 1] == dir);
        }
    }
}

/// The lockfile may be named explicitly as the pidfile: that is neither more nor
/// less valid than locking the pidfile by default.
pub proof fn lockfile_may_equal_pidfile(c: ConfigView, p: Seq<u8>, h: HostView)
    ensures
        problem(
            ConfigView { pidfile: Some(p), lockfile: LockfileView::Explicit(p), ..c },
            h,
        ) == problem(ConfigView { pidfile: Some(p), lockfile: LockfileView::Derive, ..c }, h),
{
}

/// Whether a path that may be there holds a NUL.
pub open spec fn holds_nul(p: Option<Seq<u8>>) -> bool {
    p is Some && p->0.contains(0u8)
}

/// What is said of a file that cannot be made at `p`.
pub open spec fn file_fault(name: Seq<char>, p: Option<Seq<u8>>, h: HostView) -> Option<Seq<char>> {
    if p is None {
        None
    } else if p->0.len() == 0 || p->0[0] != 47u8 {
        Some(name + " path must be absolute"@)
    } else if name == "pidfile"@ && h.facts(p->0).is_dir {
        Some(name + " path is a directory"@)
    } else if parent_path(p->0) is None {
        Some(name + " path has no parent directory"@)
    } else if !h.facts(parent_path(p->0)->0).present {
        Some(name + " parent directory does not exist"@)
    } else if !h.facts(parent_path(p->0)->0).writable {
        Some(name + " parent directory is not writable"@)
    } else {
        None
    }
}

/// Whether two files that may be there are the same one.
pub open spec fn are_same(a: Option<Seq<u8>>, b: Option<Seq<u8>>, h: HostView) -> bool {
    a is Some && b is Some && (if h.facts(a->0).canonical is Some && h.facts(b->0).canonical is Some {
        h.facts(a->0).canonical == h.facts(b->0).canonical
    } else {
        a == b
    })
}

/// The first fault of a configuration apart from its environment and identity: in the
/// bytes of its paths, its umask, its working directory, its files one after the other,
/// and files that must not be the same.
pub open spec fn first_fault(c: ConfigView, h: HostView) -> Option<Seq<char>> {
    let lockfile = match c.lockfile {
        LockfileView::Explicit(p) => Some(p),
        LockfileView::Derive => c.pidfile,
        LockfileView::Disabled => None,
    };
    if c.chdir.contains(0u8) {
        Some("chdir"@ + " path contains NUL byte"@)
    } else if holds_nul(c.pidfile) {
        Some("pidfile"@ + " path contains NUL byte"@)
    } else if holds_nul(c.stdout) {
        Some("stdout"@ + " path contains NUL byte"@)
    } else if holds_nul(c.stderr) {
        Some("stderr"@ + " path contains NUL byte"@)
    } else if holds_nul(lockfile) {
        Some("lockfile"@ + " path contains NUL byte"@)
    } else if c.umask > 0o7777 {
        Some("umask out of range (max 7777)"@)
    } else if c.chdir.len() == 0 || c.chdir[0] != 47u8 {
        Some("chdir path must be absolute"@)
    } else if !h.facts(c.chdir).present {
        Some("chdir path does not exist"@)
    } else if !h.facts(c.chdir).is_dir {
        Some("chdir path is not a directory"@)
    } else if file_fault("pidfile"@, c.pidfile, h) is Some {
        file_fault("pidfile"@, c.pidfile, h)
    } else if file_fault("stdout"@, c.stdout, h) is Some {
        file_fault("stdout"@, c.stdout, h)
    } else if file_fault("stderr"@, c.stderr, h) is Some {
        file_fault("stderr"@, c.stderr, h)
    } else if file_fault("lockfile"@, lockfile, h) is Some {
        file_fault("lockfile"@, lockfile, h)
    } else if are_same(lockfile, c.stdout, h) {
        Some("lockfile"@ + " and "@ + "stdout"@ + " must not be the same path"@)
    } else if are_same(lockfile, c.stderr, h) {
        Some("lockfile"@ + " and "@ + "stderr"@ + " must not be the same path"@)
    } else if are_same(c.pidfile, c.stdout, h) {
        Some("pidfile"@ + " and "@ + "stdout"@ + " must not be the same path"@)
    } else if are_same(c.pidfile, c.stderr, h) {
        Some("pidfile"@ + " and "@ + "stderr"@ + " must not be the same path"@)
    } else {
        None
    }
}

/// Whether an environment entry can be set.
pub open spec fn can_be_set(entry: (Seq<char>, Seq<char>)) -> bool {
    &&& entry.0.len() > 0
    &&& !entry.0.contains('=')
    &&& !entry.0.contains('\0')
    &&& !entry.1.contains('\0')
}

proof fn lemma_first_entry(env: Seq<(Seq<char>, Seq<char>)>, i: int)
    requires
        0 <= i < env.len(),
        forall|j: int| 0 <= j < i ==> can_be_set(#[trigger] env[j]),
    ensures
        !can_be_set(env[i]) ==> env_problem(env) == entry_problem(env[i].0, env[i].1),
    decreases i,
{
    if i > 0 {
        let rest = env.skip(1);
        assert(can_be_set(env[0]));
        assert forall|j: int| 0 <= j < i - 1 implies can_be_set(#[trigger] rest[j]) by {
            assert(rest[j] == env[j + 1]);
        }
        lemma_first_entry(rest, i - 1);
        assert(rest[i - 1] == env[i]);
    }
}

/// The directory that a file is to be made in has to be there and to be writable, whatever
/// the file is for.
pub proof fn what_is_asked_of_a_directory(name: Seq<char>, p: Seq<u8>, h: HostView)
    ensures
        parent_problem(name, p, h) == (match parent_path(p) {
            None => Some(ErrorView::ValidationError(name + " path has no parent directory"@)),
            Some(dir) => if !h.facts(dir).present {
                Some(ErrorView::ValidationError(name + " parent directory does not exist"@))
            } else if !h.facts(dir).writable {
                Some(ErrorView::ValidationError(name + " parent directory is not writable"@))
            } else {
                None
            },
        }),
        invalid(name) == Some(ErrorView::ValidationError(name)),
{
}

/// The complaint about a configuration is its first fault, in words that say which
/// setting is at fault and how.
pub proof fn the_first_fault_is_named(c: ConfigView, h: HostView)
    requires
        first_fault(c, h) is Some,
    ensures
        problem(c, h) == Some(ErrorView::ValidationError(first_fault(c, h)->0)),
{
    lemma_name_of_pidfile();
}

proof fn lemma_name_of_pidfile()
    ensures
        "stdout"@ != "pidfile"@,
        "stderr"@ != "pidfile"@,
        "lockfile"@ != "pidfile"@,
{
    reveal_strlit("pidfile");
    reveal_strlit("stdout");
    reveal_strlit("stderr");
    reveal_strlit("lockfile");
    assert("stdout"@[0] == 's');
    assert("stderr"@[0] == 's');
    assert("lockfile"@[0] == 'l');
    assert("pidfile"@[0] == 'p');
}

/// Where nothing else is at fault, the complaint is about the first environment entry
/// that cannot be set; and where there is none, about a user or group that is asked for
/// by a caller who is not root; and where that is not so either, there is none.
pub proof fn then_the_environment_and_the_identity(c: ConfigView, h: HostView, i: int)
    requires
        first_fault(c, h) is None,
    ensures
        0 <= i < c.env.len() && (forall|j: int| 0 <= j < i ==> can_be_set(#[trigger] c.env[j]))
            && !can_be_set(c.env[i]) ==> problem(c, h) == Some(
            ErrorView::ValidationError(
                if c.env[i].0.len() == 0 {
                    "environment key must not be empty"@
                } else if c.env[i].0.contains('=') {
                    "environment key must not contain '=': "@ + c.env[i].0
                } else if c.env[i].0.contains('\0') {
                    "environment key must not contain a NUL byte: "@ + c.env[i].0
                } else {
                    "environment value must not contain a NUL byte: "@ + c.env[i].0
                },
            ),
        ),
        (forall|j: int| 0 <= j < c.env.len() ==> can_be_set(#[trigger] c.env[j])) ==> problem(c, h)
            == (if (c.user is Some || c.group is Some) && h.euid != 0 {
            Some(ErrorView::PermissionDenied("must be root to switch users or groups"@))
        } else {
            None
        }),
{
    lemma_name_of_pidfile();
    lemma_env_problem(c.env);
    if 0 <= i < c.env.len() && (forall|j: int| 0 <= j < i ==> can_be_set(#[trigger] c.env[j])) {
        lemma_first_entry(c.env, i);
    }
    if forall|j: int| 0 <= j < c.env.len() ==> can_be_set(#[trigger] c.env[j]) {
        assert forall|j: int| 0 <= j < c.env.len() implies entry_problem(
            (#[trigger] c.env[j]).0,
            c.env[j].1,
        ) is None by {
            assert(can_be_set(c.env[j]));
        }
    }
}

/// What is asked for before validating is told of every path that matters: the working
/// directory, and each file with the directory it belongs to.
pub proof fn every_path_that_matters_is_observed(c: ConfigView, p: Seq<u8>)
    ensures
        observed_paths(c).contains(c.chdir),
        c.pidfile == Some(p) || c.stdout == Some(p) || c.stderr == Some(p) || c.lockfile
            == LockfileView::Explicit(p) ==> observed_paths(c).contains(p) && (parent_path(p) matches
            Some(dir) ==> observed_paths(c).contains(dir)),
{
    let all = observed_paths(c);
    let n1: int = 1;
    let n2 = n1 + with_parent(c.pidfile).len();
    let n3 = n2 + with_parent(c.stdout).len();
    let n4 = n3 + with_parent(c.stderr).len();
    assert(all[0] == c.chdir);
    let at = if c.pidfile == Some(p) {
        n1
    } else if c.stdout == Some(p) {
        n2
    } else if c.stderr == Some(p) {
        n3
    } else {
        n4
    };
    if c.pidfile == Some(p) || c.stdout == Some(p) || c.stderr == Some(p) || c.lockfile
        == LockfileView::Explicit(p) {
        assert(all[at] == p);
        if let Some(dir) = parent_path(p) {
            assert(all[at + 1] == dir);
        }
    }
}

} // verus!
