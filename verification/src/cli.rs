//! What the `daemonize` command makes of its arguments.

use vstd::prelude::*;
use vstd::utf8::*;
use crate::config::{default_config, env_view, ConfigView, DaemonConfig, LockfileView};
use crate::errno::{ErrnoKind, OsFailure};
use crate::error::{DaemonizeError, ErrorView};
use crate::path::{clone_opt, extension, opt_bytes, replace_extension, utf8_lossy, UnixPath};
use crate::text::{
    cat, cat4, chars_of, clone_text, contains_char, find_char, numeral, numeral_of, opt_text,
    parse_unsigned, read_unsigned, string_of, texts,
};

verus! {

/// The arguments of the command.
#[derive(Debug)]
pub struct CliArgs {
    pub pidfile: Option<UnixPath>,
    pub chdir: Option<UnixPath>,
    pub umask: Option<u32>,
    pub stdout: Option<UnixPath>,
    pub stderr: Option<UnixPath>,
    pub append: bool,
    pub lockfile: Option<UnixPath>,
    pub no_lock: bool,
    pub env: Vec<String>,
    pub user: Option<String>,
    pub group: Option<String>,
    pub foreground: bool,
    pub verbose: bool,
    /// The program to run and its arguments.
    pub program: Vec<String>,
}

/// [`CliArgs`] as a mathematical value.
pub struct ArgsView {
    pub pidfile: Option<Seq<u8>>,
    pub chdir: Option<Seq<u8>>,
    pub umask: Option<u32>,
    pub stdout: Option<Seq<u8>>,
    pub stderr: Option<Seq<u8>>,
    pub append: bool,
    pub lockfile: Option<Seq<u8>>,
    pub no_lock: bool,
    pub env: Seq<Seq<char>>,
    pub user: Option<Seq<char>>,
    pub group: Option<Seq<char>>,
    pub foreground: bool,
    pub verbose: bool,
    pub program: Seq<Seq<char>>,
}

impl View for CliArgs {
    type V = ArgsView;

    open spec fn view(&self) -> ArgsView {
        ArgsView {
            pidfile: opt_bytes(self.pidfile),
            chdir: opt_bytes(self.chdir),
            umask: self.umask,
            stdout: opt_bytes(self.stdout),
            stderr: opt_bytes(self.stderr),
            append: self.append,
            lockfile: opt_bytes(self.lockfile),
            no_lock: self.no_lock,
            env: texts(self.env@),
            user: opt_text(self.user),
            group: opt_text(self.group),
            foreground: self.foreground,
            verbose: self.verbose,
            program: texts(self.program@),
        }
    }
}

// ---------------------------------------------------------------------------
// Single arguments
// ---------------------------------------------------------------------------

/// What a umask argument means: an octal number of at most `7777`.
pub open spec fn octal_mode(s: Seq<char>) -> Result<nat, Seq<char>> {
    match read_unsigned(s, 8, u32::MAX as nat) {
        Err(e) => Err("invalid octal umask: "@ + e.message()),
        Ok(bits) => if bits > 0o7777 {
            Err("umask out of range (max 7777): "@ + s)
        } else {
            Ok(bits)
        },
    }
}

/// Parses a umask argument.
pub fn parse_octal_mode(s: &str) -> (r: Result<u32, String>)
    ensures
        match r {
            Ok(bits) => octal_mode(s@) == Ok::<nat, Seq<char>>(bits as nat),
            Err(m) => octal_mode(s@) == Err::<nat, Seq<char>>(m@),
        },
{
    match parse_unsigned(s, 8, u32::MAX as u64) {
        Err(e) => Err(cat("invalid octal umask: ", e.to_text())),
        Ok(bits) => if bits > 0o7777 {
            Err(cat("umask out of range (max 7777): ", s))
        } else {
            Ok(bits as u32)
        },
    }
}

/// What an environment argument means: what stands before the first `=` and what
/// stands after it. Without one the value is empty.
pub open spec fn env_pair(s: Seq<char>) -> (Seq<char>, Seq<char>)
    decreases s.len(),
{
    if s.len() == 0 {
        (s, s)
    } else if s[0] == '=' {
        (Seq::empty(), s.skip(1))
    } else {
        let rest = env_pair(s.skip(1));
        (seq![s[0]] + rest.0, rest.1)
    }
}

proof fn lemma_env_pair_at(s: Seq<char>, i: int)
    requires
        0 <= i < s.len(),
        s[i] == '=',
        !s.take(i).contains('='),
    ensures
        env_pair(s) == (s.take(i), s.skip(i + 1)),
    decreases i,
{
    if i == 0 {
        assert(s.take(0) =~= Seq::<char>::empty());
    } else {
        let rest = s.skip(1);
        assert(s.take(i)[0] == s[0]);
        let before = rest.take(i - 1);
        assert(!before.contains('=')) by {
            if before.contains('=') {
                let j = choose|j: int| 0 <= j < before.len() && before[j] == '=';
                assert(s.take(i)[j + 1] == '=');
            }
        }
        lemma_env_pair_at(rest, i - 1);
        assert(seq![s[0]] + rest.take(i - 1) =~= s.take(i));
        assert(rest.skip(i) =~= s.skip(i + 1));
    }
}

proof fn lemma_env_pair_none(s: Seq<char>)
    requires
        !s.contains('='),
    ensures
        env_pair(s) == (s, Seq::<char>::empty()),
    decreases s.len(),
{
    if s.len() == 0 {
        assert(s =~= Seq::<char>::empty());
    } else {
        assert(s.contains(s[0]));
        let rest = s.skip(1);
        assert(!rest.contains('=')) by {
            if rest.contains('=') {
                let j = choose|j: int| 0 <= j < rest.len() && rest[j] == '=';
                assert(s[j + 1] == '=');
            }
        }
        lemma_env_pair_none(rest);
        assert(seq![s[0]] + rest =~= s);
    }
}

/// Splitting undoes joining: a key without `=` and any value come apart as they
/// were put together, and a key alone has the empty value.
pub proof fn env_pair_splits_what_was_joined(key: Seq<char>, value: Seq<char>)
    requires
        !key.contains('='),
    ensures
        env_pair(key + seq!['='] + value) == (key, value),
        env_pair(key) == (key, Seq::<char>::empty()),
{
    let joined = key + seq!['='] + value;
    assert(joined.take(key.len() as int) =~= key);
    assert(joined.skip(key.len() as int + 1) =~= value);
    lemma_env_pair_at(joined, key.len() as int);
    lemma_env_pair_none(key);
}

/// Splits an environment argument at its first `=`.
pub fn parse_env_pair(s: &str) -> (r: (String, String))
    ensures
        (r.0@, r.1@) == env_pair(s@),
{
    let chars = chars_of(s);
    let len: usize = chars.len();
    match find_char(&chars, '=') {
        Some(i) => {
            proof {
                lemma_env_pair_at(s@, i as int);
                assert(s@.take(i as int) =~= s@.subrange(0, i as int));
                assert(s@.skip(i + 1) =~= s@.subrange(i + 1, s@.len() as int));
            }
            (string_of(&chars, 0, i), string_of(&chars, i + 1, len))
        },
        None => {
            proof {
                lemma_env_pair_none(s@);
            }
            (s.to_owned(), String::new())
        },
    }
}

/// The file for stderr that goes with a file for stdout: the extension `.stdout`
/// becomes `.stderr`, `.out` becomes `.err`, and otherwise the file is shared.
pub open spec fn derived_stderr(stdout: Seq<u8>) -> Seq<u8> {
    if extension(stdout) == Some(encode_utf8("stdout"@)) {
        replace_extension(stdout, encode_utf8("stderr"@))
    } else if extension(stdout) == Some(encode_utf8("out"@)) {
        replace_extension(stdout, encode_utf8("err"@))
    } else {
        stdout
    }
}

/// Derives the file for stderr from the file for stdout.
pub fn derive_stderr_path(stdout: &UnixPath) -> (r: UnixPath)
    ensures
        r@ == derived_stderr(stdout@),
{
    match stdout.swap_extension("stdout", "stderr") {
        Some(p) => p,
        None => match stdout.swap_extension("out", "err") {
            Some(p) => p,
            None => stdout.clone(),
        },
    }
}

// ---------------------------------------------------------------------------
// The configuration
// ---------------------------------------------------------------------------

impl ArgsView {
    /// The file for stderr: the given one, or one derived from stdout's.
    pub open spec fn effective_stderr(self) -> Option<Seq<u8>> {
        match self.stderr {
            Some(p) => Some(p),
            None => match self.stdout {
                Some(p) => Some(derived_stderr(p)),
                None => None,
            },
        }
    }

    /// The file that will be locked.
    pub open spec fn effective_lockfile(self) -> Option<Seq<u8>> {
        if self.no_lock {
            None
        } else if self.lockfile is Some {
            self.lockfile
        } else {
            self.pidfile
        }
    }

    /// The configuration that the arguments ask for.
    pub open spec fn config(self) -> ConfigView {
        ConfigView {
            pidfile: self.pidfile,
            chdir: match self.chdir {
                Some(p) => p,
                None => default_config().chdir,
            },
            umask: match self.umask {
                Some(m) => m as int,
                None => default_config().umask,
            },
            stdout: self.stdout,
            stderr: self.effective_stderr(),
            append: self.append,
            lockfile: if self.no_lock {
                LockfileView::Disabled
            } else {
                match self.lockfile {
                    Some(p) => LockfileView::Explicit(p),
                    None => LockfileView::Derive,
                }
            },
            user: self.user,
            group: self.group,
            foreground: self.foreground,
            env: Seq::new(self.env.len(), |i: int| env_pair(self.env[i])),
            ..default_config()
        }
    }
}

impl CliArgs {
    /// The file for stderr: the given one, or one derived from stdout's.
    pub fn effective_stderr(&self) -> (r: Option<UnixPath>)
        ensures
            opt_bytes(r) == self@.effective_stderr(),
    {
        match &self.stderr {
            Some(p) => Some(p.clone()),
            None => match &self.stdout {
                Some(p) => Some(derive_stderr_path(p)),
                None => None,
            },
        }
    }

    fn env_entries(&self) -> (r: Vec<(String, String)>)
        ensures
            env_view(r@) == self@.config().env,
    {
        let mut out: Vec<(String, String)> = Vec::new();
        let mut i: usize = 0;
        while i < self.env.len()
            invariant
                i <= self.env@.len(),
                out@.len() == i,
                forall|j: int|
                    0 <= j < i ==> ((#[trigger] out@[j]).0@, out@[j].1@) == env_pair(self.env@[j]@),
            decreases self.env@.len() - i,
        {
            out.push(parse_env_pair(self.env[i].as_str()));
            i = i + 1;
        }
        assert(env_view(out@) =~= self@.config().env);
        out
    }

    /// The configuration that the arguments ask for.
    pub fn to_config(&self) -> (r: DaemonConfig)
        ensures
            r@ == self@.config(),
    {
        let mut config = DaemonConfig::new();
        match &self.chdir {
            Some(p) => {
                config.chdir(p);
            },
            None => {},
        }
        match self.umask {
            Some(m) => {
                config.umask(m);
            },
            None => {},
        }
        if self.no_lock {
            config.no_lockfile();
        } else {
            match &self.lockfile {
                Some(p) => {
                    config.lockfile(p);
                },
                None => {},
            }
        }
        config.append(self.append);
        config.foreground(self.foreground);
        config.pidfile = clone_opt(&self.pidfile);
        config.stdout = clone_opt(&self.stdout);
        config.stderr = self.effective_stderr();
        config.user = clone_text(&self.user);
        config.group = clone_text(&self.group);
        config.env = self.env_entries();
        config
    }
}

/// What the command says it will lock is what the library locks.
pub proof fn shown_lockfile_is_the_effective_one(a: ArgsView)
    ensures
        a.effective_lockfile() == a.config().effective_lockfile(),
{
}

// ---------------------------------------------------------------------------
// Diagnostics
// ---------------------------------------------------------------------------

/// A line of diagnostics, if there is something to show.
pub open spec fn shown(label: Seq<char>, value: Option<Seq<char>>) -> Seq<Seq<char>> {
    match value {
        Some(v) => seq![label + v],
        None => Seq::empty(),
    }
}

/// A path to be shown.
pub open spec fn shown_path(p: Option<Seq<u8>>) -> Option<Seq<char>> {
    match p {
        Some(path) => Some(utf8_lossy(path)),
        None => None,
    }
}

/// A flag to be shown if it is set.
pub open spec fn shown_flag(flag: bool) -> Option<Seq<char>> {
    if flag {
        Some("true"@)
    } else {
        None
    }
}

/// A umask in octal, with at least three digits.
pub open spec fn padded_octal(m: nat) -> Seq<char> {
    let digits = numeral(m, 8);
    if digits.len() == 1 {
        "00"@ + digits
    } else if digits.len() == 2 {
        "0"@ + digits
    } else {
        digits
    }
}

/// The environment arguments to be shown.
pub open spec fn shown_env(env: Seq<Seq<char>>) -> Seq<Seq<char>> {
    Seq::new(env.len(), |i: int| "daemonize: env="@ + env[i])
}

/// What is printed before daemonizing if diagnostics are asked for.
pub open spec fn diagnostics(a: ArgsView, program: Seq<char>) -> Seq<Seq<char>> {
    if !a.verbose {
        Seq::empty()
    } else {
        shown("daemonize: program="@, Some(program)) + shown(
            "daemonize: pidfile="@,
            shown_path(a.pidfile),
        ) + shown("daemonize: lockfile="@, shown_path(a.effective_lockfile())) + shown(
            "daemonize: chdir="@,
            shown_path(a.chdir),
        ) + shown(
            "daemonize: umask="@,
            match a.umask {
                Some(m) => Some(padded_octal(m as nat)),
                None => None,
            },
        ) + shown("daemonize: stdout="@, shown_path(a.stdout)) + shown(
            "daemonize: stderr="@,
            shown_path(a.effective_stderr()),
        ) + shown("daemonize: append="@, shown_flag(a.append)) + shown("daemonize: user="@, a.user)
            + shown("daemonize: group="@, a.group) + shown(
            "daemonize: foreground="@,
            shown_flag(a.foreground),
        ) + shown_env(a.env)
    }
}

fn push_shown(out: &mut Vec<String>, label: &str, value: Option<String>)
    ensures
        texts(final(out)@) == texts(old(out)@) + shown(label@, opt_text(value)),
{
    let ghost before = out@;
    match value {
        Some(v) => out.push(cat(label, v.as_str())),
        None => {},
    }
    assert(texts(out@) =~= texts(before) + shown(label@, opt_text(value)));
}

fn path_text(p: Option<&UnixPath>) -> (r: Option<String>)
    ensures
        opt_text(r) == shown_path(
            match p {
                Some(q) => Some(q@),
                None => None,
            },
        ),
{
    match p {
        Some(q) => Some(q.display()),
        None => None,
    }
}

fn flag_text(flag: bool) -> (r: Option<String>)
    ensures
        opt_text(r) == shown_flag(flag),
{
    if flag {
        Some("true".to_owned())
    } else {
        None
    }
}

fn octal_text(m: u32) -> (r: String)
    ensures
        r@ == padded_octal(m as nat),
{
    let digits = numeral_of(m as u64, 8);
    let len: usize = chars_of(digits.as_str()).len();
    if len == 1 {
        cat("00", digits.as_str())
    } else if len == 2 {
        cat("0", digits.as_str())
    } else {
        digits
    }
}

impl CliArgs {
    fn shown_lockfile(&self) -> (r: Option<String>)
        ensures
            opt_text(r) == shown_path(self@.effective_lockfile()),
    {
        if self.no_lock {
            None
        } else {
            match &self.lockfile {
                Some(p) => Some(p.display()),
                None => path_text(self.pidfile.as_ref()),
            }
        }
    }

    /// The lines to print before daemonizing.
    pub fn diagnostics(&self, program: &str) -> (r: Vec<String>)
        ensures
            texts(r@) == diagnostics(self@, program@),
    {
        let mut out: Vec<String> = Vec::new();
        assert(texts(out@) =~= Seq::<Seq<char>>::empty());
        if !self.verbose {
            return out;
        }
        push_shown(&mut out, "daemonize: program=", Some(program.to_owned()));
        assert(texts(out@) =~= shown("daemonize: program="@, Some(program@)));
        push_shown(&mut out, "daemonize: pidfile=", path_text(self.pidfile.as_ref()));
        push_shown(&mut out, "daemonize: lockfile=", self.shown_lockfile());
        push_shown(&mut out, "daemonize: chdir=", path_text(self.chdir.as_ref()));
        let umask: Option<String> = match self.umask {
            Some(m) => Some(octal_text(m)),
            None => None,
        };
        push_shown(&mut out, "daemonize: umask=", umask);
        push_shown(&mut out, "daemonize: stdout=", path_text(self.stdout.as_ref()));
        push_shown(&mut out, "daemonize: stderr=", path_text(self.effective_stderr().as_ref()));
        push_shown(&mut out, "daemonize: append=", flag_text(self.append));
        push_shown(&mut out, "daemonize: user=", clone_text(&self.user));
        push_shown(&mut out, "daemonize: group=", clone_text(&self.group));
        push_shown(&mut out, "daemonize: foreground=", flag_text(self.foreground));
        let ghost head = out@;
        let mut i: usize = 0;
        while i < self.env.len()
            invariant
                i <= self.env@.len(),
                out@.len() == head.len() + i,
                forall|j: int| 0 <= j < head.len() ==> out@[j] == head[j],
                forall|j: int|
                    0 <= j < i ==> (#[trigger] out@[head.len() + j])@ == "daemonize: env="@
                        + self.env@[j]@,
            decreases self.env@.len() - i,
        {
            out.push(cat("daemonize: env=", self.env[i].as_str()));
            i = i + 1;
        }
        let ghost wanted = texts(head) + shown_env(self@.env);
        assert forall|k: int| 0 <= k < wanted.len() implies texts(out@)[k] == wanted[k] by {
            if head.len() <= k {
                let j = k - head.len();
                assert(out@[head.len() + j]@ == "daemonize: env="@ + self.env@[j]@);
            }
        }
        assert(texts(out@) =~= wanted);
        out
    }
}

// ---------------------------------------------------------------------------
// The program
// ---------------------------------------------------------------------------

/// Whether a program is named by a path, which is resolved before the working
/// directory changes; a bare name is searched for when it is executed.
pub fn is_path(program: &str) -> (r: bool)
    ensures
        r == program@.contains('/'),
{
    contains_char(program, '/')
}

/// What was found of a program that is named by a path.
#[derive(Debug)]
pub enum ProgramFacts {
    /// Its canonical path cannot be had, for this reason.
    Unresolved(String),
    /// Its canonical path is not valid UTF-8.
    NotUtf8,
    /// Its canonical path, and whether it may be executed.
    Resolved { path: String, executable: bool },
}

/// [`ProgramFacts`] as a mathematical value.
pub enum ProgramView {
    Unresolved(Seq<char>),
    NotUtf8,
    Resolved { path: Seq<char>, executable: bool },
}

impl View for ProgramFacts {
    type V = ProgramView;

    open spec fn view(&self) -> ProgramView {
        match self {
            ProgramFacts::Unresolved(t) => ProgramView::Unresolved(t@),
            ProgramFacts::NotUtf8 => ProgramView::NotUtf8,
            ProgramFacts::Resolved { path, executable } => ProgramView::Resolved {
                path: path@,
                executable: *executable,
            },
        }
    }
}

/// The path that a program named by a path is executed by, after what was found.
pub open spec fn found_path(program: Seq<char>, facts: ProgramView) -> Result<
    Seq<char>,
    ErrorView,
> {
    match facts {
        ProgramView::Unresolved(text) => Err(
            ErrorView::ProgramNotFound("cannot resolve "@ + program + ": "@ + text),
        ),
        ProgramView::NotUtf8 => Err(ErrorView::ProgramNotFound("path is not valid UTF-8"@)),
        ProgramView::Resolved { path, executable } => if executable {
            Ok(path)
        } else {
            Err(ErrorView::ProgramNotFound("not executable: "@ + path))
        },
    }
}

/// What a program is executed by: a bare name as it is, to be searched for then;
/// a path by what was found of it.
pub open spec fn program_path(program: Seq<char>, facts: Option<ProgramFacts>) -> Result<
    Seq<char>,
    ErrorView,
> {
    if program.contains('/') {
        found_path(program, facts->0@)
    } else {
        Ok(program)
    }
}

/// Decides what a program is executed by. Of a program that is named by a path,
/// see [`is_path`], it has to be told what was found; of a bare name nothing is
/// looked up.
pub fn resolve_program_path(program: &str, facts: Option<ProgramFacts>) -> (r: Result<
    String,
    DaemonizeError,
>)
    requires
        program@.contains('/') ==> facts is Some,
    ensures
        !program@.contains('/') ==> (r matches Ok(p) && p@ == program@),
        match r {
            Ok(p) => program_path(program@, facts) == Ok::<Seq<char>, ErrorView>(p@),
            Err(e) => program_path(program@, facts) == Err::<Seq<char>, ErrorView>(e@),
        },
{
    if !is_path(program) {
        return Ok(program.to_owned());
    }
    match facts.unwrap() {
        ProgramFacts::Unresolved(text) => Err(
            DaemonizeError::ProgramNotFound(
                cat4("cannot resolve ", program, ": ", text.as_str()),
            ),
        ),
        ProgramFacts::NotUtf8 => Err(
            DaemonizeError::ProgramNotFound("path is not valid UTF-8".to_owned()),
        ),
        ProgramFacts::Resolved { path, executable } => if executable {
            Ok(path)
        } else {
            Err(DaemonizeError::ProgramNotFound(cat("not executable: ", path.as_str())))
        },
    }
}

/// The first argument that holds a NUL.
pub open spec fn nul_argument(args: Seq<Seq<char>>) -> Option<Seq<char>>
    decreases args.len(),
{
    if args.len() == 0 {
        None
    } else if args[0].contains('\0') {
        Some(args[0])
    } else {
        nul_argument(args.skip(1))
    }
}

/// The arguments that a program is executed with: the path or name it is
/// executed by, then its own arguments.
pub open spec fn exec_argv(path: Seq<char>, program: Seq<Seq<char>>) -> Result<
    Seq<Seq<char>>,
    ErrorView,
> {
    let rest = if program.len() == 0 {
        program
    } else {
        program.skip(1)
    };
    if path.contains('\0') {
        Err(ErrorView::ExecFailed("program path contains null byte"@))
    } else {
        match nul_argument(rest) {
            Some(arg) => Err(ErrorView::ExecFailed("argument contains null byte: "@ + arg)),
            None => Ok(seq![path] + rest),
        }
    }
}

/// The arguments to execute a program with.
pub fn build_argv(path: &str, program: &Vec<String>) -> (r: Result<Vec<String>, DaemonizeError>)
    ensures
        match r {
            Ok(argv) => exec_argv(path@, texts(program@)) == Ok::<Seq<Seq<char>>, ErrorView>(
                texts(argv@),
            ),
            Err(e) => exec_argv(path@, texts(program@)) == Err::<Seq<Seq<char>>, ErrorView>(e@),
        },
{
    if contains_char(path, '\0') {
        return Err(DaemonizeError::ExecFailed("program path contains null byte".to_owned()));
    }
    let ghost all = texts(program@);
    let ghost rest = if all.len() == 0 {
        all
    } else {
        all.skip(1)
    };
    let mut argv: Vec<String> = Vec::new();
    argv.push(path.to_owned());
    assert(texts(argv@) =~= seq![path@] + rest.take(0));
    assert(rest.skip(0) =~= rest);
    let mut i: usize = 1;
    while i < program.len()
        invariant
            1 <= i,
            all == texts(program@),
            rest == (if all.len() == 0 {
                all
            } else {
                all.skip(1)
            }),
            i - 1 <= rest.len(),
            texts(argv@) == seq![path@] + rest.take(i - 1),
            nul_argument(rest) == nul_argument(rest.skip(i - 1)),
            !path@.contains('\0'),
        decreases program@.len() - i,
    {
        assert(rest[i - 1] == program@[i as int]@);
        assert(rest.skip(i - 1)[0] == rest[i - 1]);
        assert(rest.skip(i - 1).skip(1) =~= rest.skip(i as int));
        if contains_char(program[i].as_str(), '\0') {
            return Err(
                DaemonizeError::ExecFailed(
                    cat("argument contains null byte: ", program[i].as_str()),
                ),
            );
        }
        let ghost before = argv@;
        argv.push(program[i].clone());
        assert(texts(argv@) =~= texts(before).push(rest[i - 1]));
        assert(rest.take(i as int) =~= rest.take(i - 1).push(rest[i - 1]));
        assert((seq![path@] + rest.take(i - 1)).push(rest[i - 1]) =~= seq![path@] + rest.take(
            i as int,
        ));
        i = i + 1;
    }
    assert(rest.take(rest.len() as int) =~= rest);
    assert(rest.skip(rest.len() as int).len() == 0);
    Ok(argv)
}

/// The error of a program that cannot be executed: one that is missing or not
/// executable is not found, anything else is a failure of the system.
pub open spec fn exec_error(kind: ErrnoKind, message: Seq<char>) -> ErrorView {
    if kind is NoEntry || kind is AccessDenied {
        ErrorView::ProgramNotFound(message)
    } else {
        ErrorView::ExecFailed(message)
    }
}

/// The error of a program that cannot be executed.
pub fn exec_error_variant(kind: ErrnoKind, message: String) -> (r: DaemonizeError)
    ensures
        r@ == exec_error(kind, message@),
{
    match kind {
        ErrnoKind::NoEntry => DaemonizeError::ProgramNotFound(message),
        ErrnoKind::AccessDenied => DaemonizeError::ProgramNotFound(message),
        _ => DaemonizeError::ExecFailed(message),
    }
}

/// The error to report when executing the program failed.
pub fn exec_failure(path: &str, failure: &OsFailure) -> (r: DaemonizeError)
    ensures
        r@ == exec_error(failure.kind, "exec "@ + path@ + ": "@ + failure.text@),
{
    exec_error_variant(failure.kind, cat4("exec ", path, ": ", failure.text.as_str()))
}

/// The error to report when the lock cannot be handed on to the program.
pub fn cloexec_failure(failure: &OsFailure) -> (r: DaemonizeError)
    ensures
        r@ == ErrorView::ExecFailed(
            "failed to clear CLOEXEC on lockfile fd: "@ + failure.text@,
        ),
{
    DaemonizeError::ExecFailed(
        cat("failed to clear CLOEXEC on lockfile fd: ", failure.text.as_str()),
    )
}

} // verus!
