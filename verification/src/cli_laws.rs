//! What the command's arguments come to.

use vstd::prelude::*;
use vstd::utf8::*;
use crate::cli::{
    derived_stderr, diagnostics, exec_argv, exec_error, found_path, nul_argument, octal_mode,
    padded_octal, program_path, shown_env, ArgsView, ProgramFacts, ProgramView,
};
use crate::config::{default_config, ConfigView, LockfileView};
use crate::errno::ErrnoKind;
use crate::error::ErrorView;
use crate::launch::{
    launch_after, launch_fits, new_launch, LaunchEventView, LaunchOpView, LaunchView,
};
use crate::path::{extension, utf8_lossy};
use crate::text::{numeral, read_unsigned};
use crate::text_laws::{
    a_number_reads_as_its_digits_are_worth, a_numeral_is_worth_its_number, all_digits, digits_of,
    the_extension_stands_behind_the_last_dot, trailing_slashes_and_dots_say_nothing, worth,
};

verus! {

// ---------------------------------------------------------------------------
// Single arguments
// ---------------------------------------------------------------------------

/// A umask is accepted exactly if it is made of octal digits, after an optional `+`,
/// and is worth at most `0o7777`; it is then what the digits are worth. What is worth
/// more is out of range, and anything else is no octal number.
pub proof fn a_umask_is_what_its_octal_digits_are_worth(s: Seq<char>)
    ensures
        s.len() > 0 && all_digits(digits_of(s), 8) && worth(digits_of(s), 8) <= 0o7777
            ==> octal_mode(s) == Ok::<nat, Seq<char>>(worth(digits_of(s), 8)),
        s.len() > 0 && all_digits(digits_of(s), 8) && 0o7777 < worth(digits_of(s), 8) <= u32::MAX
            ==> octal_mode(s) == Err::<nat, Seq<char>>("umask out of range (max 7777): "@ + s),
        s.len() == 0 || !all_digits(digits_of(s), 8) || worth(digits_of(s), 8) > u32::MAX ==> {
            &&& read_unsigned(s, 8, u32::MAX as nat) matches Err(e) && octal_mode(s) == Err::<
                nat,
                Seq<char>,
            >("invalid octal umask: "@ + e.message())
        },
{
    a_number_reads_as_its_digits_are_worth(s, 8, u32::MAX as nat, 0);
}

proof fn lemma_extension_bytes()
    ensures
        encode_utf8("stdout"@).len() == 6,
        encode_utf8("out"@).len() == 3,
        !encode_utf8("stdout"@).contains(46u8),
        !encode_utf8("stdout"@).contains(47u8),
        !encode_utf8("out"@).contains(46u8),
        !encode_utf8("out"@).contains(47u8),
        encode_utf8("stdout"@) != encode_utf8("out"@),
{
    reveal_strlit("stdout");
    reveal_strlit("out");
    let a = "stdout"@;
    let b = "out"@;
    assert(is_ascii_chars(a));
    assert(is_ascii_chars(b));
    is_ascii_chars_encode_utf8(a);
    is_ascii_chars_encode_utf8(b);
    let x = encode_utf8(a);
    let y = encode_utf8(b);
    assert forall|i: int| 0 <= i < x.len() implies x[i] != 46u8 && x[i] != 47u8 by {
        assert(x[i] == a[i] as u8);
    }
    assert forall|i: int| 0 <= i < y.len() implies y[i] != 46u8 && y[i] != 47u8 by {
        assert(y[i] == b[i] as u8);
    }
}

/// The file for stderr that is derived from one for stdout has the extension `.stderr`
/// in place of `.stdout`, or `.err` in place of `.out`, and is otherwise the same; for
/// a file with another extension or none it is that file.
pub proof fn stderr_goes_beside_stdout(dir: Seq<u8>, stem: Seq<u8>, p: Seq<u8>)
    requires
        dir.len() == 0 || dir.last() == 47u8,
        stem.len() > 0,
        !stem.contains(47u8),
    ensures
        derived_stderr(dir + stem + seq![46u8] + encode_utf8("stdout"@)) == dir + stem + seq![46u8]
            + encode_utf8("stderr"@),
        derived_stderr(dir + stem + seq![46u8] + encode_utf8("out"@)) == dir + stem + seq![46u8]
            + encode_utf8("err"@),
        extension(p) != Some(encode_utf8("stdout"@)) && extension(p) != Some(encode_utf8("out"@))
            ==> derived_stderr(p) == p,
        p.len() > 0 && (extension(p) == Some(encode_utf8("stdout"@)) || extension(p) == Some(
            encode_utf8("out"@),
        )) ==> derived_stderr(p + seq![47u8]) == derived_stderr(p),
{
    lemma_extension_bytes();
    the_extension_stands_behind_the_last_dot(
        dir,
        stem,
        encode_utf8("stdout"@),
        encode_utf8("stderr"@),
    );
    the_extension_stands_behind_the_last_dot(dir, stem, encode_utf8("out"@), encode_utf8("err"@));
    trailing_slashes_and_dots_say_nothing(p);
}

// ---------------------------------------------------------------------------
// The configuration
// ---------------------------------------------------------------------------

/// Every argument goes to its setting, and what no argument says has its default: the
/// root directory, no umask, descriptors closed, the pidfile removed at the end, and
/// files handed over. Without a lockfile the pidfile is locked, and with locking
/// switched off nothing is.
pub proof fn every_argument_goes_to_its_setting(a: ArgsView)
    ensures
        ({
            let c = a.config();
            &&& c.pidfile == a.pidfile
            &&& c.stdout == a.stdout
            &&& c.stderr == (if a.stderr is Some {
                a.stderr
            } else if a.stdout is Some {
                Some(derived_stderr(a.stdout->0))
            } else {
                None
            })
            &&& c.append == a.append
            &&& c.user == a.user
            &&& c.group == a.group
            &&& c.foreground == a.foreground
            &&& a.chdir is Some ==> c.chdir == a.chdir->0
            &&& a.chdir is None ==> c.chdir == encode_utf8("/"@)
            &&& a.umask is Some ==> c.umask == a.umask->0
            &&& a.umask is None ==> c.umask == 0
            &&& a.no_lock ==> c.lockfile is Disabled
            &&& !a.no_lock && a.lockfile is Some ==> c.lockfile == LockfileView::Explicit(
                a.lockfile->0,
            )
            &&& !a.no_lock && a.lockfile is None ==> c.lockfile is Derive
            &&& c.close_fds
            &&& c.cleanup_on_drop
            &&& c.chown_paths
            &&& c.env.len() == a.env.len()
        }),
{
}

/// Every environment argument becomes an entry, in order: what stands before its first
/// `=`, and what stands behind it.
pub proof fn every_environment_argument_becomes_an_entry(
    a: ArgsView,
    i: int,
    key: Seq<char>,
    value: Seq<char>,
)
    requires
        0 <= i < a.env.len(),
        !key.contains('='),
    ensures
        a.config().env.len() == a.env.len(),
        a.env[i] == key + seq!['='] + value ==> a.config().env[i] == (key, value),
        a.env[i] == key ==> a.config().env[i] == (key, Seq::<char>::empty()),
{
    crate::cli::env_pair_splits_what_was_joined(key, value);
}

/// What a configuration is that nothing was set in.
pub proof fn what_is_not_set_has_its_default()
    ensures
        ({
            let c = default_config();
            &&& c.pidfile is None && c.stdout is None && c.stderr is None
            &&& c.user is None && c.group is None
            &&& c.chdir == encode_utf8("/"@)
            &&& c.umask == 0
            &&& c.lockfile is Derive
            &&& !c.append && !c.foreground
            &&& c.close_fds && c.cleanup_on_drop && c.chown_paths
            &&& c.env == Seq::<(Seq<char>, Seq<char>)>::empty()
        }),
{
}

// ---------------------------------------------------------------------------
// Diagnostics
// ---------------------------------------------------------------------------

/// A umask is shown in octal digits that are worth it: three of them, or more where it
/// takes more.
pub proof fn a_umask_is_shown_in_octal(m: nat)
    ensures
        all_digits(padded_octal(m), 8),
        worth(padded_octal(m), 8) == m,
        padded_octal(m).len() >= 3,
        padded_octal(m).len() > 3 ==> padded_octal(m)[0] != '0',
{
    a_numeral_is_worth_its_number(m, 8);
    reveal_strlit("00");
    reveal_strlit("0");
    let d = numeral(m, 8);
    let p = padded_octal(m);
    reveal_with_fuel(worth, 4);
    if d.len() == 1 {
        assert(p =~= seq!['0', '0', d[0]]);
        assert(d =~= seq![d[0]]);
        assert(p.drop_last() =~= seq!['0', '0']);
        assert(p.drop_last().drop_last() =~= seq!['0']);
        assert(d.drop_last() =~= Seq::<char>::empty());
    } else if d.len() == 2 {
        assert(p =~= seq!['0', d[0], d[1]]);
        assert(d =~= seq![d[0], d[1]]);
        assert(p.drop_last() =~= seq!['0', d[0]]);
        assert(p.drop_last().drop_last() =~= seq!['0']);
        assert(d.drop_last() =~= seq![d[0]]);
        assert(d.drop_last().drop_last() =~= Seq::<char>::empty());
    } else if m == 0 {
        assert(d.len() == 1);
    }
}

/// Nothing is shown unless it is asked for. Then the program is shown, and every
/// argument that was given, each in a line of its own behind its name, in a fixed
/// order, and the environment arguments last.
pub proof fn what_was_given_is_shown(a: ArgsView, program: Seq<char>)
    ensures
        !a.verbose ==> diagnostics(a, program) == Seq::<Seq<char>>::empty(),
        a.verbose ==> ({
            let lockfile = if a.no_lock {
                None
            } else if a.lockfile is Some {
                a.lockfile
            } else {
                a.pidfile
            };
            let stderr = if a.stderr is Some {
                a.stderr
            } else if a.stdout is Some {
                Some(derived_stderr(a.stdout->0))
            } else {
                None
            };
            let l1 = seq!["daemonize: program="@ + program];
            let l2 = path_line("daemonize: pidfile="@, a.pidfile);
            let l3 = path_line("daemonize: lockfile="@, lockfile);
            let l4 = path_line("daemonize: chdir="@, a.chdir);
            let l5 = match a.umask {
                Some(m) => seq!["daemonize: umask="@ + padded_octal(m as nat)],
                None => Seq::empty(),
            };
            let l6 = path_line("daemonize: stdout="@, a.stdout);
            let l7 = path_line("daemonize: stderr="@, stderr);
            let l8 = flag_line("daemonize: append=true"@, a.append);
            let l9 = text_line("daemonize: user="@, a.user);
            let l10 = text_line("daemonize: group="@, a.group);
            let l11 = flag_line("daemonize: foreground=true"@, a.foreground);
            let l12 = Seq::new(a.env.len(), |i: int| "daemonize: env="@ + a.env[i]);
            diagnostics(a, program) == l1 + l2 + l3 + l4 + l5 + l6 + l7 + l8 + l9 + l10 + l11 + l12
        }),
{
    assert("daemonize: append="@ + "true"@ =~= "daemonize: append=true"@) by {
        reveal_strlit("daemonize: append=");
        reveal_strlit("true");
        reveal_strlit("daemonize: append=true");
    }
    assert("daemonize: foreground="@ + "true"@ =~= "daemonize: foreground=true"@) by {
        reveal_strlit("daemonize: foreground=");
        reveal_strlit("true");
        reveal_strlit("daemonize: foreground=true");
    }
    assert(shown_env(a.env) =~= Seq::new(a.env.len(), |i: int| "daemonize: env="@ + a.env[i]));
}

/// A line for a path that was given.
pub open spec fn path_line(name: Seq<char>, p: Option<Seq<u8>>) -> Seq<Seq<char>> {
    match p {
        Some(path) => seq![name + utf8_lossy(path)],
        None => Seq::empty(),
    }
}

/// A line for a text that was given.
pub open spec fn text_line(name: Seq<char>, text: Option<Seq<char>>) -> Seq<Seq<char>> {
    match text {
        Some(s) => seq![name + s],
        None => Seq::empty(),
    }
}

/// A line for a flag that was set.
pub open spec fn flag_line(line: Seq<char>, flag: bool) -> Seq<Seq<char>> {
    if flag {
        seq![line]
    } else {
        Seq::empty()
    }
}

// ---------------------------------------------------------------------------
// The program
// ---------------------------------------------------------------------------

/// A bare name is executed as it is. A path is executed by its canonical form, if that
/// can be had and is executable; otherwise the program is not found, for the reason
/// that is given.
pub proof fn a_path_is_executed_by_its_canonical_form(
    program: Seq<char>,
    facts: Option<ProgramFacts>,
    text: Seq<char>,
    path: Seq<char>,
)
    ensures
        !program.contains('/') ==> program_path(program, facts) == Ok::<Seq<char>, ErrorView>(
            program,
        ),
        program.contains('/') && facts is Some ==> program_path(program, facts) == found_path(
            program,
            facts->0@,
        ),
        found_path(program, ProgramView::Resolved { path, executable: true }) == Ok::<
            Seq<char>,
            ErrorView,
        >(path),
        found_path(program, ProgramView::Resolved { path, executable: false }) == Err::<
            Seq<char>,
            ErrorView,
        >(ErrorView::ProgramNotFound("not executable: "@ + path)),
        found_path(program, ProgramView::NotUtf8) == Err::<Seq<char>, ErrorView>(
            ErrorView::ProgramNotFound("path is not valid UTF-8"@),
        ),
        found_path(program, ProgramView::Unresolved(text)) == Err::<Seq<char>, ErrorView>(
            ErrorView::ProgramNotFound("cannot resolve "@ + program + ": "@ + text),
        ),
{
}

proof fn lemma_nul_argument(args: Seq<Seq<char>>)
    ensures
        nul_argument(args) is None <==> forall|i: int|
            0 <= i < args.len() ==> !(#[trigger] args[i]).contains('\0'),
        forall|i: int|
            0 <= i < args.len() && (#[trigger] args[i]).contains('\0') && (forall|j: int|
                0 <= j < i ==> !(#[trigger] args[j]).contains('\0')) ==> nul_argument(args) == Some(
                args[i],
            ),
    decreases args.len(),
{
    if args.len() > 0 {
        let rest = args.skip(1);
        lemma_nul_argument(rest);
        assert forall|i: int| 0 <= i < rest.len() implies rest[i] == args[i + 1] by {}
        if nul_argument(args) is None {
            assert forall|i: int| 0 <= i < args.len() implies !(#[trigger] args[i]).contains(
                '\0',
            ) by {
                if i > 0 {
                    assert(args[i] == rest[i - 1]);
                }
            }
        } else if !args[0].contains('\0') {
            let i = choose|i: int| 0 <= i < rest.len() && (#[trigger] rest[i]).contains('\0');
            assert(args[i + 1].contains('\0'));
        }
        assert forall|i: int|
            0 <= i < args.len() && (#[trigger] args[i]).contains('\0') && (forall|j: int|
                0 <= j < i ==> !(#[trigger] args[j]).contains('\0')) implies nul_argument(args)
            == Some(args[i]) by {
            if i > 0 {
                assert(!args[0].contains('\0'));
                assert(rest[i - 1] == args[i]);
                assert forall|j: int| 0 <= j < i - 1 implies !(#[trigger] rest[j]).contains(
                    '\0',
                ) by {
                    assert(rest[j] == args[j + 1]);
                }
            }
        }
    }
}

/// A program is executed with all of its arguments, in order, behind what it is
/// executed by, which stands in place of its name.
pub proof fn a_program_gets_all_its_arguments(path: Seq<char>, program: Seq<Seq<char>>)
    requires
        !path.contains('\0'),
        forall|i: int| 0 < i < program.len() ==> !(#[trigger] program[i]).contains('\0'),
    ensures
        exec_argv(path, program) matches Ok(argv) && {
            &&& argv.len() == (if program.len() == 0 {
                1
            } else {
                program.len()
            })
            &&& argv[0] == path
            &&& forall|i: int| 0 < i < program.len() ==> #[trigger] argv[i] == program[i]
        },
{
    let rest = if program.len() == 0 {
        program
    } else {
        program.skip(1)
    };
    lemma_nul_argument(rest);
    assert forall|i: int| 0 <= i < rest.len() implies !(#[trigger] rest[i]).contains('\0') by {
        assert(rest[i] == program[i + 1]);
    }
}

/// A program is not executed by a path that holds a NUL, nor with an argument that
/// does; the error names the first such argument.
pub proof fn no_program_gets_a_nul(path: Seq<char>, program: Seq<Seq<char>>, i: int)
    ensures
        path.contains('\0') ==> exec_argv(path, program) == Err::<Seq<Seq<char>>, ErrorView>(
            ErrorView::ExecFailed("program path contains null byte"@),
        ),
        !path.contains('\0') && 0 < i < program.len() && program[i].contains('\0') && (forall|j: int|
            0 < j < i ==> !(#[trigger] program[j]).contains('\0')) ==> exec_argv(path, program)
            == Err::<Seq<Seq<char>>, ErrorView>(
            ErrorView::ExecFailed("argument contains null byte: "@ + program[i]),
        ),
{
    if 0 < i < program.len() && program[i].contains('\0') && (forall|j: int|
        0 < j < i ==> !(#[trigger] program[j]).contains('\0')) {
        let rest = program.skip(1);
        lemma_nul_argument(rest);
        assert(rest[i - 1] == program[i]);
        assert forall|j: int| 0 <= j < i - 1 implies !(#[trigger] rest[j]).contains('\0') by {
            assert(rest[j] == program[j + 1]);
        }
    }
}

/// A program that cannot be executed because it is missing or not executable is not
/// found; any other reason is a failure to execute it. The message stays as it is.
pub proof fn a_missing_program_is_not_found(kind: ErrnoKind, message: Seq<char>)
    ensures
        kind is NoEntry || kind is AccessDenied ==> exec_error(kind, message)
            == ErrorView::ProgramNotFound(message),
        !(kind is NoEntry) && !(kind is AccessDenied) ==> exec_error(kind, message)
            == ErrorView::ExecFailed(message),
{
}

/// Before a program is executed the privileges are dropped, if a user or a group is
/// configured; the lock is handed on, if there is one; and `SIGPIPE` gets its default
/// disposition. Then the program is executed with all of its arguments.
pub proof fn the_way_to_a_program(
    c: ConfigView,
    lock: Option<i32>,
    path: Seq<char>,
    program: Seq<Seq<char>>,
)
    requires
        !path.contains('\0'),
        forall|i: int| 0 < i < program.len() ==> !(#[trigger] program[i]).contains('\0'),
    ensures
        ({
            let way = new_launch(c, lock, path, program);
            let drops: int = if c.user is Some || c.group is Some {
                1
            } else {
                0
            };
            let locks: int = if lock is Some {
                1
            } else {
                0
            };
            &&& way.path == path
            &&& way.pending.len() == drops + locks + 2
            &&& drops == 1 ==> way.pending[0] is DropPrivileges
            &&& locks == 1 ==> way.pending[drops] == LaunchOpView::ClearCloexec(lock->0)
            &&& way.pending[drops + locks] is DefaultSigpipe
            &&& way.pending[drops + locks + 1] matches LaunchOpView::Exec(argv) && argv.len() == (
            if program.len() == 0 {
                1
            } else {
                program.len()
            }) && argv[0] == path && forall|i: int|
                0 < i < program.len() ==> #[trigger] argv[i] == program[i]
        }),
{
    a_program_gets_all_its_arguments(path, program);
}

/// Where the arguments cannot be handed to a program, privileges are dropped and the lock
/// is handed on all the same, and then that error is reported; nothing is executed.
pub proof fn the_way_to_no_program(
    c: ConfigView,
    lock: Option<i32>,
    path: Seq<char>,
    program: Seq<Seq<char>>,
    error: ErrorView,
)
    requires
        exec_argv(path, program) == Err::<Seq<Seq<char>>, ErrorView>(error),
    ensures
        ({
            let way = new_launch(c, lock, path, program);
            let drops: int = if c.user is Some || c.group is Some {
                1
            } else {
                0
            };
            let locks: int = if lock is Some {
                1
            } else {
                0
            };
            &&& way.pending.len() == drops + locks + 1
            &&& drops == 1 ==> way.pending[0] is DropPrivileges
            &&& locks == 1 ==> way.pending[drops] == LaunchOpView::ClearCloexec(lock->0)
            &&& way.pending[drops + locks] == LaunchOpView::Report(error)
        }),
{
}

/// What comes of a step: when it is done, the next one is to be made. When privileges
/// are not dropped, that error is reported. When the lock cannot be handed on, or the
/// program cannot be executed, an error is reported that says so in the words of the
/// system. Nothing comes after a report.
pub proof fn what_comes_of_a_step(
    s: LaunchView,
    kind: ErrnoKind,
    text: Seq<char>,
    error: ErrorView,
    e: LaunchEventView,
)
    requires
        s.pending.len() > 0,
    ensures
        launch_after(s, e).path == s.path,
        s.pending[0] is DropPrivileges || s.pending[0] is ClearCloexec || s.pending[0]
            is DefaultSigpipe ==> launch_after(s, LaunchEventView::Done).pending == s.pending.skip(1),
        s.pending[0] is DropPrivileges ==> launch_after(s, LaunchEventView::Refused(error)).pending
            == seq![LaunchOpView::Report(error)],
        s.pending[0] is ClearCloexec ==> launch_after(s, LaunchEventView::Failed(kind, text)).pending
            == seq![
            LaunchOpView::Report(
                ErrorView::ExecFailed("failed to clear CLOEXEC on lockfile fd: "@ + text),
            ),
        ],
        s.pending[0] is Exec ==> launch_after(s, LaunchEventView::Failed(kind, text)).pending == seq![
            LaunchOpView::Report(
                if kind is NoEntry || kind is AccessDenied {
                    ErrorView::ProgramNotFound("exec "@ + s.path + ": "@ + text)
                } else {
                    ErrorView::ExecFailed("exec "@ + s.path + ": "@ + text)
                },
            ),
        ],
        s.pending[0] is Report ==> launch_after(s, e) == s,
        !launch_fits(s.pending[0], e) ==> launch_after(s, e) == s,
{
}

} // verus!
