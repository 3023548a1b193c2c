# blivet

A library and a command, `daemonize`, that turn a Unix process into a daemon. A
blivet is the "impossible fork" of optical illusions.

The library holds the decisions, and Verus proves that they are what their
contracts say: which configurations are valid; which system calls daemonizing,
handing files over, changing the user and group, installing signal handlers and
executing a program consist of, in which order, and what follows from what came of
each of them; and what the parent process is told and how it ends. It makes no
system call itself. The command makes them, one after the other, as the library
asks for them. What is left to the command is to observe the host, to look at the
program before it daemonizes, and to execute it afterwards.

## Layout

- `src/config.rs`, `src/validate.rs`, `src/host.rs`: the configuration, and its
  validation against what was observed of the host.
- `src/sequence.rs`, `src/calls.rs`: the daemonization, a state machine that asks
  for a call and is told what came of it.
- `src/fds.rs`, `src/signals.rs`, `src/output.rs`, `src/thread_count.rs`: single
  steps of it.
- `src/context.rs`, `src/notify.rs`: what a daemon holds, and the protocol of the
  pipe to its parent.
- `src/privileges.rs`, `src/identity.rs`: handing files over and changing the user
  and group.
- `src/install.rs`: signal handlers that remove the pidfile.
- `src/error.rs`, `src/errno.rs`: errors, their texts and exit codes.
- `src/cli.rs`: what the command's arguments mean.
- `src/launch.rs`: the way from a daemon to the program that the command executes.
- `src/text.rs`, `src/path.rs`: strings, numerals and paths.
- `src/sequence_laws.rs`, `src/descriptor_laws.rs`, `src/context_laws.rs`,
  `src/privilege_laws.rs`: what holds of whole runs, whatever comes of the calls.
- `app/`: the command.

## What is trusted

The contracts of a few functions are believed without proof: `String::push`,
`String::from_utf8_lossy`, the `Debug` of `str` and of `Path`, the signal numbers of `libc`, and
the error numbers and texts of `nix`. Each stands behind a declaration that says
what is claimed of it.

The library is for Linux: it asks for `SIGRTMIN` and `SIGRTMAX`, and what it claims
of the error numbers and their texts is what `nix` has for Linux. What differs from
one machine to the next is left open: nothing is claimed of the bounds of the
real-time signals, of `SIGSTOP` only that it is one of the three numbers that Linux
has for it, and of the texts of error numbers beyond 34 only that they are not
empty.
