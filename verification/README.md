# shell

A small interactive shell whose core is verified with Verus.

- `src/` is the verified library: splitting command lines into words,
  dispatching to builtins (`cd`, `pwd`, `source`/`.`, `eval`, `true`,
  `false`, `noop`/`:`), the builtins' decisions as state machines, path
  handling (components, joining, the lexical `..` walk of `cd`), the
  in-memory streams (text in, bytes out), the error type and the prompt.
  `src/laws.rs` holds properties that span several operations.
- `app/` is the program around it: the terminal, the file system, the
  process environment, child processes and signals. It performs the
  actions that the builtins' state machines ask for and hands back what it
  found.
- `tests/` exercises the library on concrete values.

The outside crates `getopts` (argument parsing), `colored` (the prompt's
styles) and `pathdiff` (the prompt's home-relative path) are called from
the library through trusted wrappers whose contracts state what their
sources show; `chrono` and `signal-hook` are used by the program only.
