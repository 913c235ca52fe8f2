# shell

A small Unix shell whose command-line handling is verified with Verus.

The shell supports pipelines (`ls --help | grep and | wc > res.txt`),
redirection to and from files (`>`, `>>`, `<`), redirections that name a
descriptor (`grep char 0< file.txt 1>&2`), here-documents (`wc << EOF`),
redirection to TCP connections (`ls > /dev/tcp/127.0.0.1/8887`), the
built-ins `cd`, `pwd`, `export` and `exit`, and a prompt that survives ctrl+C.

## Layout

- `src/` — the verified library.
  - `text.rs`: models of the `str` operations the parser needs (`trim`,
    `split`, `split_whitespace`, `i32::from_str`, `char::is_whitespace`) and
    verified implementations of them.
  - `syntax.rs`: the token after a redirection operator, the descriptor
    before it, and `/dev/tcp/host/port` paths.
  - `redirect.rs`: redirections and the file-descriptor operations that
    carry them out.
  - `plan.rs`: the plan for a command without a pipe, for each stage of a
    pipeline, and for the stages of the pipe-only shell.
  - `builtin.rs`: recognising built-in commands and `export` assignments.
  - `session.rs`: prompts, reading lines, here-document lines, interrupts.
  - `laws.rs`: properties that span these functions.
- `app/` — the program: it reads the terminal, makes the system calls
  (through `nix`) and runs programs, following the library's plans.
  `shell --basic` runs the earlier pipe-only shell.
- `tests/` — tests of the library, including comparisons with the standard
  library's string operations.
