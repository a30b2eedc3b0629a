# runfile_executor

The runtime of Runfile targets, as a verified library: argument parsing,
`{{ ... }}` template substitution and its built-in functions, env files,
argument validation, the decisions of a target's walk (`when:` guards,
`if`/`match` branches, `for` loops, step counting, failure bookkeeping),
the flattening of `detach`, `sameShell` and parallel blocks, the commands
printed for `--dry-run`, and the shell quoting of what is printed.

- `src/` is the library. Every function carries a contract that Verus
  proves; calls into `regex`, `base64`, `sha2`, `md-5`, `hex`, `shlex`,
  `serde_json` and `globset` go through small trusted wrappers whose doc
  comments say what is assumed of them. `src/laws.rs` states the
  properties that relate several operations.
- `tests/` runs the library on concrete values.
- `app/` is the part that touches the machine: spawning processes, the
  file system, the terminal, threads, and the loops that feed their
  outcomes back to the library's decisions.
