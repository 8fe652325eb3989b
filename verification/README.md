# cross-env-rs

Sets environment variables and runs a command, cross-platform:
`cross-env [KEY=VALUE]... <command> [args]...` and
`cross-env-shell [KEY=VALUE]... <shell command>`.

- `src/` is the library, verified with Verus: argument parsing
  (`KEY=VALUE` pairs, the `--` terminator), `$VAR` / `${VAR}` / `%VAR%`
  expansion of the values, resolution, the command line handed to the
  shell, and exit-code propagation. Each public function has an exact
  contract; the laws (`law_*` proof functions) state the properties that
  span calls.
- `app/` is the program: reading the arguments and the environment,
  locating the command on `PATH`, spawning it and reporting its status.
  Invoked as `cross-env-shell` it runs the command through the shell.
- `tests/` runs the library on concrete inputs.
