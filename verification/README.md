# scanmem

A process memory scanner and editor with a terminal front end (`gameconqueror`): attach to a
running process, scan its memory for a value, narrow the match set down as the value changes,
and write new values back.

## Layout

- `src/` — the library, written in Verus and verified: its functions carry contracts
  (`requires`/`ensures`) that Verus proves, except the stop-flag and progress-counter methods
  in `interrupt`, whose shared atomic cells other threads may change at any time.
  - `maps`, `value`, `scanroutines`, `swath`, `session`, `sets`, `text`, `error`, `interrupt`,
    `jobs`, `changes`: the scanning engine — region parsing, value parsing and encoding,
    per-position matching, compact match storage, first and narrowing scans over buffers read
    from the target, which pass a scan request runs as, and which matches changed since the
    last look.
  - `appstate`, `transitions`, `focus`, `keymap`, `input`, `scanform`, `settings`, `cli`,
    `theme`, `matchlist`, `proclist`, `hexview`: the front end's state machine (messages in, state and
    effects out), key bindings, the scan form, settings resolution and the theme.
- `app/` — the program around the library: command line (`clap`), config files (`toml`),
  logging (`tracing-subscriber`), `ptrace` attach and `/proc/<pid>/mem` I/O (`rustix`, `libc`),
  the scan thread, floating-point parsing and comparison, and drawing with `ratatui`.
- `tests/` — tests of the library on concrete values.
