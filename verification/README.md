# amanda

Verified core of the Amanda OS command-line tools, written in Verus.

## Layout

- `src/` — the library, verified by Verus.
  - `amaudit.rs` — the `.amaudit` audit trail: entries numbered by position, sealed with
    the SHA-256 hash of their fields joined by `:` (with `\` and `:` escaped inside the
    text fields) and chained by the previous entry's hash (empty for the first); chain
    verification and the tamper-detection lemmas.
  - `amconf.rs`, `amconf/dirs.rs` — the `.amconf` configuration model (profiles,
    credentials, global settings) and the XDG configuration paths.
  - `amrpt.rs` — the `.amrpt` report model and its plain-text rendering.
  - `keyed.rs` — maps keyed by text, kept as vectors of distinct keys.
  - `time.rs`, `digest.rs`, `json.rs` — the calls into chrono, sha2 and serde_json,
    each behind a contract.
  - `text.rs` — decimal and hexadecimal numerals, case-insensitive comparison,
    substring search.
  - `watch/` — the decisions of the `amanda-watch` process monitor: readings held by
    their IEEE 754 bit patterns, filters, the stable ordering of processes, alerts, the
    shape of output tables, and the interactive view's key handling.
- `tests/` — tests of the library.
- `app/` — the `amanda-watch` program: command line, sysinfo readings, floating-point
  formatting, JSON files, and the terminal interface.

Values that the library holds as JSON (audit payloads, settings, report sections) are
kept as compact JSON text, checked and compacted with `serde_json` where it comes in; the program turns them
into `serde_json` values where it reads or writes files.
