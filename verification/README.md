# gukab

A terminal (TUI) SSH and serial-console connection manager for network
devices: a fuzzy-searchable, grouped host list, credentials in the OS
keychain, keyboard macros and regex expect rules that answer prompts,
colorized session output, per-session transcripts and trust-on-first-use
host-key checking.

## Layout

- `src/` — the library, written in Verus: the program's decisions are
  executable functions with `requires` / `ensures` contracts that Verus
  proves, and properties that span several functions are stated as public
  proof functions (`lemma_*`). What outside code computes is stated only as
  far as the trusted wrappers say (see below).
  - `app`, `forms`, `hostlist`, `picker`, `ui` — the host list, its edit
    forms, the macro manager and console form, the in-session pickers, and
    what the screen shows as text.
  - `session`, `keys`, `highlight`, `session_log`, `connect`, `known_hosts` —
    the session engine: macro payloads, expect rules, the escape prefix, key
    encodings, output colorization, transcript naming, authentication order
    and host-key trust.
  - `config`, `serial`, `notes` — the configuration model and its paths, the
    serial parameters, and the notes files.
  - `fuzzy`, `text`, `matcher` — fuzzy matching, string primitives, and the
    `regex` crate behind a few trusted wrappers.
- `tests/` — tests of the library on concrete values.
- `app/` — the program around the library: arguments, the TOML files, the
  keychain, the terminal UI (crossterm / ratatui), and the SSH (russh) and
  serial (serialport) links. It reads and writes, and asks the library what to
  do.

Trusted items (wrappers marked `#[verifier::external_body]` and the names of
what they return) are few and each carries a doc comment saying what is
assumed of the outside function.
