# session-recorder

A terminal session recorder: sessions are started and stopped, commands are
recorded with their timing, exit codes and (cut-down) output, and stored
sessions are listed, shown as JSON, YAML or text, and deleted.

- `src/` is the verified library:
  - `models.rs`: time spans, command events, sessions, per-session command files;
  - `text.rs`: decimal numbers, padding, first lines, byte-wise string order;
  - `storage.rs`: the storage layout on disk, its errors, the active-session
    lookup, format selection, the text rendering and the newest-first listing order;
  - `recorder.rs`: recorder errors, output truncation, session ids and names,
    command events and stopped sessions.
- `app/` is the command-line program: argument parsing, file I/O, JSON/YAML
  serialization, command execution and floating-point formatting of durations.
- `tests/` exercises the library.
