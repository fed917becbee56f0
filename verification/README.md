# ultralog

The core of a viewer for engine-management (ECU) data logs, written in Verus:
executable Rust whose behaviour is stated in `requires`/`ensures` contracts and
proved.

## Layout

- `src/speeduino.rs` — reader for the Speeduino/rusEFI MegaLogViewer binary
  format (`.mlg`): header, field definitions (version 1 and 2), info metadata,
  and data blocks with timestamp wraparound. `Speeduino::parse_binary` is
  proved to return exactly what `spec_parse_mlg` describes; the header
  checks, the log's shape, the blocks read and their timestamps, and
  timestamp order are stated as laws.
- `src/loader.rs` — recognition of log formats that cannot be read, and the
  decoding of text logs (UTF-16 with a byte order mark, UTF-8 otherwise).
- `src/text.rs` — text helpers over characters: lossy UTF-8 decoding,
  trimming, searching, decimal formatting.
- `src/app.rs` — the application state: loaded files and their computed
  channel names, tabs, selected channels, stacked plot areas and toasts. Every operation is specified as a
  function on the abstract state `AppView`.
- `src/app_laws.rs` — what those operations keep: well-formedness, valid plot
  area contents, fresh plot area ids, and that removing a just-added channel
  restores the state.
- `src/shortcuts.rs` — keyboard shortcuts: the state change and the action
  left to the caller for one frame's keys.
- `src/indices.rs` — index-list updates used when selected channels are
  removed.
- `app/` — a command-line front end: file reading, memory mapping, threads,
  and everything that works on floating-point values.
- `tests/` — tests of the library on concrete inputs.
