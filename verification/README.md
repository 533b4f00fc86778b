# mmonitor

Reads local monitoring checks on macOS (Apple Silicon) and returns their
measurements as structured JSON; `collect` keeps a history in SQLite.

- `src/` is the verified library: the check catalog and its validation, the
  Nagios and `sw_vers` output parsers, metric normalization, the rules of a
  check execution (output limits, decoding, waiting, timeouts), the memory
  figures, the command line, and the rules of the history (due checks,
  `on_change` storage, check state, snapshot order, compaction buckets).
- `app/` is the program around it: reading the TOML file, starting processes,
  SQLite, JSON output, the native memory probe, and the arithmetic on
  floating-point metric values.
- `tests/` exercises the library on concrete inputs.
