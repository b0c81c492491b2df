# cctide

A local gauge of a coding agent's token consumption, shown in the menu bar
(macOS) or system tray (Windows): the rolling 5-hour session quota, the weekly
limit, the context fill of each open session, project memory files, the fate
of each session's edits in git, and RTK savings. Everything is read from the
agent's local data folder; nothing is sent anywhere.

## Layout

- `src/` — the verified library (Verus). Transcript parsing and
  deduplication (`scan`), time windows (`usage`), session selection and
  ordering (`context`), model-table lookup (`models`), memory-file ordering,
  deletion checks and index rewriting (`memory`), git-log reading and outcome
  classification (`outcome`), notification state (`notify`), and small rules
  for the ticker, updates and RTK (`config`, `state`, `rtk`, `icon`).
  Calls into `chrono`, `serde_json` and `std::path` go through small trusted
  wrappers whose contracts are documented next to them.
- `tests/` — tests of the library.
- `app/` — the Tauri program around the library: file and process I/O, the
  window and tray, and the real-number arithmetic (quota weights,
  percentages, icon drawing).

The program finds the agent's data folder through the `CCTIDE_DATA_DIR`
environment variable (the dot folder the agent keeps in the home directory).
