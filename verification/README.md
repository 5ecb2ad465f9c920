# smartkey

Playback engine of a key-macro player for combo charts (wwcombo `ComboChart` format):
a chart is cut into its startup and loop axes, each step becomes a timed key or mouse
press, and a semi-automatic mode lets the player's own switch keys drive the segments.

- `src/` — the verified library (Verus): chart model and period selection (`chart`),
  key bindings, held-key ledger and wait arithmetic (`input`), keyboard-hook decisions
  (`listener`), the full-playback schedule and its round-by-round decisions
  (`scheduler`), character segments and the semi-automatic run (`semi`), chart library
  naming and ordering (`store`), character-level string helpers (`text`).
- `app/` — the Windows front end around it: JSON parsing with serde, `SendInput`,
  the keyboard hook and hotkeys, playback threads that perform the library's
  schedules, files on disk, the command line tools and the Tauri shell.
- `tests/` — tests of the library.

Times are whole milliseconds in the library; the JSON model's fractional milliseconds
are rounded when a chart is handed over.
