# process_dashboard

A terminal process dashboard whose decisions are verified with Verus.

- `src/` is the verified library:
  - `text`: substring search, Unicode trimming, decimal rendering, joining.
  - `process`: the process table rows, search matching, and the stable
    listing order for each sort mode (with the proof that it is unique).
  - `format`: memory sizes (rounded exactly as single precision rendering
    does), run times, disk traffic and owner labels.
  - `kill`: the soft/force kill protocol as a state machine driven by the
    caller (send signal, probe, sleep).
  - `ui`: input modes, the key handling state machine, selection clamping,
    footer tones and the once-only terminal restoration guard.
- `app/` reads processes with `sysinfo`, sends signals, sleeps, draws with
  `ratatui` and reads keys with `crossterm`; it runs the library's state
  machines.
- `tests/` exercises the library, including a comparison of memory labels
  with real `f32` formatting.
