# snowrun

A headless runner for the Snow emulator, with its decisions verified in Verus.

A run boots a ROM with an optional SCSI disk, a disabled mouse and a pinned real-time clock, so
that runs are repeatable. Keys move at scripted emulated times, the screen is recorded at regular
intervals, and guest RAM, the last instructions and the last A-line traps can be written at the
end.

- `src/` is the library: reading key presses, vectors and the date, the key script, the mirror of
  what the emulator reports, the schedule of a run, and the listings and screenshots it writes.
  Every function has a contract that Verus proves. The two calls into other crates, chrono for
  dates and png for screenshots, stand behind small wrappers with stated contracts.
- `tests/` runs the library on concrete values.
- `app/` is the program: the command line, files, the emulator and floating-point time.
