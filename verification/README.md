# Voloph

The rules behind a badminton recording review app, as a verified library: the
metadata store, the two libraries and their scans, timelines and annotations,
sharing a session's review between devices, published machine analyses, the
background work queue, exports, and the scoring of drafts against hand-corrected
timelines.

- `src/` holds the library. Every operation on the store says in its contract what
  the store is afterwards, as a function of what it was. `src/upkeep.rs` shows that
  all of them keep the store's invariant, and `src/laws/` states what holds across
  operations: reading back what was written, doing a thing twice, moving files,
  never overwriting a user's own work.
- `tests/` runs the library on concrete cases, with disks kept in memory.
- `app/` is the program around it: the SQLite database, the file system, `ffmpeg`,
  the person detector, the player, and the interface's commands.

Confidences are kept in billionths, waveform peaks as the texts of their numbers,
and rates and medians as exact fractions; `app/` converts to and from floating
point.
