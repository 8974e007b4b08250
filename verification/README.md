# disk_cleaner

The planning and accounting core of a Windows system-drive cleaner, written in Verus
and verified.

- `src/rules.rs` — which folders a light, standard or deep scan covers, built from the
  system's locations (environment variables and the drive mask).
- `src/scan.rs` — the cleanup plan built from directory walks of the scan roots: cleanup
  items, Recycle Bins, suggestions, skipped entries, byte totals and progress records.
- `src/plan_laws.rs` — what holds of every plan a scan builds.
- `src/items.rs` — item ids and choosing plan items by id.
- `src/cleanup.rs` — a cleanup run as a session: it says which file operation to perform
  next and is told what happened; it keeps the report and the progress records.
- `src/restore_points.rs` — counting the restore points that `vssadmin` lists.
- `src/progress.rs`, `src/paths.rs`, `src/text.rs` — percentages, Windows path text,
  characters and digits.
- `app/` — the desktop application: it reads the environment, walks folders, deletes
  files, empties the Recycle Bin and runs `vssadmin`, handing the library plain values.
