# electronix

The core of the ElectroniX reliability workbench backend, written in Verus.

- `src/session.rs` — session folders, session ids, and what a session folder holds
- `src/jobs.rs` — the paths and arguments of the helper runs (import, point cloud,
  solver, quick solve), the `.pcsim` load deck, and the texts of a helper run
- `src/pcprep.rs` — readers of the `.pcprep` point-cloud text
- `src/pcres.rs` — reader of the `.pcres` binary result format
- `src/paths.rs` — paths through `std::path`, relative paths
- `src/text.rs` — character-sequence helpers (trim, split, search, replace, numbers)
- `app/` — the Tauri shell: environment, files, processes, progress events and commands
