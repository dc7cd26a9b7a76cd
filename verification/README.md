# samefile_finder

Finds duplicate files under a folder: files are first grouped by size, then
narrowed by a cheap fingerprint (MD5 of the size and of the whole content,
or of its first and last 64 KiB for files over 128 KiB), and finally grouped
by the MD5 digest of their whole content. Fingerprints and digests are kept
in a SQLite cache keyed by path, size and modification time; one cache
database in the user's cache folder is shared by every target, and an older
per-target database found in a target is merged into it. Where that shared
database lives (`%LOCALAPPDATA%`, `$XDG_CACHE_HOME` or `~/.cache`) is decided
by the library from the environment values the program reads.

Layout:

- `src/` is the library, verified with Verus: the size, fingerprint and
  digest stages, the cache rules, the folder walk (driven one folder listing
  at a time), the order of a run as a state machine, where to stop when the
  run is canceled, and the viewer's state: its log, result list, CSV report,
  keep marks, folder buckets, sorting, filtering and the reclaim plan. Calls
  into `md5` and into std's `Path` stand behind small trusted wrappers whose
  contracts say what they promise. What std's `Path` answers is stated for
  plain `/`-separated paths (no `\`, no `:`, no `.` or `..` components), where
  every platform agrees; for other paths the contracts of the folder
  buckets, the sort order, the badges and the reclaim destinations hold over
  whatever `Path` answered.
- Grouping by (size, key), the keep marks and the folder buckets are kept
  in vectors searched or ordered by the library's own verified code, with
  their invariants (no key twice, sorted order) stated. Verus proves next to
  nothing about std's `HashMap`, `HashSet`, `BTreeMap` or `BTreeSet` when
  the keys are strings or byte vectors, so those are used only where the
  keys are integers (the size counts).
- `app/` is the desktop program (eframe/egui, rfd dialogs, rusqlite cache,
  the worker thread and all disk access). It drives the library and draws
  its state.
- `tests/` exercise the library on concrete values.
