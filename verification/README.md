# mphotopicker

Picks photos by name: a pasted list of names is matched against the files of
a source folder, ignoring extension and case, and the matching files are
copied to a destination folder, keeping the originals.

- `src/` is the verified library (Verus): name normalisation (`request`),
  path stems and extensions and free-name search (`path`), extension modes
  (`exts`), matching (`matching`), copy decisions and the report
  (`outcome`: the plan for each matched file, the record of the copy phase
  with its progress reports, and the report), a whole run as a state
  machine that asks its caller for each folder operation and states what the
  run reports (`run`), text helpers (`text`), and the library's laws
  (`laws`, and `case_laws` for letter case). Paths follow the platform's
  rules, given as a `PathStyle` (Unix or Windows, prefixes included).
- `app/` is the desktop shell: the JSON forms of the types, the loop that
  does what a run asks of the file system (folder checks, the walk, the
  copies), and the Tauri commands.
- `tests/` runs the library, including the end-to-end scenarios over an
  in-memory model of the folders.
