# glas

The `glas` command-line tool for GlassHouse projects, its installer and its
uninstaller, written as a Verus library with a thin program around it.

- `src/` is the library, verified by Verus: argument parsing, the JSON reader
  and writer, paths and their order, the audit, the lint and test runners'
  programs and reports, the dev server's routing, cache and watcher, the
  build's programs and bundles, the package registry, upgrades and installs,
  the release list, and the scripts and registry entries of the installer.
  `src/laws.rs`, `src/json_laws.rs` and `src/json_roundtrip.rs` hold the
  properties that span several operations.
- `app/` is the program: it reads the file system, runs QuickJS and the
  shell, serves HTTP, and prints what the library computes.
- `tests/` runs the library on concrete values.
