# picoshrink

A small desktop tool that compresses PDF files with Ghostscript.

- `src/` is the verified library: path handling (`path`, `prefix`), the
  decisions about files and sizes (`compression`), finding and invoking
  Ghostscript (`ghostscript`), the values describing a run (`models`) and
  the application's state machine (`app`), with shared text helpers
  (`text`), and the reading of `PATH` lists (`path_list`). Processes, files, the environment and the window are reached
  only through closures and values that the caller supplies.
- `app/` is the window (egui/eframe), the file dialogs (rfd), the icon
  (image), and the calls to the system: running Ghostscript, reading file
  sizes, reading `PATH`, the worker thread.
- `tests/` checks the library on concrete values, including comparisons
  with `std::path` and with floating-point formatting.

Paths are read in either syntax (`PathSyntax`), as `std::path` reads them
on Unix or on Windows: on Windows a path may start with a prefix (a drive,
a share, a device or a verbatim prefix, see `prefix`), both `/` and `\`
separate components (only `\` after a verbatim prefix), and `==` on paths
compares prefixes by their parsed parts. The application state carries the
syntax of the system it runs on. `PATH` is split at `:` on Unix and at `;`
outside double quotes on Windows, as `std::env::split_paths` does.
