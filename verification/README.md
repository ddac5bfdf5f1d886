# minilauncher

A fancy and minimalistic application launcher. The crate in `src/` is its
core, verified with Verus; `app/` is the program around it (command line,
daemon socket, configuration files and watcher, application cache, and the
user interface).

Modules of the library:

- `text`, `path`: string and Unix path operations with exact specifications
  (white space, splitting, substring search, `PathBuf::push`,
  `Path::file_name`, `Path::extension`).
- `string_map`: a string-keyed map that keeps insertion order.
- `entries`, `entries::freedesktop`: launcher entries, the desktop-file
  parser (locale keys, visibility rules, keywords), and the collection of
  entries by name.
- `commands`: the argument vector of an entry's command and the default
  terminal.
- `state`: the keyword index of the entries and the search (substring
  filtering, fuzzy ranking by descending score, limit).
- `daemon`, `ipc`: daemon decisions and messages.
- `paths`, `config`: configuration paths, values, defaults, colors in
  hexadecimal notation, and the reaction to file-system events.
