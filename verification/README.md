# logv

The core of a viewer for large log files, written in Verus: every function of the library
carries a contract, and Verus proves that the code meets it.

## Layout

- `src/interval.rs`, `src/decimal.rs`: intervals of offsets and how they are written.
- `src/data_source/`: texts held in memory, the registry of line breaks, reading lines and
  words forward and backward, moving by chars and tokens, and `filtered/`: the mapping of
  offsets between a filtered view and its source, and a reader that keeps only the lines near
  a match.
- `src/search/`: plain and regular-expression searches, and navigation from occurrence to
  occurrence.
- `src/highlight/`: highlights of search results, dates and custom patterns.
- `src/model/`: the state of the viewer (viewport, cursor, selection, scrolling) and of its
  dialogs (search, go to line, go to date, open file, progress, background processes).
- `src/profiles/`: descriptions of actions and hotkeys, and how profiles combine.
- `app/main.rs`: a line-oriented front end that reads files and prints what the model shows.
- `tests/`: tests that run the library on concrete inputs.

Outside crates: `regex` (regular expressions), `chrono` (dates), `yaml-rust2` (profiles),
`linked-hash-map` (the background processes). Each
call into them stands behind a small trusted function whose contract is stated next to it.
