# atref

A global file-reference picker: a chord summons a fuzzy picker over the
configured folders, and Enter inserts `@"<absolute path>"` at the caret of the
app that had focus. The same binary is a small JSON CLI that agents use to
read and change `config.json`.

## Layout

- `src/` — the library, verified with Verus:
  - `config` — the configuration and its validation rules;
  - `cli` — argument dispatch and the rules that read and change the
    configuration (the caller reads and writes the file);
  - `index` — building the index from a directory walk, and the display
    strings of an entry; `path` and `text` hold the path and string helpers;
  - `search` — fuzzy filtering, frecency- and folder-aware ranking, and
    mapping match positions onto a row's displayed strings;
  - `frecency` — pick count times a bucketed recency weight;
  - `enrich` — size, line and token counts and thumbnails, never reading a
    cloud placeholder or a file over its cap, and the bounded result cache;
  - `store` — the decisions of the persistent store (schema upkeep, picks,
    pruning);
  - `watch`, `win32`, `picker`, `reference` — the reload filter, picker
    placement, the picker's frame decisions, and the inserted reference.
- `app/` — the program around it: file, console and database I/O, the
  directory walk, the file watchers, the global chord and caret insertion.
- `tests/` — tests of the library.
