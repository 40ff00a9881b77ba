# atlas

Maps a directory tree into a report (a sorted tree of files and folders,
counts per extension, read warnings) and renders it as Markdown, as an
interactive HTML page and as the start page of a local server; it also holds
the decisions of an interactive terminal screen.

- `src/` is the verified library (Verus). `scanner` turns what was read from
  the file system into the tree, metrics and warnings; `metrics`, `node`,
  `warning` and `report` are the data model; `render` and `server` build the
  pages; `cli` and `session` check the input and assemble the report; `tui`
  holds the form editing, screen transitions, texts and layout arithmetic;
  `console` holds the lines that the `serve` command prints; `laws` states
  and proves the properties that span these operations.
- `app/` is the program around it: argument parsing, reading the file system
  and the local clock, the HTTP server, terminal drawing and the event loop.
  The server answers `/` with the interactive page, `/api/tree` and
  `/api/summary` with JSON, and `/download/html`, `/download/json` and
  `/download/markdown` with the exports. The page's stylesheet and script,
  and the splash screen's picture, are read at run time from `assets/`
  (`style.css`, `app.js`, `atlas.png`) in the working directory.
- `tests/` exercises the library on concrete values.
