# localai_cli

A command-line and terminal client for the LocalAI HTTP API, with its logic
verified by Verus.

- `src/` is the verified library:
  - `discover` – the API description: its endpoints in path/method order, its
    tags, and the printed endpoint listing;
  - `table` – JSON responses as tables (column union, cell texts, widths);
  - `browser`, `input`, `actions`, `panels` – the terminal browser as a state
    machine: keys and events in, state changes and fetch requests out, plus
    the texts its panels show;
  - `cli`, `client` – routes of the subcommands, request bodies, query
    parameters, uploads, and how responses are read;
  - `json`, `text`, `order` – JSON values (read with `serde_json`), text
    helpers and a stable sort;
  - `laws` – properties that span several operations.
- `app/` is the `localai` program: argument parsing, files and standard input,
  HTTP with `reqwest`, and the terminal with `crossterm` and `ratatui`.
  It reads the API description from `doc.json` beside `Cargo.toml`.
- `tests/` exercises the library on concrete values.
