# promptr

A prompt catalog: XML fragments composed into prompts, searched, rendered and kept in a
SQLite store. The library under `src/` is verified with Verus; `app/` is the command-line
program around it.

## Layout

- `src/domain/` — nodes, metadata, the catalog graph (acyclic, closed references),
  rendering, occurrence counts and search queries.
- `src/application/` — the runtime that interprets a checked program: preconditions,
  fragment preparation, queries, write transactions, search ranking and output bytes.
- `src/config/` — the configuration schema, validation, layering with provenance,
  environment variables, reading a parsed document (schema version, upgrades,
  unknown keys) and file migration rules.
- `src/store.rs` — how stored rows become nodes, and which databases can be used.
- `src/tui/` — the terminal interface as a state machine: layout, input mapping, the
  reducer and its effects, themes and terminal capabilities.
- `src/editor.rs` — fragment editing strategies and the external editor's command.
- `src/cli.rs` — decisions of the command line.
- `src/repl.rs` — the interactive session, one input event at a time.
- `src/laws.rs` — properties that span several operations.
- `app/` — argument parsing, files, the process environment and SQLite.
