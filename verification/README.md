# hope_core

The core logic of the Hope Agent desktop assistant, written in Verus. The
functions in `src/` carry contracts that Verus proves; the few small functions
that call the clock, `std`'s Unicode tables or an outside crate
(`dirs`, `uuid`, `chrono`, `url`, `serde_json`) are marked
`#[verifier::external_body]`, and their contracts are trusted.

## Layout

- `src/` — the verified library.
  - `failover` — classifying model errors, retry decisions and delays.
  - `plan`, `questions` — plan mode: states, step parsing, plan files and their
    versions, the per-session plan store, and the questions awaiting answers.
  - `skills`, `catalog` — SKILL.md frontmatter parsing, requirement checks, the
    skill catalog and the skills prompt.
  - `process` — the registry of background shell sessions and their output.
  - `provider`, `proxy` — model references, API key masking, the built-in
    Codex provider, proxy selection,
    `scutil` output, loopback detection.
  - `session`, `memory`, `memory_prompt`, `memory_export`, `memory_sql`,
    `extract`, `embedding` — chat messages, memories (types, import and export,
    the prompt summary, the SQL that reads them, extraction from a
    conversation), embedding model presets and how a re-embedding run is split.
  - `logging` — log levels, records, queries, log files and the background
    writer's batching.
  - `searxng` — the local search container: settings file, deployment steps,
    status report; and the command sandbox's container settings.
  - `cli`, `menu_labels`, `paths` — launch modes and subcommand options, menu
    labels and language detection, the data directory layout.
  - `keyed`, `text` — a keyed store and the text helpers the rest relies on.
- `tests/` — tests of the library.
- `app/` — the executable around it: arguments, files, processes, Docker and
  HTTP calls, serialization.
