# Jay

A terminal project manager, git-like: one `.nest/` folder per project, plain
TOML inside, the same data for people (the CLI) and for agents (an MCP server).

The rules of the project are a library verified with Verus. Everything that
touches the disk, the network, the terminal or another process is a thin
program around it.

## Layout

- `src/` is the library. It works on values in memory: records, file texts,
  replies. Every function states what it returns.
  - `model` holds tasks, knowledge entries and the task lifecycle.
  - `service` holds the one mutation layer: patches, reports, completion,
    dependencies, readiness, moves and the project context.
  - `diag` inspects a project, file by file, and repairs known legacy data;
    `repair` states what that does to a project as a whole.
  - `knowledge` holds the knowledge base: the current summary and its
    freshness, supersession, filters and the figures of a search.
  - `project` and `tasks` resolve folders, plan a new project, and name files.
  - `gitflow` and `forgejo` decide what the optional git integration does and
    what is recorded of it.
  - `cli` and `mcp` hold what commands and tools decide and show.
  - `doc`, `json` and `clock` stand between the library and the crates `toml`,
    `serde_json` and `chrono`; `text`, `order` and `graph` are what the rest is
    built on.
- `tests/` runs the library on concrete projects.
- `app/` is the program: files, locks, git, HTTP, the terminal, the MCP server,
  the serialised form of the records, and the floating-point part of search
  ranking.

## What is proved

Each public function's contract says what it gives back for every input. What
holds across functions stands beside them as proof functions named `law_...`:
a closed task is backed by its own report, reopening keeps what was recorded,
dependencies and supersessions stay free of cycles, a rewritten file loses no
unknown field, a repair changes nothing else and is done after one run, work is
listed as ready exactly when it is, and others of the kind.

The calls into other crates are trusted. Each stands in a function of its own
whose comment says what is taken for granted.
