# RustScope

A static analyzer for Rust projects: it counts blank, comment and code
lines, finds functions, structs, enums, traits, modules and impl blocks,
scores the complexity of each function, collects `use` dependencies, and
renders the result as a terminal report, a Markdown document or a
dashboard.

## Layout

- `src/` is the library, verified with Verus. Every public function states
  its result exactly over a mathematical model (`Seq<char>` for text, model
  structs for the analysis types):
  - `text`, `order`, `sort`: character-level text primitives, the string and
    `Path` component orders, and a stable sort with its laws;
  - `parser`, `metrics`, `dependency`: comment stripping, code items, line
    metrics, function complexity and `use` edges of one file;
  - `model`, `analyzer`: the analysis types, assembling per-file results
    into a project analysis (serially or from worker results in any order),
    and the laws that relate the two;
  - `report`, `tui`: the terminal and Markdown reports and the dashboard;
  - `cli`, `scanner`, `error`: command-line parsing, the choice and order of
    files to analyze, and the error type.
- `app/` is the `rustscope` program (`rustscope analyze <path> [--format
  terminal|markdown] [--output <file>]`, `rustscope <path> ...`, and
  `rustscope tui <path>` for the dashboard): directory walking, file
  reading, the worker threads, writing or printing the report, and the
  dashboard's prompt.
- `tests/` runs the library on concrete inputs.
