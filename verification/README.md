# canonic

A versioned corpus of Jira canned responses kept as markdown files: quality
rules, front matter, scaffolding and promotion of drafts, search and
near-duplicate helpers, lint orchestration, a terminal browser, and the
payloads of Jira's free platform REST API.

## Layout

- `src/` — the library, verified with Verus. Each module states its behaviour
  in `requires`/`ensures` contracts over mathematical models (`Seq<char>` for
  text, views of the data types), and the laws that relate several functions
  are public proof functions named `law_*`.
  - `text` — character-level text model (whitespace, lines, words, trimming,
    UTF-8 lengths) shared by the other modules.
  - `config` — id prefix normalisation and resolution, configuration checks.
  - `corpus` — front matter, tags, titles, ids of a response; ordering by id.
  - `check` — the quality gate (prefix, id, sop, personal sign-offs, duplicate ids).
  - `scaffold` — new check-clean responses and the promotion decision for drafts.
  - `convert`, `doctor` — pandoc invocation and the tooling report.
  - `lint` — the lint run as a state machine, Vale and Harper output readers,
    prose paragraphs.
  - `index` — tokens, query sanitising, snippets, self-queries, token overlap.
  - `json`, `jira_import` — a JSON model, ADF write/read, Jira URLs, payloads,
    drafts, probe and post outcomes.
  - `tui` — the corpus browser's state machine (keys, filter, selection, preview).
- `app/` — the command-line program around the library: argument parsing,
  configuration files, file and process I/O, HTTP, the Tantivy index, the
  terminal, and the in-process Harper engine.
- `tests/` — executable tests of the library.
