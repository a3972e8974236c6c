# diwa

diwa turns a repository's git history into a searchable knowledge base: a
language model reads commits and diffs and extracts the decisions, learnings
and patterns in them; the insights are stored in SQLite with a keyword index
and embeddings, searched in a hybrid ranking, and periodically reflected on
across the whole history.

## Layout

- `src/` — the library, verified with Verus. Every executable function has a
  contract over a mathematical model (`Seq<char>` for text, `Seq`/`Map` for
  collections); the laws the library keeps are public proof functions.
  - `text`, `numbers`, `order`, `lemmas` — text primitives (`lines`, `split`,
    `trim`, `replace`, byte lengths), decimal numbers, the order of strings
    and a verified sort, and shared lemmas.
  - `git`, `github`, `extract`, `reflect`, `deep_search`, `db` — reading git
    output, batching and filtering commits, PR enrichment, the prompts sent
    to the model, reading its answers back into insights, and the full-text
    query; one more module locates JSON in the model's answers.
  - `hooks`, `shadow`, `manifest`, `migrate`, `daemon` — the git hook text,
    stale binaries on `PATH`, the registry of repositories, migrations and
    the launchd agent.
  - `staleness`, `slug`, `release`, `cli`, `browse` — index freshness, repo
    names, release checks, the commands' decisions and texts, and the
    browser's key handling.
  - `indexing` — where an indexing run starts, the registration of the repo,
    and when the recorded last-indexed commit moves.
- `tests/` — tests run against the compiled library.
- `app/` — the `diwa` program: argument parsing, processes, files, SQLite,
  embeddings (floating point), the terminal UI and the daemon loop. It reads
  and writes files and runs processes, and hands what it read to the library
  for the decisions and the texts. What stays there besides I/O: the
  floating-point ranking of search results, and parsing model answers into
  the program's serde types.

## Design notes

- **Reflections** regenerate every seven days, whatever the number of
  insights; no model call per commit decides whether to reflect.
- **Deep search** is a research loop: it searches the user's query, then
  asks the model for one step at a time (`search <query>`, `git_show <sha>`,
  `read_file <path>` or `answer`, read from the first line of its reply),
  at most `deep_search::MAX_STEPS` (10) times; each step's result becomes a
  note in the next prompt. The insights found are merged (first seen kept),
  the model writes the answer from them, and the commits whose short sha
  the answer names are listed under it.
- **Collections.** The registry of repositories (`manifest`) and the merged
  deep-search insights keep `Vec`s rather than hash maps. A map keyed by a
  `String` gives the verifier nothing to reason with, so the registry is a
  vector of `(slug, path)` pairs under the invariant that no slug occurs
  twice, and its view is the `Map` from slug to path. The merged hits keep
  the order in which they were first seen, which a hash map (walked in no
  fixed order) would not give, and hold each id once.
- **Indexing** lists the commits after the recorded last-indexed commit and
  skips those the index already holds insights for
  (`indexing::law_indexing_idempotent`: nothing left is indexed twice, and
  once everything left is stored nothing remains);
  `indexing::law_rerun_starts_after_indexed` states that a run in which
  every batch was stored leaves the record on its last commit.
- **Repository resolution** (`app/repo.rs`, `slug::github_owner_repo`) reads
  the owner and name from the `origin` remote's GitHub URL; its behaviour
  was designed for this project and is checked only by its own tests.
