# groks_fantasy

A fantasy-football manager whose decision logic is a verified library.

- `src/` — the library, verified with Verus:
  - `text` — string helpers with specifications (trimming, lines, splitting,
    case, decimal numbers, truncation, feeds' tag search);
  - `types` — positions, statuses, strategies and the league model;
  - `lineup` — the greedy lineup, the lineup request, reading a proposed
    lineup, fallbacks;
  - `draft` — the draft request, suggestion parsing, snake-draft turns, draft
    watching;
  - `waiver` — the waiver requests, pickups by name, ranking free agents
    against the roster;
  - `providers` — ESPN, Sleeper and Yahoo data turned into the league model;
  - `news`, `scheduler` — feed reading, relevance, the shared snapshot;
  - `config`, `anthropic`, `ffi`, `server`, `ui` — settings, the assistant's
    replies, client records and checks, the front-end's keys, tabs and status.
- `app/` — the `ff` command line: HTTP, JSON and YAML, floating-point figures,
  and the loops that feed the library and print its answers.
- `tests/` — tests of the library on concrete values.
