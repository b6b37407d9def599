# Rinha de Backend leaderboard

The leaderboard of the Rinha de Backend 2026 challenge. Results are posted as comments on
closed GitHub issues; the best result of every user is kept, and users are ranked by score,
with the lower p99 first where scores are equal.

- `src/` is the library, verified with Verus. It decides and computes; it reads neither the
  network nor the cache nor the clock. Where something has to be read or written, it returns
  a step, and goes on from the outcome of that step.
  - `pages`, `issue_result`, `metadata`, `assemble`, `fetch`: the steps of a refresh.
  - `ranking`, `standings`: how entries compare, and what holds of every leaderboard.
  - `changes`, `state`: what a refresh changes, and what is said of it.
  - `render`, `template`, `markup`, `figures`, `clock`: the page.
  - `entry`, `number`, `nearest`, `digits`, `double`: from a report to an entry. Numbers are
    held by their IEEE 754 bits.
  - `block`, `urls`, `text`, `config`, `model`, `rewalk`: the rest.
- `app/` is the service around it: HTTP, the SQLite cache, the JSON that travels.
- `tests/` runs the library on examples.
