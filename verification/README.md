# risk

The rules of a Risk-style territory game, verified with Verus.

- `src/` is the verified library:
  - `ratings` — a player's star ratings from their statistics;
  - `roll` — the nightly roll: who owns each territory after a turn's moves,
    the MVPs, the statistics of each team and their ranking;
  - `moves` — whether a move is allowed, its multiplier and power, and who
    may join which team;
  - `api`, `auth`, `cases`, `error`, `sys`, `team`, `player` — the checks,
    defaults and answers of the web API;
  - `rng`, `text` — the calls into `rand`, `uuid`, `urlencoding` and std
    whose results the contracts name or bound.
- `tests/` runs the library on concrete values.
- `app/` is the program around it: the nightly roll against the database
  (including the weighted draw among the teams on a contested territory,
  which works on floating-point powers) and the web server.
