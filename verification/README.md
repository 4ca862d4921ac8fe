# cgarena

The verified core of CG Arena, a local workbench for CodinGame bot authors.
`src/` is a Verus library: every function there is proved against its
`requires`/`ensures`. `app/` is the command-line program around it (files,
processes, SQLite, ratings in floating point). `tests/` runs the library.

## What is shown

- **Evaluation** (`evaluation`): configuration checks with one named error
  each; `schedule_candidate` picks exactly the first unfinished stage, the
  least-played player count, the least-encountered benchmarks and the next
  seed; in an asymmetric game its matches are all n! distinct seat orderings
  of the lineup (`orderings::all_seat_orderings`). `generate_seed_suite`
  gives 100 distinct seeds.
- **Matchmaking** (`matchmaking`): the V2 decision (`v2_decision`) and the V1
  pick; a match is filled with candidates up to the drawn player count, or
  holds every candidate; it has at most the game's maximum of players (or
  the decided pair) and, when the candidates' identifiers are distinct, at
  least its minimum; V1 always schedules when enough candidates exist.
- **Statistics** (`computed_stats`): per-pair tallies, error counts and
  example seeds agree with the recorded matches (`lemma_stats_agree_with_history`),
  tallies mirror (`lemma_pair_entries_mirror`, `lemma_history_tally_mirror`),
  example seeds are distinct and bounded (`lemma_example_seeds_shape`).
- **Replay files** (`replay_artifact`): a fresh replay is
  `replays/<uuid>.json`, reserved as `reserve` states.
- **Referee protocol** (`referee_adapter`): the exact argv of match and
  replay commands, CodinGame replay files to match results (through
  `serde_json`, named), result validation, messages of every error.
- **Managed referee** (`managed_referee`, `referee_flows`, `referee_checkout`):
  status, update refusals, install and update as state machines whose every
  step is specified (`install_transition`, `update_transition`), the Maven
  project adaptation on an XML tree (`adapt_pom`), read and written through
  `xmltree` (`adapt_pom_source`), and that a second adaptation adds nothing
  (`lemma_adaptation_adds_nothing_twice`).
- **Runtime** (`runtime`): activation plans and their recovery; a failed
  activation restores exactly the backups it took
  (`lemma_recovery_restores_backups`).
- **Replays, retrieval, storage** (`replay_artifact`, `replay_viewer`,
  `match_retrieval`, `db`): replay paths stay in the replay directory,
  assets are served with their media type, rows become matches, a build row
  round-trips (`lemma_build_row_round_trip`).

Outside crates are reached only through small trusted wrappers whose
contracts name or state what the crate's source shows (`paths`, `random`,
`text`, and one per call elsewhere).
