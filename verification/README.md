# fast_jump

The logic of `fj`, a fuzzy directory jumper, as a Verus-verified library, with
the terminal program around it.

- `src/engine/score.rs`: depth penalty and the redundancy test for child paths.
- `src/engine/db.rs`: the frecency database (visits and last visit per path),
  frecency ranks, recording a visit and pruning to the highest-ranked paths,
  scoring database paths against a query.
- `src/engine/walker.rs`: scoring one walked directory, the listing order, and
  the aggregator that keeps the best matches of a search.
- `src/engine/matcher.rs`: the call into `fuzzy_matcher`'s skim matcher.
- `src/engine/mod.rs`: engine commands and the decision taken for each.
- `src/app.rs`, `src/cli/`: the picker state, key handling and the result list
  as drawn.
- `app/`: the program: argument parsing, terminal drawing, threads, channels,
  the disk walk and reading and writing the database file.
