# myopic

The search and evaluation core of a chess engine, written in Verus. Verus
checks every function under `src/`; the public ones carry contracts that
say what they return or change, while some private helpers carry none and
are only checked to be free of overflow, out of bounds access and panics.

What is here are the decision steps of the searches (what a table entry
means, how deep to search a move, how a response changes the window, when
to stop), not the recursive searches themselves, nor the evaluator that
combines the facets: those walk a chess position, whose board and move
generation are not part of this library.

- `src/base`: squares, directions, bitboards, pieces and their attacks,
  magic numbers for sliding attacks, position hashing, reflection of the
  board, and the geometry of mirrored rays, slides and cords.
- `src/brain`: moves, the evaluation facets (piece-square tables, material,
  phase, castling, development, knights on the rim, pawn structure), static
  exchange evaluation, the interactive search protocol, quiescent move
  ordering and the transposition table.
- `src/hyperopic`: the second search: move classification for search
  extensions, negascout and principal variation bookkeeping, transposition
  tables with their replacement policy, king safety counts, castling and
  development facets, and the laws that mirroring the position keeps.
- `src/matchmaking`: choosing an opponent to challenge and answering the
  events of the bot account.
- `app/`: what the proofs do not reach: the floating point evaluation
  terms, the thread that serves the interactive search, and the calls to
  the lichess service around the matchmaking decisions.
- `tests/`: tests of the library on concrete positions and games.

The laws of the library are public proof functions whose names begin with
`lemma_`; for instance `lemma_tables_unmake_undoes_make`,
`lemma_passed_pawn_mirror`, `lemma_safety_mirror` and `lemma_see_mirror`.
