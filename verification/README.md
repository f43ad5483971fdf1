# duck_search

The board and the search of a duck chess engine, verified with Verus.

In duck chess a move has two parts: a piece move, and a new square for the duck,
which blocks whatever it stands on or between. The king is captured like any other
piece, and a side without a legal move wins.

- `src/common`: squares, sets of squares, moves, how pieces reach across the board.
- `src/board`: the board, its tables and keys, check and the squares that parry it.
- `src/rules.rs`, `src/position.rs`: what the rules say of a board, and a game in
  progress.
- `src/search`: move ordering, the alpha-beta search, the quiescence search,
  iterative deepening, and how the threads leave a search. `model.rs` says what a
  search computes; `picking.rs`, `frames.rs`, `records.rs`, `exposure.rs` and
  `outcomes.rs` prove what holds of every search.
- `src/tree.rs`: a game given by its moves and a notebook to search it with.
- `app`: runs the search on several threads.
