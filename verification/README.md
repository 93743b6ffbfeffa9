# chessnetwork

A bitboard chess engine and its web front ends, written as a Verus library
with proved contracts, plus a thin program around it.

`src/` (verified with Verus):

- `bits`, `constants`: bitboard facts (lowest square, population counts) and
  the board constants.
- `chess_move`: 16-bit move encoding with special-move data.
- `chessboard`: twelve piece bitboards, occupancies, castling rights and the
  en passant file; moving pieces; the JSON listing.
- `board_invariant`: the consistency of a board (occupancies are the unions
  of the bitboards, no square on two bitboards) and its preservation.
- `movegenerator`: pseudo-legal and legal move generation, attack tests.
- `heuristics`, `engine`: evaluation (material and weighted heuristics),
  transposition table, killer-move ordering, alpha-beta search.
- `game`: a game with an undo stack.
- `zobrist`: Zobrist keys, full hashes and incremental updates.
- `session`: the decisions of the axum server (possible moves of a square,
  move requests, the engine's reply).
- `tuning`: weight sets, the round-robin schedule and engine-vs-engine games
  for self-play tuning.
- `config_loader`: the memory and weight settings of `config.yml`.
- `board_history`: the board with a history stack used by the actix front end,
  its move generator, evaluation, query-string requests and single-search
  engine.
- `display`: text pictures of bitboards and boards.

`app/` runs the axum server (default), the actix front end (`classic`) and
the tuner (`tune`); it does the I/O, the locking and the floating-point
bookkeeping of the tuner.

`tests/` exercises the library on concrete positions and requests.
