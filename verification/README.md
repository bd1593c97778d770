# chess_engine_api

A chess engine and a small chess game server, written in Verus: the engine's logic is
executable Rust whose behaviour is stated in `requires` / `ensures` contracts and proved.

## Layout

- `src/` — the verified library.
  - `bitboard`, `attacks`, `position`, `fen`, `movegen`, `makemove`, `legal`: the bitboard
    position, FEN reading and writing, pseudo-legal and legal move generation.
  - `perft`: leaf counts of the legal move tree, with a divide and a suite of known counts.
  - `evaluation`, `evaluation_v3`, `see`, `move_ordering`, `search`, `transposition`,
    `time_manager`, `opening_book`: evaluation, static exchange, ordering, alpha-beta search,
    transposition table, time allocation and the opening book.
  - `uci`: the UCI command interpreter (its input loop lives in `app/`).
  - `pgn`, `text`: PGN games, SAN, and the text utilities everything above uses.
  - `chess`: the simple board, moves and game the HTTP API plays on.
  - `api`: the API's request and response types and its handlers, free of HTTP.
  - `architecture`, `analysis`, `tournament`, `testing`, `test_suite`, `search_mcts`: the
    byte-board layout, analysis and tournament records, engine matches and test suites.
  - `fen_roundtrip`: the proof that reading a position's FEN gives the position back.
- `tests/` — tests of the library on concrete positions.
- `app/` — the server (axum), the UCI loop, perft and suite runners, the floating-point
  Elo tournament, and the loop that plays engine-version games through the library's
  tournament steps.

Run the server with no arguments, or one of `uci`, `perft <depth> [fen]`, `perft test`,
`test-suite`, `tournament`, `engine-tournament`.

## What is not here

- The later alpha-beta versions (null move and late move reductions, aspiration windows and
  razoring, multi-cut and internal iterative deepening) evaluate positions with a second
  evaluator whose source is not part of this project's tree, so only the first alpha-beta
  engine plays; a game that asks for another version stops with a message.
- The Monte Carlo tree search, the neural-network evaluator and the ensemble that combines
  them compute with floating point throughout (visit statistics, UCT scores, network
  weights), which the verified library does not hold; only the search limits and counters
  are kept.
