//! A bitboard chess library: board representation, move encoding and
//! generation, position evaluation, game bookkeeping and search, Zobrist
//! hashing, the web server's request decisions, self-play tuning of the
//! evaluation weights, and a second board model with a history stack.
pub mod bits;
pub mod constants;
pub mod chess_move;
pub mod chessboard;
pub mod movegenerator;
pub mod heuristics;
pub mod engine;
pub mod game;
pub mod zobrist;
pub mod session;
pub mod tuning;
pub mod config_loader;
pub mod board_history;
pub mod display;
pub mod board_invariant;
pub mod move_laws;
