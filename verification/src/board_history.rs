//! A second board model, the one the actix front end plays on: colors
//! are signed (+1 white, -1 black, 0 none), moves carry their two squares
//! as masks, and the board keeps a stack of earlier positions to take moves
//! back.
pub mod pieces;
pub mod mask_move;
pub mod board;
pub mod fixed_heuristics;
pub mod movegen;
pub mod requests;
pub mod evaluation;
pub mod search;
