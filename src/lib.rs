//! A Xiangqi (Chinese chess) engine core: board state with incremental
//! hashing and evaluation, move generation with legality filtering, a
//! transposition table and an alpha-beta searcher.

/// Piece codes.
pub mod piece;
/// Sides and outcomes.
pub mod condition;
/// Move descriptors and their algebraic form.
pub mod chess_move;
/// How each piece moves, and attack tests.
pub mod rules;
/// The position: make, unmake, legal moves, outcome.
pub mod board;
/// Tapered evaluation and the piece-square tables.
pub mod eval;
/// Search constants.
pub mod parameters;
/// The transposition table.
pub mod tt;
/// The searcher.
pub mod search;
/// Chinese move notation and the board's text picture.
pub mod notation;
/// The piece-square table file.
pub mod pst_file;
/// Replaying recorded games.
pub mod ingest;
