//! A verified chess rules engine.
//!
//! The engine computes, for a board position and its auxiliary state (turn
//! owner, castling rights, en-passant target, pending promotion), the full
//! set of pseudo-legal moves, and applies a chosen move to produce the next
//! position.  Moves are pseudo-legal: a move is not filtered for leaving the
//! mover's own king attacked, and there is no checkmate or stalemate
//! detection.
//!
//! The heart of the specification is the predicate
//! [`produce::move_allowed`], which says declaratively which moves are legal
//! in a given game state.  The generator [`produce::generate_moves`] is
//! proved to return exactly the allowed moves, and the applier
//! [`amend::move_piece`] is proved to rewrite the board square by square as
//! the rules demand.

pub mod amend;
pub mod board;
pub mod constants;
pub mod game;
pub mod laws;
pub mod listener;
pub mod piece;
pub mod produce;
