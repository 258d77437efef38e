//! A chess position engine that keeps four independent positions side by side
//! in four-slot bitboard vectors and advances them in lockstep.
//!
//! - `lane`: four-slot bitboards, masked shifts, floods, leaper patterns.
//! - `board`: the nine bit-planes of four positions and batched moves.
//! - `fen`: a board from a FEN record.
//! - `movegen`: attack maps for all slots, move lists for one slot.
//! - `eval`: static scores for all slots.
//! - `search`: the greedy four-wide search.
//! - `notation`: square and move names.

pub mod lane;
pub mod board;
pub mod movegen;
pub mod fen;
pub mod eval;
pub mod search;
pub mod notation;
