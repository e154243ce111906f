//! A verified Othello (Reversi) rules engine on 64-bit bitboards.
//!
//! The board is a pair of disjoint 64-bit occupancy masks, one per side.
//! Legal-move generation and move application are done with bit-parallel
//! directional ray casts; their contracts state, cell by cell, which moves
//! are legal and which discs a move flips.

pub mod bits;
pub mod board;
pub mod color;
pub mod coordinate;
pub mod symmetry;
