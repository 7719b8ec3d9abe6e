//! Bitboard-based model of a chess position: 64-bit occupancy boards,
//! algebraic square notation, per-piece pseudo-legal attack generation,
//! a move apply/undo protocol, and a decoder for the standard text notation.

pub mod attack;
pub mod bitboard;
pub mod board;
pub mod error;
pub mod movegen;
pub mod parse;
pub mod piece;
pub mod position;
pub mod square;
