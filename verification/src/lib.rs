//! Core of a chess engine: bitboard position representation, magic-bitboard
//! move generation, Zobrist hashing, tapered evaluation, a lockless-style
//! transposition table and an iterative-deepening alpha-beta search.

pub mod bits;
pub mod bitboard;
pub mod moves;
pub mod rng;
pub mod zobrist;
pub mod params;
pub mod magic;
pub mod tables;
pub mod gamestate;
pub mod movegen;
pub mod eval;
pub mod lockless;
pub mod search;
