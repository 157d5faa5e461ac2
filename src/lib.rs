//! A bitboard chess engine: position model, move generation, static
//! evaluation and alpha-beta search, with their behaviour proved.

pub mod bits;
pub mod pieces;
pub mod generators;
pub mod moves;
pub mod position;
pub mod board;
pub mod castle;
pub mod fen;
pub mod evaluator;
pub mod generate;
pub mod search;
