//! Chess rules: board representation, FEN placement parsing, pseudo-legal and
//! legal move generation, attack detection and the click-driven game state.

pub mod board;
pub mod chess_laws;
pub mod fen;
pub mod fen_laws;
pub mod game;
pub mod laws;
pub mod moves;
pub mod piece;
pub mod rules;
pub mod tables;
