pub mod board;
pub mod fen;
pub mod game;
pub mod moves;
pub mod piece;
