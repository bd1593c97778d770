pub mod board;
pub mod moves;
pub mod piece;
