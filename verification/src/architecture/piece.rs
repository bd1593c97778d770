use vstd::prelude::*;

verus! {

/// A square's content as one byte: a piece type code combined by `|` with a colour code.
/// `Piece::KING | Piece::WHITE` is a white king; `Piece::NONE` an empty square.
#[derive(Clone, Copy, PartialEq, Eq, Structural, Debug)]
pub struct Piece {
    pub value: u8,
}

impl Piece {
    pub const NONE: u8 = 0;
    pub const KING: u8 = 1;
    pub const PAWN: u8 = 2;
    pub const KNIGHT: u8 = 3;
    pub const BISHOP: u8 = 4;
    pub const ROOK: u8 = 5;
    pub const QUEEN: u8 = 6;
    pub const WHITE: u8 = 8;
    pub const BLACK: u8 = 16;
}

} // verus!
