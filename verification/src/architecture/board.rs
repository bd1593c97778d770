use vstd::prelude::*;
use crate::architecture::piece::Piece;

verus! {

/// A board of 64 squares, each a piece byte; square 0 is a1, square 63 is h8.
#[derive(Clone, Copy, Debug)]
pub struct Board {
    pub pieces: [u8; 64],
}

/// The piece type code on the first and last row, file by file.
pub open spec fn back_rank_code(f: int) -> u8 {
    if f == 0 || f == 7 {
        Piece::ROOK
    } else if f == 1 || f == 6 {
        Piece::KNIGHT
    } else if f == 2 || f == 5 {
        Piece::BISHOP
    } else if f == 3 {
        Piece::QUEEN
    } else {
        Piece::KING
    }
}

/// The starting position as piece bytes: white on squares 0-15, black on 48-63.
pub open spec fn start_square(i: int) -> u8 {
    if 0 <= i < 8 {
        back_rank_code(i) | Piece::WHITE
    } else if 8 <= i < 16 {
        Piece::PAWN | Piece::WHITE
    } else if 48 <= i < 56 {
        Piece::PAWN | Piece::BLACK
    } else if 56 <= i < 64 {
        back_rank_code(i - 56) | Piece::BLACK
    } else {
        Piece::NONE
    }
}

impl Board {
    /// The starting position.
    pub fn new() -> (r: Board)
        ensures
            forall|i: int| 0 <= i < 64 ==> #[trigger] r.pieces@[i] == start_square(i),
    {
        let back: [u8; 8] = [
            Piece::ROOK,
            Piece::KNIGHT,
            Piece::BISHOP,
            Piece::QUEEN,
            Piece::KING,
            Piece::BISHOP,
            Piece::KNIGHT,
            Piece::ROOK,
        ];
        assert(forall|f: int| 0 <= f < 8 ==> #[trigger] back@[f] == back_rank_code(f));
        let mut pieces: [u8; 64] = [Piece::NONE; 64];
        let mut i: usize = 0;
        while i < 64
            invariant
                i <= 64,
                forall|f: int| 0 <= f < 8 ==> #[trigger] back@[f] == back_rank_code(f),
                forall|j: int| 0 <= j < i ==> #[trigger] pieces@[j] == start_square(j),
            decreases 64 - i,
        {
            let value: u8 = if i < 8 {
                back[i] | Piece::WHITE
            } else if i < 16 {
                Piece::PAWN | Piece::WHITE
            } else if i < 48 {
                Piece::NONE
            } else if i < 56 {
                Piece::PAWN | Piece::BLACK
            } else {
                back[i - 56] | Piece::BLACK
            };
            pieces[i] = value;
            i = i + 1;
        }
        Board { pieces }
    }
}

} // verus!
