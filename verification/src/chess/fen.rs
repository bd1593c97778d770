use vstd::prelude::*;
use crate::chess::board::{Board, fen_rows, board_fen_text};

verus! {

/// The board of a FEN string's piece placement, as `Board::from_fen` reads it.
pub fn from_fen(fen: &str) -> (r: Option<Board>)
    ensures
        match fen_rows(fen@) {
            None => r is None,
            Some(v) => r is Some && r->0@ == v,
        },
{
    Board::from_fen(fen)
}

/// The FEN string of a board, as `Board::to_fen` writes it.
pub fn to_fen(board: &Board) -> (r: String)
    ensures
        r@ == board_fen_text(board@),
{
    board.to_fen()
}

} // verus!
