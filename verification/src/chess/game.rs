use vstd::prelude::*;
use crate::chess::board::{Board, Position, cell, with_cell, standard_rows, well_shaped};
use crate::chess::moves::{Move, MoveResult};
use crate::chess::piece::{Color, Piece, PieceType, opposite_color};

verus! {

#[derive(Clone, Copy, PartialEq, Eq, Structural, Debug)]
pub enum GameStatus {
    Active,
    Check,
    Checkmate,
    Stalemate,
    Draw,
}

/// A game on the chess board: the board, whose turn it is, its status and the moves made.
#[derive(Clone, Debug)]
pub struct Game {
    pub board: Board,
    pub current_player: Color,
    pub status: GameStatus,
    pub move_history: Vec<(Move, MoveResult)>,
}

/// What `make_move` answers: a refusal, or what the move did.
pub open spec fn move_outcome(v: Seq<Seq<Option<Piece>>>, player: Color, m: Move) -> Result<
    MoveResult,
    &'static str,
> {
    match cell(v, m.from) {
        None => Err("No piece at source position"),
        Some(p) => if p.color != player {
            Err("Not your turn")
        } else {
            match cell(v, m.to) {
                Some(c) => if c.color == player {
                    Err("Cannot capture your own piece")
                } else {
                    Ok(MoveResult::Capture(c))
                },
                None => Ok(MoveResult::Normal),
            }
        },
    }
}

/// The board after a move is applied: the piece goes to the target square, the source square is
/// cleared, and a promotion puts the promoted piece of the mover's colour on the target.
pub open spec fn moved_board(v: Seq<Seq<Option<Piece>>>, player: Color, m: Move) -> Seq<
    Seq<Option<Piece>>,
> {
    let moved = with_cell(with_cell(v, m.to, cell(v, m.from)), m.from, None);
    match m.promotion {
        Some(t) => with_cell(moved, m.to, Some(Piece { piece_type: t, color: player })),
        None => moved,
    }
}

/// The board after taking back `last` when earlier moves remain: the piece on its target goes back
/// to its source (as a pawn of `player` if the move promoted), the target is left empty; `None`
/// when the target square is empty.
pub open spec fn unmoved_board(v: Seq<Seq<Option<Piece>>>, player: Color, last: Move) -> Option<
    Seq<Seq<Option<Piece>>>,
> {
    match cell(v, last.to) {
        None => None,
        Some(p) => {
            let piece = if last.promotion is Some {
                Piece { piece_type: PieceType::Pawn, color: player }
            } else {
                p
            };
            Some(with_cell(with_cell(v, last.from, Some(piece)), last.to, None))
        },
    }
}

/// `g1` is `g0` after `make_move(m)` answered `r`: a refusal leaves the game as it was; a move
/// is applied, recorded with its result, and the turn passes.
pub open spec fn played(g0: Game, g1: Game, m: Move, r: Result<MoveResult, &'static str>) -> bool {
    &&& r == move_outcome(g0.board@, g0.current_player, m)
    &&& r is Err ==> g1 == g0
    &&& r matches Ok(res) ==> {
        &&& g1.board@ == moved_board(g0.board@, g0.current_player, m)
        &&& g1.current_player == opposite_color(g0.current_player)
        &&& g1.status == g0.status
        &&& g1.move_history@ == g0.move_history@.push((m, res))
    }
}

/// What `undo_move` answers for a game.
pub open spec fn undo_outcome(g0: Game) -> Result<(), &'static str> {
    if g0.move_history@.len() == 0 {
        Err("No moves to undo")
    } else if g0.move_history@.len() == 1 {
        Ok(())
    } else {
        match unmoved_board(g0.board@, opposite_color(g0.current_player), g0.move_history@.last().0) {
            None => Err("No piece at destination"),
            Some(_) => Ok(()),
        }
    }
}

/// `g1` is `g0` after `undo_move` answered `r`.
pub open spec fn undone(g0: Game, g1: Game, r: Result<(), &'static str>) -> bool {
    if g0.move_history@.len() == 0 {
        r == Err::<(), &'static str>("No moves to undo") && g1 == g0
    } else {
        let last = g0.move_history@.last().0;
        let rest = g0.move_history@.drop_last();
        let player = opposite_color(g0.current_player);
        &&& g1.move_history@ == rest
        &&& g1.current_player == player
        &&& if rest.len() == 0 {
            &&& r == Ok::<(), &'static str>(())
            &&& g1.board@ == standard_rows()
            &&& g1.status == GameStatus::Active
        } else {
            match unmoved_board(g0.board@, player, last) {
                None => {
                    &&& r == Err::<(), &'static str>("No piece at destination")
                    &&& g1.board@ == g0.board@
                    &&& g1.status == g0.status
                },
                Some(b) => {
                    &&& r == Ok::<(), &'static str>(())
                    &&& g1.board@ == b
                    &&& g1.status == GameStatus::Active
                },
            }
        }
    }
}

impl Game {
    /// A new game: the starting position, white to move, no moves made.
    pub fn new() -> (r: Game)
        ensures
            r.board@ == standard_rows(),
            r.current_player == Color::White,
            r.status == GameStatus::Active,
            r.move_history@.len() == 0,
    {
        Game {
            board: Board::new_standard(),
            current_player: Color::White,
            status: GameStatus::Active,
            move_history: Vec::new(),
        }
    }

    /// Plays a move for the side to move. Refused, with the game left as it was, when the source
    /// square is empty, holds the other side's piece, or the target holds one of the mover's own
    /// pieces. Otherwise the move is applied, recorded with its result, and the turn passes.
    pub fn make_move(&mut self, chess_move: &Move) -> (r: Result<MoveResult, &'static str>)
        ensures
            played(*old(self), *final(self), *chess_move, r),
    {
        let from_piece = match self.board.get_piece(chess_move.from) {
            Some(p) => p,
            None => return Err("No piece at source position"),
        };
        if from_piece.color != self.current_player {
            return Err("Not your turn");
        }
        let to_piece = self.board.get_piece(chess_move.to);
        let result = if let Some(captured) = to_piece {
            if captured.color == self.current_player {
                return Err("Cannot capture your own piece");
            }
            MoveResult::Capture(captured)
        } else {
            MoveResult::Normal
        };
        self.board.set_piece(chess_move.to, Some(from_piece));
        self.board.set_piece(chess_move.from, None);
        if let Some(promotion_type) = chess_move.promotion {
            self.board.set_piece(
                chess_move.to,
                Some(Piece::new(promotion_type, self.current_player)),
            );
        }
        self.move_history.push((*chess_move, result));
        self.current_player = self.current_player.opposite();
        Ok(result)
    }

    /// Takes back the last move. With no move made it is refused and nothing changes. Otherwise
    /// the move leaves the history and the turn passes back; when no move remains the board
    /// returns to the starting position, else the moved piece goes back (captured pieces are not
    /// restored), refused if the target square is empty. On success the status becomes active.
    pub fn undo_move(&mut self) -> (r: Result<(), &'static str>)
        ensures
            r == undo_outcome(*old(self)),
            undone(*old(self), *final(self), r),
    {
        if self.move_history.len() == 0 {
            return Err("No moves to undo");
        }
        let (last_move, _) = match self.move_history.pop() {
            Some(entry) => entry,
            None => return Err("No moves to undo"),
        };
        self.current_player = self.current_player.opposite();
        if self.move_history.len() == 0 {
            self.board = Board::new_standard();
        } else {
            let mut piece = match self.board.get_piece(last_move.to) {
                Some(p) => p,
                None => return Err("No piece at destination"),
            };
            if last_move.promotion.is_some() {
                piece = Piece::new(PieceType::Pawn, self.current_player);
            }
            self.board.set_piece(last_move.from, Some(piece));
            self.board.set_piece(last_move.to, None);
        }
        self.status = GameStatus::Active;
        Ok(())
    }
}

/// Taking back a quiet move (no capture, no promotion, onto a square of the board) restores the
/// board it was made on, whenever earlier moves remain so that the board is not reset.
pub proof fn lemma_undo_quiet_move(v: Seq<Seq<Option<Piece>>>, player: Color, m: Move)
    requires
        well_shaped(v),
        move_outcome(v, player, m) == Ok::<MoveResult, &'static str>(MoveResult::Normal),
        m.promotion is None,
        m.to.rank < 8,
        m.to.file < 8,
    ensures
        unmoved_board(moved_board(v, player, m), opposite_color(opposite_color(player)), m) == Some(v),
        opposite_color(opposite_color(player)) == player,
{
    let w = moved_board(v, player, m);
    let back = with_cell(with_cell(w, m.from, cell(v, m.from)), m.to, None);
    assert(back =~= v) by {
        assert forall|r: int| 0 <= r < 8 implies #[trigger] back[r] =~= v[r] by {}
    }
}

} // verus!
