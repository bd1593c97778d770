use vstd::prelude::*;
use crate::bitboard::Bitboard;
use crate::position::{
    Color, PieceType, Position, CastlingRights, opp, WHITE_BOTH, BLACK_BOTH, WHITE_KINGSIDE,
    WHITE_QUEENSIDE, BLACK_KINGSIDE, BLACK_QUEENSIDE,
};
use crate::movegen::{Move, MoveType, is_capture_type, is_promotion_type, promotion_of};

verus! {

/// The position after the capture step: a captured piece on the destination (found after the
/// mover left its square) is removed from the other side's boards. En passant is handled later.
pub open spec fn after_capture(p1: Position, mv: Move, them: Color) -> Position {
    if is_capture_type(mv.move_type) && mv.move_type != MoveType::EnPassant {
        match p1.piece_on(mv.to as int) {
            Some((cap, _)) => p1.removed(mv.to, cap, them),
            None => p1,
        }
    } else {
        p1
    }
}

/// The square of the pawn taken en passant, and the square a double push passes.
pub open spec fn behind_to(to: u8, us: Color) -> u8 {
    if us == Color::White {
        (to - 8) as u8
    } else {
        (to + 8) as u8
    }
}

/// The position after the piece arrives: en passant, castling and promotion handled.
pub open spec fn after_arrival(p2: Position, mv: Move, piece: PieceType, us: Color, them: Color) -> Position {
    match mv.move_type {
        MoveType::EnPassant => p2.removed(behind_to(mv.to, us), PieceType::Pawn, them).placed(
            mv.to,
            PieceType::Pawn,
            us,
        ),
        MoveType::CastleKingside => {
            let rf: u8 = if us == Color::White { 7 } else { 63 };
            let rt: u8 = if us == Color::White { 5 } else { 61 };
            p2.removed(rf, PieceType::Rook, us).placed(rt, PieceType::Rook, us).placed(
                mv.to,
                PieceType::King,
                us,
            )
        },
        MoveType::CastleQueenside => {
            let rf: u8 = if us == Color::White { 0 } else { 56 };
            let rt: u8 = if us == Color::White { 3 } else { 59 };
            p2.removed(rf, PieceType::Rook, us).placed(rt, PieceType::Rook, us).placed(
                mv.to,
                PieceType::King,
                us,
            )
        },
        _ => if is_promotion_type(mv.move_type) {
            p2.placed(mv.to, promotion_of(mv.move_type).unwrap(), us)
        } else {
            p2.placed(mv.to, piece, us)
        },
    }
}

/// Castling bits after a move of `piece` from `from` to `to`: a king move drops both rights of
/// its side, a rook leaving a corner drops that corner's right, and a move landing on a corner
/// (capturing the rook there) drops that corner's right.
pub open spec fn castling_after(cr: u8, piece: PieceType, us: Color, from: u8, to: u8) -> u8 {
    corner_cleared(moved_rights(cr, piece, us, from), to)
}

/// The rights with the right of corner `sq` dropped, when `sq` is a corner.
pub open spec fn corner_cleared(cr: u8, sq: u8) -> u8 {
    if sq == 0 {
        cr & !WHITE_QUEENSIDE
    } else if sq == 7 {
        cr & !WHITE_KINGSIDE
    } else if sq == 56 {
        cr & !BLACK_QUEENSIDE
    } else if sq == 63 {
        cr & !BLACK_KINGSIDE
    } else {
        cr
    }
}

/// Castling bits after `piece` of `us` leaves `from`.
pub open spec fn moved_rights(cr: u8, piece: PieceType, us: Color, from: u8) -> u8 {
    let a = if piece == PieceType::King {
        if us == Color::White {
            cr & !WHITE_BOTH
        } else {
            cr & !BLACK_BOTH
        }
    } else {
        cr
    };
    if piece == PieceType::Rook {
        if from == 0 {
            a & !WHITE_QUEENSIDE
        } else if from == 7 {
            a & !WHITE_KINGSIDE
        } else if from == 56 {
            a & !BLACK_QUEENSIDE
        } else if from == 63 {
            a & !BLACK_KINGSIDE
        } else {
            a
        }
    } else {
        a
    }
}

/// The position a move leads to (its hash aside), or `None` when no piece stands on the origin.
#[verifier::opaque]
pub open spec fn move_result(pos: Position, mv: Move) -> Option<Position> {
    match pos.piece_on(mv.from as int) {
        None => None,
        Some((piece, _)) => {
            let us = pos.side_to_move;
            let them = opp(us);
            let p3 = after_arrival(
                after_capture(pos.removed(mv.from, piece, us), mv, them),
                mv,
                piece,
                us,
                them,
            );
            Some(
                Position {
                    side_to_move: them,
                    castling_rights: CastlingRights::of_bits(
                        castling_after(pos.castling_rights.bits(), piece, us, mv.from, mv.to),
                    ),
                    en_passant_square: if mv.move_type == MoveType::DoublePawnPush {
                        Some(behind_to(mv.to, us))
                    } else {
                        None
                    },
                    halfmove_clock: if piece == PieceType::Pawn || is_capture_type(mv.move_type) {
                        0
                    } else {
                        (pos.halfmove_clock + 1) as u16
                    },
                    fullmove_number: if us == Color::Black {
                        (pos.fullmove_number + 1) as u16
                    } else {
                        pos.fullmove_number
                    },
                    ..p3
                },
            )
        },
    }
}

/// Whether two positions agree on everything but the hash.
pub open spec fn same_but_hash(a: Position, b: Position) -> bool {
    &&& a.pieces == b.pieces
    &&& a.occupied_by_color == b.occupied_by_color
    &&& a.occupied == b.occupied
    &&& a.side_to_move == b.side_to_move
    &&& a.castling_rights.bits() == b.castling_rights.bits()
    &&& a.en_passant_square == b.en_passant_square
    &&& a.halfmove_clock == b.halfmove_clock
    &&& a.fullmove_number == b.fullmove_number
}

/// The inputs on which making a move stays within the board and the counters.
pub open spec fn move_safe(pos: Position, mv: Move) -> bool {
    &&& mv.from < 64
    &&& pos.piece_on(mv.from as int) matches Some((piece, _)) ==> {
        &&& mv.to < 64
        &&& mv.move_type == MoveType::EnPassant ==> (pos.side_to_move == Color::White ==> mv.to
            >= 8) && (pos.side_to_move == Color::Black ==> mv.to < 56)
        &&& mv.move_type == MoveType::DoublePawnPush ==> (pos.side_to_move == Color::White ==> mv.to
            >= 8)
        &&& piece == PieceType::Pawn || is_capture_type(mv.move_type) || pos.halfmove_clock < 65535
        &&& pos.side_to_move == Color::White || pos.fullmove_number < 65535
    }
}

/// Whether `mv` can be handed to `make_move` in `pos` (see `move_safe`).
pub fn move_is_safe(pos: &Position, mv: Move) -> (r: bool)
    ensures
        r == move_safe(*pos, mv),
{
    if mv.from >= 64 {
        return false;
    }
    match pos.piece_at(mv.from) {
        None => true,
        Some((piece, _)) => {
            let white = pos.side_to_move == Color::White;
            let ep = mv.move_type == MoveType::EnPassant;
            let double = mv.move_type == MoveType::DoublePawnPush;
            mv.to < 64 && (!ep || (if white { mv.to >= 8 } else { mv.to < 56 })) && (!double || !white
                || mv.to >= 8) && (piece == PieceType::Pawn || mv.is_capture() || pos.halfmove_clock
                < 65535) && (white || pos.fullmove_number < 65535)
        },
    }
}

/// The text of the refusal of a move from an empty square.
pub open spec fn no_piece_text() -> Seq<char> {
    "No piece at from square"@
}

impl Position {
    /// Make a move. Refused, with the position untouched, when no piece stands on the origin.
    pub fn make_move(&mut self, mv: Move) -> (r: Result<(), String>)
        requires
            move_safe(*old(self), mv),
        ensures
            match move_result(*old(self), mv) {
                None => r is Err && r->Err_0@ == no_piece_text() && *final(self) == *old(self),
                Some(np) => r is Ok && same_but_hash(*final(self), np) && *final(self) == np.rehashed(),
            },
    {
        let from = mv.from();
        let to = mv.to();
        let us = self.side_to_move;
        let them = us.opposite();
        proof {
            reveal(move_result);
        }
        let piece = match self.piece_at(from) {
            Some((p, _)) => p,
            None => {
                let mut v: Vec<char> = Vec::new();
                crate::text::push_str_chars(&mut v, "No piece at from square");
                return Err(crate::text::string_from_chars(&v));
            },
        };
        let ghost p0 = *self;
        self.remove_piece(from, piece, us);
        if mv.is_capture() && mv.move_type() != MoveType::EnPassant {
            if let Some((captured_piece, _)) = self.piece_at(to) {
                self.remove_piece(to, captured_piece, them);
            }
        }
        let ghost p2 = *self;
        assert(p2 == after_capture(p0.removed(from, piece, us), mv, them));
        match mv.move_type() {
            MoveType::EnPassant => {
                let capture_square = if us == Color::White {
                    to - 8
                } else {
                    to + 8
                };
                self.remove_piece(capture_square, PieceType::Pawn, them);
                self.put_piece(to, PieceType::Pawn, us);
            },
            MoveType::CastleKingside => {
                let (rook_from, rook_to) = if us == Color::White {
                    (7u8, 5u8)
                } else {
                    (63u8, 61u8)
                };
                self.remove_piece(rook_from, PieceType::Rook, us);
                self.put_piece(rook_to, PieceType::Rook, us);
                self.put_piece(to, PieceType::King, us);
            },
            MoveType::CastleQueenside => {
                let (rook_from, rook_to) = if us == Color::White {
                    (0u8, 3u8)
                } else {
                    (56u8, 59u8)
                };
                self.remove_piece(rook_from, PieceType::Rook, us);
                self.put_piece(rook_to, PieceType::Rook, us);
                self.put_piece(to, PieceType::King, us);
            },
            _ => {
                if mv.is_promotion() {
                    if let Some(promo_piece) = mv.promotion_piece() {
                        self.put_piece(to, promo_piece, us);
                    }
                } else {
                    self.put_piece(to, piece, us);
                }
            },
        }
        let ghost p3 = *self;
        assert(p3 == after_arrival(p2, mv, piece, us, them));
        self.en_passant_square = None;
        if mv.move_type() == MoveType::DoublePawnPush {
            let ep_square = if us == Color::White {
                to - 8
            } else {
                to + 8
            };
            self.en_passant_square = Some(ep_square);
        }
        if piece == PieceType::King {
            if us == Color::White {
                self.castling_rights.remove(WHITE_BOTH);
            } else {
                self.castling_rights.remove(BLACK_BOTH);
            }
        }
        if piece == PieceType::Rook {
            if from == 0 {
                self.castling_rights.remove(WHITE_QUEENSIDE);
            } else if from == 7 {
                self.castling_rights.remove(WHITE_KINGSIDE);
            } else if from == 56 {
                self.castling_rights.remove(BLACK_QUEENSIDE);
            } else if from == 63 {
                self.castling_rights.remove(BLACK_KINGSIDE);
            }
        }
        if to == 0 {
            self.castling_rights.remove(WHITE_QUEENSIDE);
        } else if to == 7 {
            self.castling_rights.remove(WHITE_KINGSIDE);
        } else if to == 56 {
            self.castling_rights.remove(BLACK_QUEENSIDE);
        } else if to == 63 {
            self.castling_rights.remove(BLACK_KINGSIDE);
        }
        if piece == PieceType::Pawn || mv.is_capture() {
            self.halfmove_clock = 0;
        } else {
            self.halfmove_clock = self.halfmove_clock + 1;
        }
        if us == Color::Black {
            self.fullmove_number = self.fullmove_number + 1;
        }
        self.side_to_move = them;
        self.update_hash();
        proof {
            CastlingRights::lemma_of_bits(castling_after(p0.castling_rights.bits(), piece, us, from, to));
            let np = move_result(p0, mv).unwrap();
            CastlingRights::lemma_bits_eq(self.castling_rights, np.castling_rights);
            assert(self.board_words() =~= np.board_words());
            assert(*self == np.rehashed());
        }
        Ok(())
    }

    /// Whether the side that just moved left its king attacked (see `in_check`).
    pub fn is_opponent_in_check(&self) -> (r: bool)
        ensures
            r == self.in_check(opp(self.side_to_move)),
    {
        let opponent = self.side_to_move.opposite();
        let king = self.piece_bb(PieceType::King, opponent);
        if king.is_empty() {
            return false;
        }
        let king_square = king.lsb();
        self.is_square_attacked(king_square, self.side_to_move)
    }
}


/// Clearing the bits `k` from `a`: a set `j` inside `k` is then absent, a set `j` already
/// absent stays absent, no bit outside `y` appears when none was there, and clearing nothing
/// changes nothing.
proof fn lemma_clear_mask(a: u8, k: u8, j: u8, y: u8)
    by (bit_vector)
    ensures
        a & !a == 0,
        a & !y == 0 ==> (a & !k) & !y == 0,
        j & k == j ==> (a & !k) & j == 0,
        a & j == 0 ==> (a & !k) & j == 0,
        a & !0u8 == a,
        k & k == k,
{
}

/// Whether `sq` is one of the four corners.
pub open spec fn is_corner(sq: u8) -> bool {
    sq == 0 || sq == 7 || sq == 56 || sq == 63
}

/// The castling right that belongs to corner `sq`, none when it is not a corner.
pub open spec fn corner_right(sq: u8) -> u8 {
    if sq == 0 {
        WHITE_QUEENSIDE
    } else if sq == 7 {
        WHITE_KINGSIDE
    } else if sq == 56 {
        BLACK_QUEENSIDE
    } else if sq == 63 {
        BLACK_KINGSIDE
    } else {
        0
    }
}

proof fn lemma_clear_steps(before: u8, k1: u8, k2: u8, k3: u8, j: u8)
    ensures
        ({
            let a = before & !k1;
            let m = a & !k2;
            let after = m & !k3;
            &&& after & !before == 0
            &&& (j & k1 == j || j & k2 == j || j & k3 == j) ==> after & j == 0
            &&& k1 & k1 == k1
            &&& k2 & k2 == k2
            &&& k3 & k3 == k3
        }),
{
    let a = before & !k1;
    let m = a & !k2;
    lemma_clear_mask(before, k1, j, before);
    lemma_clear_mask(a, k2, j, before);
    lemma_clear_mask(m, k3, j, before);
}

/// What a move does to the castling rights: no right is ever gained; a king move drops both
/// rights of its side; a rook leaving a corner drops that corner's right (a1 white
/// queenside, h1 white kingside, a8 black queenside, h8 black kingside), and so does a move
/// landing on a corner; any other move keeps the rights as they were.
pub proof fn lemma_move_castling(pos: Position, mv: Move)
    requires
        move_result(pos, mv) is Some,
    ensures
        ({
            let before = pos.castling_rights.bits();
            let after = move_result(pos, mv).unwrap().castling_rights.bits();
            let piece = pos.piece_on(mv.from as int).unwrap().0;
            let us = pos.side_to_move;
            &&& after & !before == 0
            &&& (piece == PieceType::Rook && mv.from == 0) || mv.to == 0 ==> after & WHITE_QUEENSIDE == 0
            &&& (piece == PieceType::Rook && mv.from == 7) || mv.to == 7 ==> after & WHITE_KINGSIDE == 0
            &&& (piece == PieceType::Rook && mv.from == 56) || mv.to == 56 ==> after & BLACK_QUEENSIDE == 0
            &&& (piece == PieceType::Rook && mv.from == 63) || mv.to == 63 ==> after & BLACK_KINGSIDE == 0
            &&& piece == PieceType::King && us == Color::White ==> after & WHITE_BOTH == 0
            &&& piece == PieceType::King && us == Color::Black ==> after & BLACK_BOTH == 0
            &&& piece != PieceType::King && !(piece == PieceType::Rook && is_corner(mv.from)) && !is_corner(
                mv.to,
            ) ==> after == before
        }),
{
    reveal(move_result);
    let before = pos.castling_rights.bits();
    let piece = pos.piece_on(mv.from as int).unwrap().0;
    let us = pos.side_to_move;
    let k1: u8 = if piece == PieceType::King {
        if us == Color::White { WHITE_BOTH } else { BLACK_BOTH }
    } else {
        0
    };
    let k2: u8 = if piece == PieceType::Rook { corner_right(mv.from) } else { 0 };
    let k3: u8 = corner_right(mv.to);
    let a = before & !k1;
    let m = a & !k2;
    lemma_clear_mask(before, 0, 0, before);
    lemma_clear_mask(a, 0, 0, before);
    lemma_clear_mask(m, 0, 0, before);
    assert(moved_rights(before, piece, us, mv.from) == m);
    assert(castling_after(before, piece, us, mv.from, mv.to) == m & !k3);
    CastlingRights::lemma_of_bits(castling_after(before, piece, us, mv.from, mv.to));
    lemma_clear_steps(before, k1, k2, k3, WHITE_QUEENSIDE);
    lemma_clear_steps(before, k1, k2, k3, WHITE_KINGSIDE);
    lemma_clear_steps(before, k1, k2, k3, BLACK_QUEENSIDE);
    lemma_clear_steps(before, k1, k2, k3, BLACK_KINGSIDE);
    lemma_clear_steps(before, k1, k2, k3, WHITE_BOTH);
    lemma_clear_steps(before, k1, k2, k3, BLACK_BOTH);
}

} // verus!
