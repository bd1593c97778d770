use vstd::prelude::*;
use crate::bitboard::{
    Bitboard, bit_at, squares_seq, not_a_file, not_h_file, square_name, name_square,
    lemma_squares_seq_bits, lemma_shl_bits_high, lemma_shr_bits_low, lemma_and_bits,
    NOT_A_FILE_BB, NOT_H_FILE_BB,
};
use crate::position::{
    Color, PieceType, Position, opp, u64_tz, knight_attacks, king_attacks, get_knight_attacks,
    get_king_attacks, WHITE_KINGSIDE, WHITE_QUEENSIDE, BLACK_KINGSIDE, BLACK_QUEENSIDE,
};
use crate::attacks::{
    bishop_attacks, rook_attacks, queen_attacks, get_bishop_attacks, get_rook_attacks,
    get_queen_attacks,
};

verus! {

#[derive(Clone, Copy, PartialEq, Eq, Structural, Debug)]
pub enum MoveType {
    Normal,
    Capture,
    DoublePawnPush,
    EnPassant,
    CastleKingside,
    CastleQueenside,
    PromotionKnight,
    PromotionBishop,
    PromotionRook,
    PromotionQueen,
    PromotionCaptureKnight,
    PromotionCaptureBishop,
    PromotionCaptureRook,
    PromotionCaptureQueen,
}

pub open spec fn is_capture_type(t: MoveType) -> bool {
    t == MoveType::Capture || t == MoveType::EnPassant || t == MoveType::PromotionCaptureKnight
        || t == MoveType::PromotionCaptureBishop || t == MoveType::PromotionCaptureRook || t
        == MoveType::PromotionCaptureQueen
}

pub open spec fn is_promotion_type(t: MoveType) -> bool {
    t == MoveType::PromotionKnight || t == MoveType::PromotionBishop || t
        == MoveType::PromotionRook || t == MoveType::PromotionQueen || t
        == MoveType::PromotionCaptureKnight || t == MoveType::PromotionCaptureBishop || t
        == MoveType::PromotionCaptureRook || t == MoveType::PromotionCaptureQueen
}

pub open spec fn promotion_of(t: MoveType) -> Option<PieceType> {
    match t {
        MoveType::PromotionKnight | MoveType::PromotionCaptureKnight => Some(PieceType::Knight),
        MoveType::PromotionBishop | MoveType::PromotionCaptureBishop => Some(PieceType::Bishop),
        MoveType::PromotionRook | MoveType::PromotionCaptureRook => Some(PieceType::Rook),
        MoveType::PromotionQueen | MoveType::PromotionCaptureQueen => Some(PieceType::Queen),
        _ => None,
    }
}

/// A move: origin square, destination square and kind.
#[derive(Clone, Copy, PartialEq, Eq, Structural, Debug)]
pub struct Move {
    pub from: u8,
    pub to: u8,
    pub move_type: MoveType,
}

pub open spec fn mk(from: u8, to: u8, t: MoveType) -> Move {
    Move { from, to, move_type: t }
}

/// The UCI letter of a promotion piece.
pub open spec fn promo_letter(p: PieceType) -> char {
    match p {
        PieceType::Knight => 'n',
        PieceType::Bishop => 'b',
        PieceType::Rook => 'r',
        _ => 'q',
    }
}

/// UCI text of a move: origin and destination names, then the promotion letter if any.
pub open spec fn uci_text(m: Move) -> Seq<char> {
    let base = square_name(m.from) + square_name(m.to);
    match promotion_of(m.move_type) {
        Some(p) => base.push(promo_letter(p)),
        None => base,
    }
}

impl Move {
    pub fn new(from: u8, to: u8, move_type: MoveType) -> (r: Move)
        ensures
            r == mk(from, to, move_type),
    {
        Move { from, to, move_type }
    }

    pub fn from(&self) -> (r: u8)
        ensures
            r == self.from,
    {
        self.from
    }

    pub fn to(&self) -> (r: u8)
        ensures
            r == self.to,
    {
        self.to
    }

    pub fn move_type(&self) -> (r: MoveType)
        ensures
            r == self.move_type,
    {
        self.move_type
    }

    pub fn is_capture(&self) -> (r: bool)
        ensures
            r == is_capture_type(self.move_type),
    {
        match self.move_type {
            MoveType::Capture | MoveType::EnPassant | MoveType::PromotionCaptureKnight
            | MoveType::PromotionCaptureBishop | MoveType::PromotionCaptureRook
            | MoveType::PromotionCaptureQueen => true,
            _ => false,
        }
    }

    pub fn is_promotion(&self) -> (r: bool)
        ensures
            r == is_promotion_type(self.move_type),
    {
        match self.move_type {
            MoveType::PromotionKnight | MoveType::PromotionBishop | MoveType::PromotionRook
            | MoveType::PromotionQueen | MoveType::PromotionCaptureKnight
            | MoveType::PromotionCaptureBishop | MoveType::PromotionCaptureRook
            | MoveType::PromotionCaptureQueen => true,
            _ => false,
        }
    }

    pub fn promotion_piece(&self) -> (r: Option<PieceType>)
        ensures
            r == promotion_of(self.move_type),
    {
        match self.move_type {
            MoveType::PromotionKnight | MoveType::PromotionCaptureKnight => Some(PieceType::Knight),
            MoveType::PromotionBishop | MoveType::PromotionCaptureBishop => Some(PieceType::Bishop),
            MoveType::PromotionRook | MoveType::PromotionCaptureRook => Some(PieceType::Rook),
            MoveType::PromotionQueen | MoveType::PromotionCaptureQueen => Some(PieceType::Queen),
            _ => None,
        }
    }

    /// UCI notation such as "e2e4" or "e7e8q".
    pub fn to_uci(&self) -> (r: String)
        ensures
            r@ == uci_text(*self),
    {
        let mut v: Vec<char> = Vec::new();
        let a = Bitboard::square_to_name(self.from);
        let b = Bitboard::square_to_name(self.to);
        crate::text::push_str_chars(&mut v, a.as_str());
        crate::text::push_str_chars(&mut v, b.as_str());
        match self.promotion_piece() {
            Some(PieceType::Knight) => v.push('n'),
            Some(PieceType::Bishop) => v.push('b'),
            Some(PieceType::Rook) => v.push('r'),
            Some(_) => v.push('q'),
            None => {},
        }
        assert(v@ =~= uci_text(*self));
        crate::text::string_from_chars(&v)
    }
}

/// A list of moves.
pub struct MoveList {
    pub moves: Vec<Move>,
}

impl MoveList {
    pub fn new() -> (r: MoveList)
        ensures
            r.moves@ == Seq::<Move>::empty(),
    {
        MoveList { moves: Vec::new() }
    }

    pub fn push(&mut self, mv: Move)
        ensures
            final(self).moves@ == old(self).moves@.push(mv),
    {
        self.moves.push(mv);
    }

    pub fn len(&self) -> (r: usize)
        ensures
            r == self.moves@.len(),
    {
        self.moves.len()
    }

    pub fn is_empty(&self) -> (r: bool)
        ensures
            r == (self.moves@.len() == 0),
    {
        self.moves.len() == 0
    }

    /// The moves, in order.
    pub fn iter(&self) -> (r: &Vec<Move>)
        ensures
            r@ == self.moves@,
    {
        &self.moves
    }

    /// The move at index `i`.
    pub fn get(&self, i: usize) -> (r: Move)
        requires
            i < self.moves@.len(),
        ensures
            r == self.moves@[i as int],
    {
        self.moves[i]
    }

    /// The moves as a vector.
    pub fn into_vec(self) -> (r: Vec<Move>)
        ensures
            r@ == self.moves@,
    {
        self.moves
    }
}

/// Concatenation of `f(t)` over the squares `tos`, in order.
pub open spec fn expand(tos: Seq<u8>, f: spec_fn(u8) -> Seq<Move>) -> Seq<Move>
    decreases tos.len(),
{
    if tos.len() == 0 {
        Seq::empty()
    } else {
        expand(tos.drop_last(), f) + f(tos.last())
    }
}

/// The four promotions of a pawn move, queen first.
pub open spec fn promo4(from: u8, to: u8, capture: bool) -> Seq<Move> {
    if capture {
        seq![
            mk(from, to, MoveType::PromotionCaptureQueen),
            mk(from, to, MoveType::PromotionCaptureRook),
            mk(from, to, MoveType::PromotionCaptureBishop),
            mk(from, to, MoveType::PromotionCaptureKnight),
        ]
    } else {
        seq![
            mk(from, to, MoveType::PromotionQueen),
            mk(from, to, MoveType::PromotionRook),
            mk(from, to, MoveType::PromotionBishop),
            mk(from, to, MoveType::PromotionKnight),
        ]
    }
}

/// The square `k` steps behind `t` for a pawn of `us`.
pub open spec fn behind(t: u8, k: u8, us: Color) -> u8 {
    if us == Color::White {
        (t - k) as u8
    } else {
        (t + k) as u8
    }
}

/// How far behind its target a capturing pawn of `us` stands: a capture to the left (towards
/// the a-file) comes from the square 7 (white) or 9 (black) behind, one to the right from the
/// square 9 (white) or 7 (black) behind.
pub open spec fn cap_offset(us: Color, left: bool) -> u8 {
    if left == (us == Color::White) {
        7
    } else {
        9
    }
}

/// A part of a set whose squares have a square behind them has them too.
pub proof fn lemma_behind_sub(a: u64, b: u64, k: u8, us: Color)
    requires
        behind_ok(a, k, us),
    ensures
        behind_ok(a & b, k, us),
{
    assert forall|s: int| #[trigger] bit_at(a & b, s) implies (us == Color::White ==> s >= k) && (us
        == Color::Black ==> s + k < 64) by {
        lemma_and_bits(a, b, s);
    }
}

/// The squares pawns attack in a direction lie `cap_offset` ahead of a square on the board.
pub proof fn lemma_dir_behind(pos: Position, us: Color, left: bool)
    ensures
        behind_ok(pawn_dir(pos, us, left), cap_offset(us, left), us),
{
    let pawns = pos.bb(us, PieceType::Pawn);
    let d = pawn_dir(pos, us, left);
    let k = cap_offset(us, left);
    assert forall|s: int| #[trigger] bit_at(d, s) implies (us == Color::White ==> s >= k) && (us
        == Color::Black ==> s + k < 64) by {
        if us == Color::White {
            if left {
                lemma_and_bits(pawns << 7u64, not_h_file(), s);
                lemma_shl_bits_high(pawns, 7, s);
            } else {
                lemma_and_bits(pawns << 9u64, not_a_file(), s);
                lemma_shl_bits_high(pawns, 9, s);
            }
        } else {
            if left {
                lemma_and_bits(pawns >> 9u64, not_h_file(), s);
                lemma_shr_bits_low(pawns, 9, s);
            } else {
                lemma_and_bits(pawns >> 7u64, not_a_file(), s);
                lemma_shr_bits_low(pawns, 7, s);
            }
        }
    }
}

/// Every square of `bb` has a square `k` behind it for a pawn of `us`.
pub open spec fn behind_ok(bb: u64, k: u8, us: Color) -> bool {
    forall|s: int|
        #[trigger] bit_at(bb, s) ==> (us == Color::White ==> s >= k) && (us == Color::Black ==> s + k < 64)
}

pub open spec fn promo_rank(us: Color) -> u64 {
    if us == Color::White {
        0xFF00_0000_0000_0000u64
    } else {
        0xFFu64
    }
}

pub open spec fn start_rank(us: Color) -> u64 {
    if us == Color::White {
        0xFF00u64
    } else {
        0x00FF_0000_0000_0000u64
    }
}

/// Single pawn pushes onto empty squares.
pub open spec fn pawn_single(pos: Position, us: Color) -> u64 {
    let pawns = pos.bb(us, PieceType::Pawn);
    (if us == Color::White {
        pawns << 8u64
    } else {
        pawns >> 8u64
    }) & !pos.occupied.0
}

pub open spec fn pawn_double(pos: Position, us: Color) -> u64 {
    let occ = pos.occupied.0;
    let start = pos.bb(us, PieceType::Pawn) & start_rank(us);
    if us == Color::White {
        ((start << 8u64) << 8u64) & !occ & !(occ | (occ << 8u64))
    } else {
        ((start >> 8u64) >> 8u64) & !occ & !(occ | (occ >> 8u64))
    }
}

pub open spec fn pawn_left(pos: Position, us: Color) -> u64 {
    let pawns = pos.bb(us, PieceType::Pawn);
    if us == Color::White {
        (pawns << 7u64) & not_h_file()
    } else {
        (pawns >> 9u64) & not_h_file()
    }
}

pub open spec fn pawn_right(pos: Position, us: Color) -> u64 {
    let pawns = pos.bb(us, PieceType::Pawn);
    if us == Color::White {
        (pawns << 9u64) & not_a_file()
    } else {
        (pawns >> 7u64) & not_a_file()
    }
}

/// The squares pawns of `us` attack to the left, or to the right.
pub open spec fn pawn_dir(pos: Position, us: Color, left: bool) -> u64 {
    if left {
        pawn_left(pos, us)
    } else {
        pawn_right(pos, us)
    }
}

/// Captures in one pawn direction: plain captures, then the four promotions of each promoting
/// one, each from the square the capturing pawn stands on.
pub open spec fn pawn_captures(pos: Position, us: Color, left: bool) -> Seq<Move> {
    let caps = pawn_dir(pos, us, left) & pos.cbb(opp(us));
    let promo_caps = caps & promo_rank(us);
    let normal = caps & !promo_caps;
    let k = cap_offset(us, left);
    expand(squares_seq(normal), cap_f(k, us)) + expand(squares_seq(promo_caps), promo_cap_f(k, us))
}

/// Pawns of `us` that can take en passant on `ep`.
pub open spec fn ep_attackers(ep: u8, pawns: u64, us: Color) -> u64 {
    let e = 1u64 << ep;
    (if us == Color::White {
        ((e >> 9u64) & not_h_file()) | ((e >> 7u64) & not_a_file())
    } else {
        ((e << 7u64) & not_h_file()) | ((e << 9u64) & not_a_file())
    }) & pawns
}

/// One pawn move of kind `t` to each square, from the square `k` behind it.
pub open spec fn push_f(k: u8, us: Color, t: MoveType) -> spec_fn(u8) -> Seq<Move> {
    |to: u8| seq![mk(behind(to, k, us), to, t)]
}

/// The four promotions of a pawn push to each square.
pub open spec fn promo_push_f(k: u8, us: Color) -> spec_fn(u8) -> Seq<Move> {
    |to: u8| promo4(behind(to, k, us), to, false)
}

/// A pawn capture onto each square, from the square `k` behind it.
pub open spec fn cap_f(k: u8, us: Color) -> spec_fn(u8) -> Seq<Move> {
    |to: u8| seq![mk(behind(to, k, us), to, MoveType::Capture)]
}

/// The four capturing promotions onto each square, from the square `k` behind it.
pub open spec fn promo_cap_f(k: u8, us: Color) -> spec_fn(u8) -> Seq<Move> {
    |to: u8| promo4(behind(to, k, us), to, true)
}

/// A move of kind `t` from each square to `to`.
pub open spec fn to_f(to: u8, t: MoveType) -> spec_fn(u8) -> Seq<Move> {
    |from: u8| seq![mk(from, to, t)]
}

/// Pawn pushes of `us`: single pushes, promotions, double pushes.
pub open spec fn pawn_pushes(pos: Position, us: Color) -> Seq<Move> {
    let single = pawn_single(pos, us);
    let promos = single & promo_rank(us);
    let quiet = single & !promos;
    expand(squares_seq(quiet), push_f(8, us, MoveType::Normal)) + expand(squares_seq(promos), promo_push_f(8, us))
        + expand(squares_seq(pawn_double(pos, us)), push_f(16, us, MoveType::DoublePawnPush))
}

/// Pawn captures of `us`: left, right, then en passant.
pub open spec fn pawn_takes(pos: Position, us: Color) -> Seq<Move> {
    pawn_captures(pos, us, true) + pawn_captures(pos, us, false)
        + match pos.en_passant_square {
        Some(ep) => expand(
            squares_seq(ep_attackers(ep, pos.bb(us, PieceType::Pawn), us)),
            to_f(ep, MoveType::EnPassant),
        ),
        None => Seq::empty(),
    }
}

/// The pawn moves of `us`, in generation order.
pub open spec fn pawn_moves(pos: Position, us: Color) -> Seq<Move> {
    pawn_pushes(pos, us) + pawn_takes(pos, us)
}

/// Moves of a piece on `from` with the given target squares: captures of `them`, then quiet moves.
pub open spec fn targets_moves(from: u8, valid: u64, them: u64, occ: u64) -> Seq<Move> {
    squares_seq(valid & them).map_values(|t: u8| mk(from, t, MoveType::Capture)) + squares_seq(
        valid & !occ,
    ).map_values(|t: u8| mk(from, t, MoveType::Normal))
}

/// Knight moves from each square.
pub open spec fn knight_f(pos: Position, us: Color) -> spec_fn(u8) -> Seq<Move> {
    |f: u8| targets_moves(f, knight_attacks(f), pos.cbb(opp(us)), pos.occupied.0)
}

pub open spec fn knight_moves(pos: Position, us: Color) -> Seq<Move> {
    expand(squares_seq(pos.bb(us, PieceType::Knight)), knight_f(pos, us))
}

/// Attacks of a slider of type `p` (bishop, rook, otherwise queen).
pub open spec fn slider_attacks(p: PieceType, f: u8, occ: u64) -> u64 {
    if p == PieceType::Bishop {
        bishop_attacks(f, occ)
    } else if p == PieceType::Rook {
        rook_attacks(f, occ)
    } else {
        queen_attacks(f, occ)
    }
}

/// Slider moves from each square.
pub open spec fn slider_f(pos: Position, us: Color, p: PieceType) -> spec_fn(u8) -> Seq<Move> {
    |f: u8|
        targets_moves(
            f,
            slider_attacks(p, f, pos.occupied.0) & !(slider_attacks(p, f, pos.occupied.0) & pos.cbb(us)),
            pos.cbb(opp(us)),
            pos.occupied.0,
        )
}

/// Slider moves: attacked squares minus own pieces.
pub open spec fn slider_moves(pos: Position, us: Color, p: PieceType) -> Seq<Move> {
    expand(squares_seq(pos.bb(us, p)), slider_f(pos, us, p))
}

pub open spec fn king_moves(pos: Position, us: Color) -> Seq<Move> {
    let king = pos.bb(us, PieceType::King);
    if king == 0 {
        Seq::empty()
    } else {
        let from = u64_tz(king);
        let att = king_attacks(from);
        targets_moves(from, att & !(att & pos.cbb(us)), pos.cbb(opp(us)), pos.occupied.0)
    }
}

/// Castling moves: right held, squares between empty, king's path not attacked
/// (in the sense of `Position::attacked_by`).
pub open spec fn castling_moves(pos: Position, us: Color) -> Seq<Move> {
    let occ = pos.occupied.0;
    let cr = pos.castling_rights.bits();
    if us == Color::White {
        (if cr & WHITE_KINGSIDE != 0 && !bit_at(occ, 5) && !bit_at(occ, 6) && !pos.attacked_by(
            4,
            Color::Black,
        ) && !pos.attacked_by(5, Color::Black) && !pos.attacked_by(6, Color::Black) {
            seq![mk(4, 6, MoveType::CastleKingside)]
        } else {
            Seq::empty()
        }) + (if cr & WHITE_QUEENSIDE != 0 && !bit_at(occ, 1) && !bit_at(occ, 2) && !bit_at(occ, 3)
            && !pos.attacked_by(4, Color::Black) && !pos.attacked_by(3, Color::Black)
            && !pos.attacked_by(2, Color::Black) {
            seq![mk(4, 2, MoveType::CastleQueenside)]
        } else {
            Seq::empty()
        })
    } else {
        (if cr & BLACK_KINGSIDE != 0 && !bit_at(occ, 61) && !bit_at(occ, 62) && !pos.attacked_by(
            60,
            Color::White,
        ) && !pos.attacked_by(61, Color::White) && !pos.attacked_by(62, Color::White) {
            seq![mk(60, 62, MoveType::CastleKingside)]
        } else {
            Seq::empty()
        }) + (if cr & BLACK_QUEENSIDE != 0 && !bit_at(occ, 57) && !bit_at(occ, 58) && !bit_at(
            occ,
            59,
        ) && !pos.attacked_by(60, Color::White) && !pos.attacked_by(59, Color::White)
            && !pos.attacked_by(58, Color::White) {
            seq![mk(60, 58, MoveType::CastleQueenside)]
        } else {
            Seq::empty()
        })
    }
}

/// All pseudo-legal moves of the side to move, in generation order.
#[verifier::opaque]
pub open spec fn pseudo_moves(pos: Position) -> Seq<Move> {
    let us = pos.side_to_move;
    pawn_moves(pos, us) + knight_moves(pos, us) + slider_moves(pos, us, PieceType::Bishop)
        + slider_moves(pos, us, PieceType::Rook) + slider_moves(pos, us, PieceType::Queen)
        + king_moves(pos, us) + castling_moves(pos, us)
}

/// The en passant square, when set, is on the board.
pub open spec fn ep_ok(pos: Position) -> bool {
    pos.en_passant_square matches Some(e) ==> e < 64
}

/// Generates moves.
pub struct MoveGen;

impl MoveGen {
    /// Pushes one move per square of `bb`, from `from` with kind `t`.
    fn push_from(moves: &mut MoveList, from: u8, bb: Bitboard, t: MoveType)
        ensures
            final(moves).moves@ == old(moves).moves@ + squares_seq(bb.0).map_values(
                |s: u8| mk(from, s, t),
            ),
    {
        let mut rest = bb;
        let ghost mut done: Seq<u8> = Seq::empty();
        while rest.0 != 0
            invariant
                done + squares_seq(rest.0) == squares_seq(bb.0),
                moves.moves@ == old(moves).moves@ + done.map_values(|s: u8| mk(from, s, t)),
            decreases rest.0,
        {
            proof {
                crate::bitboard::lemma_clear_lowest_smaller(rest.0);
            }
            let to = rest.pop_lsb();
            moves.push(Move::new(from, to, t));
            proof {
                assert(done.push(to) + squares_seq(rest.0) =~= done + (seq![to] + squares_seq(rest.0)));
                assert(done.push(to).map_values(|s: u8| mk(from, s, t)) =~= done.map_values(
                    |s: u8| mk(from, s, t),
                ).push(mk(from, to, t)));
                done = done.push(to);
            }
        }
        assert(done =~= squares_seq(bb.0));
    }

    /// Pushes, for each square `t` of `bb`, a move of kind `kind` from the square `k` behind it
    /// (or its four promotions when `promo`).
    fn push_behind(moves: &mut MoveList, bb: Bitboard, k: u8, us: Color, kind: MoveType, promo: bool)
        requires
            k <= 16,
            forall|s: int|
                #[trigger] bit_at(bb.0, s) ==> (us == Color::White ==> s >= k) && (us == Color::Black
                    ==> s + k < 64),
        ensures
            final(moves).moves@ == old(moves).moves@ + expand(
                squares_seq(bb.0),
                if promo {
                    promo_push_f(k, us)
                } else {
                    push_f(k, us, kind)
                },
            ),
    {
        let ghost f = if promo {
            promo_push_f(k, us)
        } else {
            push_f(k, us, kind)
        };
        let mut rest = bb;
        let ghost mut done: Seq<u8> = Seq::empty();
        proof {
            lemma_squares_seq_bits(bb.0);
        }
        while rest.0 != 0
            invariant
                k <= 16,
                f == (if promo {
                    promo_push_f(k, us)
                } else {
                    push_f(k, us, kind)
                }),
                done + squares_seq(rest.0) == squares_seq(bb.0),
                moves.moves@ == old(moves).moves@ + expand(done, f),
                forall|i: int|
                    0 <= i < squares_seq(bb.0).len() ==> (#[trigger] squares_seq(bb.0)[i]) < 64
                        && bit_at(bb.0, squares_seq(bb.0)[i] as int),
                forall|s: int|
                    #[trigger] bit_at(bb.0, s) ==> (us == Color::White ==> s >= k) && (us
                        == Color::Black ==> s + k < 64),
            decreases rest.0,
        {
            proof {
                crate::bitboard::lemma_clear_lowest_smaller(rest.0);
            }
            let ghost before = rest.0;
            let to = rest.pop_lsb();
            proof {
                assert(done.push(to) + squares_seq(rest.0) =~= done + (seq![to] + squares_seq(rest.0)));
                assert(squares_seq(bb.0)[done.len() as int] == to);
            }
            let from = if us == Color::White {
                to - k
            } else {
                to + k
            };
            if promo {
                moves.push(Move::new(from, to, MoveType::PromotionQueen));
                moves.push(Move::new(from, to, MoveType::PromotionRook));
                moves.push(Move::new(from, to, MoveType::PromotionBishop));
                moves.push(Move::new(from, to, MoveType::PromotionKnight));
            } else {
                moves.push(Move::new(from, to, kind));
            }
            proof {
                assert(done.push(to).drop_last() =~= done);
                assert(expand(done.push(to), f) == expand(done, f) + f(to));
                assert(moves.moves@ =~= old(moves).moves@ + expand(done, f) + f(to));
                assert(moves.moves@ =~= old(moves).moves@ + expand(done.push(to), f));
                done = done.push(to);
            }
        }
        assert(done =~= squares_seq(bb.0));
    }

    /// Pushes pawn captures onto the squares of `bb`, each from the square the capturing pawn
    /// stands on (to the left or to the right of its target).
    fn push_captures(moves: &mut MoveList, bb: Bitboard, us: Color, left: bool, promo: bool)
        requires
            behind_ok(bb.0, cap_offset(us, left), us),
        ensures
            final(moves).moves@ == old(moves).moves@ + expand(
                squares_seq(bb.0),
                if promo {
                    promo_cap_f(cap_offset(us, left), us)
                } else {
                    cap_f(cap_offset(us, left), us)
                },
            ),
    {
        let ghost k = cap_offset(us, left);
        let ghost f = if promo {
            promo_cap_f(k, us)
        } else {
            cap_f(k, us)
        };
        let mut rest = bb;
        let ghost mut done: Seq<u8> = Seq::empty();
        proof {
            lemma_squares_seq_bits(bb.0);
        }
        while rest.0 != 0
            invariant
                k == cap_offset(us, left),
                behind_ok(bb.0, k, us),
                forall|j: int| 0 <= j < squares_seq(bb.0).len() ==> bit_at(bb.0, #[trigger] squares_seq(bb.0)[j] as int) && squares_seq(bb.0)[j] < 64,
                f == (if promo {
                    promo_cap_f(k, us)
                } else {
                    cap_f(k, us)
                }),
                done + squares_seq(rest.0) == squares_seq(bb.0),
                moves.moves@ == old(moves).moves@ + expand(done, f),
            decreases rest.0,
        {
            proof {
                crate::bitboard::lemma_clear_lowest_smaller(rest.0);
            }
            let ghost rs = squares_seq(rest.0);
            let to = rest.pop_lsb();
            proof {
                assert(squares_seq(bb.0)[done.len() as int] == to);
                assert(bit_at(bb.0, to as int));
            }
            let from = Self::find_pawn_origin(to, us, left);
            if promo {
                moves.push(Move::new(from, to, MoveType::PromotionCaptureQueen));
                moves.push(Move::new(from, to, MoveType::PromotionCaptureRook));
                moves.push(Move::new(from, to, MoveType::PromotionCaptureBishop));
                moves.push(Move::new(from, to, MoveType::PromotionCaptureKnight));
            } else {
                moves.push(Move::new(from, to, MoveType::Capture));
            }
            proof {
                assert(done.push(to) + squares_seq(rest.0) =~= done + (seq![to] + squares_seq(rest.0)));
                assert(done.push(to).drop_last() =~= done);
                assert(expand(done.push(to), f) == expand(done, f) + f(to));
                assert(moves.moves@ =~= old(moves).moves@ + expand(done, f) + f(to));
                assert(moves.moves@ =~= old(moves).moves@ + expand(done.push(to), f));
                done = done.push(to);
            }
        }
        assert(done =~= squares_seq(bb.0));
    }

    /// The square a pawn of `us` capturing onto `to` to the left (or right) stands on.
    fn find_pawn_origin(to: u8, us: Color, left: bool) -> (r: u8)
        requires
            us == Color::White ==> to >= cap_offset(us, left),
            us == Color::Black ==> to + cap_offset(us, left) < 64,
        ensures
            r == behind(to, cap_offset(us, left), us),
    {
        let k: u8 = if left == (us == Color::White) {
            7
        } else {
            9
        };
        if us == Color::White {
            to - k
        } else {
            to + k
        }
    }

    fn generate_pawn_moves(pos: &Position, moves: &mut MoveList, us: Color)
        requires
            ep_ok(*pos),
        ensures
            final(moves).moves@ == old(moves).moves@ + pawn_moves(*pos, us),
    {
        Self::generate_pawn_pushes(pos, moves, us);
        Self::generate_pawn_takes(pos, moves, us);
        assert(moves.moves@ =~= old(moves).moves@ + pawn_moves(*pos, us));
    }

    fn generate_pawn_pushes(pos: &Position, moves: &mut MoveList, us: Color)
        ensures
            final(moves).moves@ == old(moves).moves@ + pawn_pushes(*pos, us),
    {
        let pawns = pos.piece_bb(PieceType::Pawn, us);
        let occupied = pos.occupied;
        let white = us == Color::White;
        let single = Bitboard(
            (if white {
                pawns.north().0
            } else {
                pawns.south().0
            }) & !occupied.0,
        );
        let promo_rank_bb = Bitboard(if white { 0xFF00_0000_0000_0000u64 } else { 0xFFu64 });
        let promos = Bitboard(single.0 & promo_rank_bb.0);
        let quiet = Bitboard(single.0 & !promos.0);
        let ghost m0 = moves.moves@;
        proof {
            assert forall|s: int| #[trigger] bit_at(quiet.0, s) implies (us == Color::White ==> s
                >= 8) && (us == Color::Black ==> s + 8 < 64) by {
                lemma_and_bits(single.0, !promos.0, s);
                lemma_and_bits(if white { pawns.0 << 8u64 } else { pawns.0 >> 8u64 }, !occupied.0, s);
                if white {
                    lemma_shl_bits_high(pawns.0, 8, s);
                } else {
                    lemma_shr_bits_low(pawns.0, 8, s);
                }
            }
            assert forall|s: int| #[trigger] bit_at(promos.0, s) implies (us == Color::White ==> s
                >= 8) && (us == Color::Black ==> s + 8 < 64) by {
                lemma_and_bits(single.0, promo_rank_bb.0, s);
                lemma_and_bits(if white { pawns.0 << 8u64 } else { pawns.0 >> 8u64 }, !occupied.0, s);
                if white {
                    lemma_shl_bits_high(pawns.0, 8, s);
                } else {
                    lemma_shr_bits_low(pawns.0, 8, s);
                }
            }
        }
        Self::push_behind(moves, quiet, 8, us, MoveType::Normal, false);
        Self::push_behind(moves, promos, 8, us, MoveType::Normal, true);
        let start = Bitboard(pawns.0 & (if white { 0xFF00u64 } else { 0x00FF_0000_0000_0000u64 }));
        let double = if white {
            Bitboard(start.north().north().0 & !occupied.0 & !(occupied.0 | occupied.north().0))
        } else {
            Bitboard(start.south().south().0 & !occupied.0 & !(occupied.0 | occupied.south().0))
        };
        proof {
            assert forall|s: int| #[trigger] bit_at(double.0, s) implies (us == Color::White ==> s
                >= 16) && (us == Color::Black ==> s + 16 < 64) by {
                if white {
                    let a = (start.0 << 8u64) << 8u64;
                    lemma_and_bits(a & !occupied.0, !(occupied.0 | (occupied.0 << 8u64)), s);
                    lemma_and_bits(a, !occupied.0, s);
                    lemma_shl_bits_high(start.0 << 8u64, 8, s);
                    lemma_shl_bits_high(start.0, 8, s - 8);
                } else {
                    let a = (start.0 >> 8u64) >> 8u64;
                    lemma_and_bits(a & !occupied.0, !(occupied.0 | (occupied.0 >> 8u64)), s);
                    lemma_and_bits(a, !occupied.0, s);
                    lemma_shr_bits_low(start.0 >> 8u64, 8, s);
                    lemma_shr_bits_low(start.0, 8, s + 8);
                }
            }
        }
        Self::push_behind(moves, double, 16, us, MoveType::DoublePawnPush, false);
        proof {
            assert(single.0 == pawn_single(*pos, us));
            assert(double.0 == pawn_double(*pos, us));
            assert(moves.moves@ =~= m0 + pawn_pushes(*pos, us));
        }
    }

    fn generate_pawn_takes(pos: &Position, moves: &mut MoveList, us: Color)
        requires
            ep_ok(*pos),
        ensures
            final(moves).moves@ == old(moves).moves@ + pawn_takes(*pos, us),
    {
        let pawns = pos.piece_bb(PieceType::Pawn, us);
        let them_bb = pos.color_bb(us.opposite());
        let white = us == Color::White;
        let promo_rank_bb = Bitboard(if white { 0xFF00_0000_0000_0000u64 } else { 0xFFu64 });
        let ghost m0 = moves.moves@;
        let left = if white {
            pawns.north_west()
        } else {
            pawns.south_west()
        };
        let right = if white {
            pawns.north_east()
        } else {
            pawns.south_east()
        };
        proof {
            lemma_dir_behind(*pos, us, true);
            lemma_dir_behind(*pos, us, false);
        }
        let caps_l = Bitboard(left.0 & them_bb.0);
        let promo_l = Bitboard(caps_l.0 & promo_rank_bb.0);
        let normal_l = Bitboard(caps_l.0 & !promo_l.0);
        proof {
            lemma_behind_sub(left.0, them_bb.0, cap_offset(us, true), us);
            lemma_behind_sub(caps_l.0, promo_rank_bb.0, cap_offset(us, true), us);
            lemma_behind_sub(caps_l.0, !promo_l.0, cap_offset(us, true), us);
        }
        Self::push_captures(moves, normal_l, us, true, false);
        Self::push_captures(moves, promo_l, us, true, true);
        let caps_r = Bitboard(right.0 & them_bb.0);
        let promo_r = Bitboard(caps_r.0 & promo_rank_bb.0);
        let normal_r = Bitboard(caps_r.0 & !promo_r.0);
        proof {
            lemma_behind_sub(right.0, them_bb.0, cap_offset(us, false), us);
            lemma_behind_sub(caps_r.0, promo_rank_bb.0, cap_offset(us, false), us);
            lemma_behind_sub(caps_r.0, !promo_r.0, cap_offset(us, false), us);
        }
        Self::push_captures(moves, normal_r, us, false, false);
        Self::push_captures(moves, promo_r, us, false, true);
        let ghost m1 = moves.moves@;
        proof {
            assert(left.0 == pawn_left(*pos, us));
            assert(right.0 == pawn_right(*pos, us));
            assert(m1 =~= m0 + pawn_captures(*pos, us, true) + pawn_captures(*pos, us, false));
        }
        match pos.en_passant_square {
            Some(ep_square) => {
                let ep_bb = Bitboard::from_square(ep_square);
                let attackers = Bitboard(
                    (if white {
                        ep_bb.south_west().0 | ep_bb.south_east().0
                    } else {
                        ep_bb.north_west().0 | ep_bb.north_east().0
                    }) & pawns.0,
                );
                Self::push_to(moves, attackers, ep_square, MoveType::EnPassant);
            },
            None => {},
        }
        proof {
            assert(moves.moves@ =~= m0 + pawn_takes(*pos, us));
        }
    }

    /// Captures onto `valid & them`, then quiet moves onto `valid & !occ`, from `from`.
    fn push_targets(moves: &mut MoveList, from: u8, valid: Bitboard, them: Bitboard, occ: Bitboard)
        ensures
            final(moves).moves@ == old(moves).moves@ + targets_moves(from, valid.0, them.0, occ.0),
    {
        Self::push_from(moves, from, Bitboard(valid.0 & them.0), MoveType::Capture);
        Self::push_from(moves, from, Bitboard(valid.0 & !occ.0), MoveType::Normal);
        assert(moves.moves@ =~= old(moves).moves@ + targets_moves(from, valid.0, them.0, occ.0));
    }

    fn generate_knight_moves(pos: &Position, moves: &mut MoveList, us: Color)
        ensures
            final(moves).moves@ == old(moves).moves@ + knight_moves(*pos, us),
    {
        let knights = pos.piece_bb(PieceType::Knight, us);
        let them_bb = pos.color_bb(us.opposite());
        let ghost g = knight_f(*pos, us);
        let mut rest = knights;
        let ghost mut done: Seq<u8> = Seq::empty();
        while rest.0 != 0
            invariant
                g == knight_f(*pos, us),
                them_bb.0 == pos.cbb(opp(us)),
                done + squares_seq(rest.0) == squares_seq(knights.0),
                moves.moves@ == old(moves).moves@ + expand(done, g),
            decreases rest.0,
        {
            proof {
                crate::bitboard::lemma_clear_lowest_smaller(rest.0);
            }
            let from = rest.pop_lsb();
            let attacks = get_knight_attacks(from);
            Self::push_targets(moves, from, attacks, them_bb, pos.occupied);
            proof {
                assert(done.push(from) + squares_seq(rest.0) =~= done + (seq![from] + squares_seq(rest.0)));
                assert(done.push(from).drop_last() =~= done);
                assert(moves.moves@ =~= old(moves).moves@ + expand(done.push(from), g));
                done = done.push(from);
            }
        }
        assert(done =~= squares_seq(knights.0));
    }

    /// Moves of the bishops, rooks or queens of `us`.
    fn generate_slider_moves(pos: &Position, moves: &mut MoveList, us: Color, p: PieceType)
        requires
            p == PieceType::Bishop || p == PieceType::Rook || p == PieceType::Queen,
        ensures
            final(moves).moves@ == old(moves).moves@ + slider_moves(*pos, us, p),
    {
        let pieces = pos.piece_bb(p, us);
        let them_bb = pos.color_bb(us.opposite());
        let us_bb = pos.color_bb(us);
        let ghost g = slider_f(*pos, us, p);
        let mut rest = pieces;
        let ghost mut done: Seq<u8> = Seq::empty();
        while rest.0 != 0
            invariant
                g == slider_f(*pos, us, p),
                them_bb.0 == pos.cbb(opp(us)),
                us_bb.0 == pos.cbb(us),
                p == PieceType::Bishop || p == PieceType::Rook || p == PieceType::Queen,
                done + squares_seq(rest.0) == squares_seq(pieces.0),
                moves.moves@ == old(moves).moves@ + expand(done, g),
            decreases rest.0,
        {
            proof {
                crate::bitboard::lemma_clear_lowest_smaller(rest.0);
            }
            let from = rest.pop_lsb();
            let attacks = match p {
                PieceType::Bishop => get_bishop_attacks(from, pos.occupied),
                PieceType::Rook => get_rook_attacks(from, pos.occupied),
                _ => get_queen_attacks(from, pos.occupied),
            };
            let us_pieces = attacks.0 & us_bb.0;
            let valid = Bitboard(attacks.0 & !us_pieces);
            Self::push_targets(moves, from, valid, them_bb, pos.occupied);
            proof {
                assert(attacks.0 == slider_attacks(p, from, pos.occupied.0));
                assert(done.push(from) + squares_seq(rest.0) =~= done + (seq![from] + squares_seq(rest.0)));
                assert(done.push(from).drop_last() =~= done);
                assert(moves.moves@ =~= old(moves).moves@ + expand(done.push(from), g));
                done = done.push(from);
            }
        }
        assert(done =~= squares_seq(pieces.0));
    }

    fn generate_bishop_moves(pos: &Position, moves: &mut MoveList, us: Color)
        ensures
            final(moves).moves@ == old(moves).moves@ + slider_moves(*pos, us, PieceType::Bishop),
    {
        Self::generate_slider_moves(pos, moves, us, PieceType::Bishop);
    }

    fn generate_rook_moves(pos: &Position, moves: &mut MoveList, us: Color)
        ensures
            final(moves).moves@ == old(moves).moves@ + slider_moves(*pos, us, PieceType::Rook),
    {
        Self::generate_slider_moves(pos, moves, us, PieceType::Rook);
    }

    fn generate_queen_moves(pos: &Position, moves: &mut MoveList, us: Color)
        ensures
            final(moves).moves@ == old(moves).moves@ + slider_moves(*pos, us, PieceType::Queen),
    {
        Self::generate_slider_moves(pos, moves, us, PieceType::Queen);
    }

    fn generate_king_moves(pos: &Position, moves: &mut MoveList, us: Color)
        ensures
            final(moves).moves@ == old(moves).moves@ + king_moves(*pos, us),
    {
        let king = pos.piece_bb(PieceType::King, us);
        if king.is_empty() {
            assert(moves.moves@ =~= old(moves).moves@ + king_moves(*pos, us));
            return;
        }
        let from = king.lsb();
        let attacks = get_king_attacks(from);
        let us_pieces = attacks.0 & pos.color_bb(us).0;
        let valid = Bitboard(attacks.0 & !us_pieces);
        Self::push_targets(moves, from, valid, pos.color_bb(us.opposite()), pos.occupied);
    }

    fn generate_castling_moves(pos: &Position, moves: &mut MoveList, us: Color)
        ensures
            final(moves).moves@ == old(moves).moves@ + castling_moves(*pos, us),
    {
        let ghost m0 = moves.moves@;
        if us == Color::White {
            if pos.castling_rights.has(WHITE_KINGSIDE) {
                let squares_empty = !pos.occupied.test_bit(5) && !pos.occupied.test_bit(6);
                if squares_empty {
                    let squares_safe = !pos.is_square_attacked(4, Color::Black)
                        && !pos.is_square_attacked(5, Color::Black)
                        && !pos.is_square_attacked(6, Color::Black);
                    if squares_safe {
                        moves.push(Move::new(4, 6, MoveType::CastleKingside));
                    }
                }
            }
            let ghost m1 = moves.moves@;
            if pos.castling_rights.has(WHITE_QUEENSIDE) {
                let squares_empty = !pos.occupied.test_bit(1) && !pos.occupied.test_bit(2)
                    && !pos.occupied.test_bit(3);
                if squares_empty {
                    let squares_safe = !pos.is_square_attacked(4, Color::Black)
                        && !pos.is_square_attacked(3, Color::Black)
                        && !pos.is_square_attacked(2, Color::Black);
                    if squares_safe {
                        moves.push(Move::new(4, 2, MoveType::CastleQueenside));
                    }
                }
            }
        } else {
            if pos.castling_rights.has(BLACK_KINGSIDE) {
                let squares_empty = !pos.occupied.test_bit(61) && !pos.occupied.test_bit(62);
                if squares_empty {
                    let squares_safe = !pos.is_square_attacked(60, Color::White)
                        && !pos.is_square_attacked(61, Color::White)
                        && !pos.is_square_attacked(62, Color::White);
                    if squares_safe {
                        moves.push(Move::new(60, 62, MoveType::CastleKingside));
                    }
                }
            }
            if pos.castling_rights.has(BLACK_QUEENSIDE) {
                let squares_empty = !pos.occupied.test_bit(57) && !pos.occupied.test_bit(58)
                    && !pos.occupied.test_bit(59);
                if squares_empty {
                    let squares_safe = !pos.is_square_attacked(60, Color::White)
                        && !pos.is_square_attacked(59, Color::White)
                        && !pos.is_square_attacked(58, Color::White);
                    if squares_safe {
                        moves.push(Move::new(60, 58, MoveType::CastleQueenside));
                    }
                }
            }
        }
        assert(moves.moves@ =~= m0 + castling_moves(*pos, us));
    }

    /// All pseudo-legal moves (they may leave the king in check).
    pub fn generate_pseudo_legal_moves(pos: &Position) -> (r: MoveList)
        requires
            ep_ok(*pos),
        ensures
            r.moves@ == pseudo_moves(*pos),
    {
        let mut moves = MoveList::new();
        let us = pos.side_to_move;
        Self::generate_pawn_moves(pos, &mut moves, us);
        Self::generate_knight_moves(pos, &mut moves, us);
        Self::generate_bishop_moves(pos, &mut moves, us);
        Self::generate_rook_moves(pos, &mut moves, us);
        Self::generate_queen_moves(pos, &mut moves, us);
        Self::generate_king_moves(pos, &mut moves, us);
        Self::generate_castling_moves(pos, &mut moves, us);
        assert(moves.moves@ =~= pseudo_moves(*pos)) by {
            reveal(pseudo_moves);
        }
        moves
    }

    /// Pushes one move per square of `bb`, from that square to `to` with kind `t`.
    fn push_to(moves: &mut MoveList, bb: Bitboard, to: u8, t: MoveType)
        ensures
            final(moves).moves@ == old(moves).moves@ + expand(squares_seq(bb.0), to_f(to, t)),
    {
        let ghost g = to_f(to, t);
        let mut rest = bb;
        let ghost mut done: Seq<u8> = Seq::empty();
        while rest.0 != 0
            invariant
                g == to_f(to, t),
                done + squares_seq(rest.0) == squares_seq(bb.0),
                moves.moves@ == old(moves).moves@ + expand(done, g),
            decreases rest.0,
        {
            proof {
                crate::bitboard::lemma_clear_lowest_smaller(rest.0);
            }
            let from = rest.pop_lsb();
            moves.push(Move::new(from, to, t));
            proof {
                assert(done.push(from) + squares_seq(rest.0) =~= done + (seq![from] + squares_seq(rest.0)));
                assert(done.push(from).drop_last() =~= done);
                assert(expand(done.push(from), g) == expand(done, g) + g(from));
                assert(moves.moves@ =~= old(moves).moves@ + expand(done, g) + g(from));
                assert(moves.moves@ =~= old(moves).moves@ + expand(done.push(from), g));
                done = done.push(from);
            }
        }
        assert(done =~= squares_seq(bb.0));
    }
}

} // verus!
