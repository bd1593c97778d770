use vstd::prelude::*;
use crate::bitboard::{
    Bitboard, name_square, square_name,
    bit_at, squares_seq, lemma_squares_seq_bits, lemma_shl_bits_high, lemma_shr_bits_low,
    lemma_and_bits,
};
use crate::position::{Color, PieceType, Position, opp, u64_tz, knight_attacks, king_attacks};
use crate::movegen::{
    Move, MoveGen, MoveList, MoveType, mk, expand, promo4, behind, push_f, promo_push_f, cap_f,
    promo_cap_f, to_f, pawn_single, pawn_double, pawn_left, pawn_right, promo_rank,
    ep_attackers, pawn_dir, cap_offset, behind_ok, lemma_dir_behind, lemma_behind_sub, pawn_captures, pawn_pushes, pawn_takes, pawn_moves, targets_moves,
    knight_f, knight_moves, slider_f, slider_moves, king_moves, castling_moves, pseudo_moves,
    ep_ok, promotion_of, promo_letter, uci_text,
};
use crate::makemove::{move_result, move_safe, same_but_hash};
use crate::text::{str_chars, string_from_chars};

verus! {

/// The square conditions `move_safe` asks of a move, for the side `us` to move.
pub open spec fn move_in_range(m: Move, us: Color) -> bool {
    &&& m.from < 64
    &&& m.to < 64
    &&& m.move_type == MoveType::EnPassant ==> (us == Color::White ==> m.to >= 8) && (us
        == Color::Black ==> m.to < 56)
    &&& m.move_type == MoveType::DoublePawnPush ==> (us == Color::White ==> m.to >= 8) && (us
        == Color::Black ==> m.to < 56)
}

pub open spec fn all_in_range(ms: Seq<Move>, us: Color) -> bool {
    forall|i: int| 0 <= i < ms.len() ==> move_in_range(#[trigger] ms[i], us)
}

proof fn lemma_expand_in_range(tos: Seq<u8>, f: spec_fn(u8) -> Seq<Move>, us: Color)
    requires
        forall|j: int| 0 <= j < tos.len() ==> all_in_range(#[trigger] f(tos[j]), us),
    ensures
        all_in_range(expand(tos, f), us),
    decreases tos.len(),
{
    if tos.len() > 0 {
        let d = tos.drop_last();
        assert forall|j: int| 0 <= j < d.len() implies all_in_range(#[trigger] f(d[j]), us) by {
            assert(d[j] == tos[j]);
        }
        lemma_expand_in_range(d, f, us);
        let a = expand(d, f);
        let b = f(tos.last());
        assert(all_in_range(b, us)) by {
            assert(tos.last() == tos[tos.len() - 1]);
        }
        assert forall|i: int| 0 <= i < (a + b).len() implies move_in_range(#[trigger] (a + b)[i], us) by {
            if i < a.len() {
                assert((a + b)[i] == a[i]);
            } else {
                assert((a + b)[i] == b[i - a.len()]);
            }
        }
    }
}

proof fn lemma_concat_in_range(a: Seq<Move>, b: Seq<Move>, us: Color)
    requires
        all_in_range(a, us),
        all_in_range(b, us),
    ensures
        all_in_range(a + b, us),
{
    assert forall|i: int| 0 <= i < (a + b).len() implies move_in_range(#[trigger] (a + b)[i], us) by {
        if i < a.len() {
            assert((a + b)[i] == a[i]);
        } else {
            assert((a + b)[i] == b[i - a.len()]);
        }
    }
}

proof fn lemma_targets_in_range(from: u8, valid: u64, them: u64, occ: u64, us: Color)
    requires
        from < 64,
    ensures
        all_in_range(targets_moves(from, valid, them, occ), us),
{
    lemma_squares_seq_bits(valid & them);
    lemma_squares_seq_bits(valid & !occ);
    let a = squares_seq(valid & them).map_values(|t: u8| mk(from, t, MoveType::Capture));
    let b = squares_seq(valid & !occ).map_values(|t: u8| mk(from, t, MoveType::Normal));
    assert(all_in_range(a, us)) by {
        assert forall|i: int| 0 <= i < a.len() implies move_in_range(#[trigger] a[i], us) by {
            assert(squares_seq(valid & them)[i] < 64);
        }
    }
    assert(all_in_range(b, us)) by {
        assert forall|i: int| 0 <= i < b.len() implies move_in_range(#[trigger] b[i], us) by {
            assert(squares_seq(valid & !occ)[i] < 64);
        }
    }
    lemma_concat_in_range(a, b, us);
}

proof fn lemma_tz_lt_64(x: u64)
    requires
        x != 0,
    ensures
        u64_tz(x) < 64,
{
    vstd::std_specs::bits::axiom_u64_trailing_zeros(x);
}

proof fn lemma_captures_in_range(pos: Position, us: Color, left: bool)
    ensures
        all_in_range(pawn_captures(pos, us, left), us),
{
    let k = cap_offset(us, left);
    let dir = pawn_dir(pos, us, left);
    let caps = dir & pos.cbb(opp(us));
    let promo_caps = caps & promo_rank(us);
    let normal = caps & !promo_caps;
    lemma_dir_behind(pos, us, left);
    lemma_behind_sub(dir, pos.cbb(opp(us)), k, us);
    lemma_behind_sub(caps, promo_rank(us), k, us);
    lemma_behind_sub(caps, !promo_caps, k, us);
    lemma_squares_seq_bits(normal);
    lemma_squares_seq_bits(promo_caps);
    assert forall|j: int| 0 <= j < squares_seq(normal).len() implies all_in_range(
        #[trigger] cap_f(k, us)(squares_seq(normal)[j]),
        us,
    ) by {
        let t = squares_seq(normal)[j];
        assert(bit_at(normal, t as int));
        let s = cap_f(k, us)(t);
        assert forall|i: int| 0 <= i < s.len() implies move_in_range(#[trigger] s[i], us) by {}
    }
    assert forall|j: int| 0 <= j < squares_seq(promo_caps).len() implies all_in_range(
        #[trigger] promo_cap_f(k, us)(squares_seq(promo_caps)[j]),
        us,
    ) by {
        let t = squares_seq(promo_caps)[j];
        assert(bit_at(promo_caps, t as int));
        let s = promo_cap_f(k, us)(t);
        assert forall|i: int| 0 <= i < s.len() implies move_in_range(#[trigger] s[i], us) by {}
    }
    lemma_expand_in_range(squares_seq(normal), cap_f(k, us), us);
    lemma_expand_in_range(squares_seq(promo_caps), promo_cap_f(k, us), us);
    lemma_concat_in_range(
        expand(squares_seq(normal), cap_f(k, us)),
        expand(squares_seq(promo_caps), promo_cap_f(k, us)),
        us,
    );
}

proof fn lemma_pushes_in_range(pos: Position, us: Color)
    ensures
        all_in_range(pawn_pushes(pos, us), us),
{
    let pawns = pos.bb(us, PieceType::Pawn);
    let occ = pos.occupied.0;
    let single = pawn_single(pos, us);
    let promos = single & promo_rank(us);
    let quiet = single & !promos;
    let sh = if us == Color::White { pawns << 8u64 } else { pawns >> 8u64 };
    lemma_squares_seq_bits(quiet);
    lemma_squares_seq_bits(promos);
    assert forall|j: int| 0 <= j < squares_seq(quiet).len() implies all_in_range(
        #[trigger] push_f(8, us, MoveType::Normal)(squares_seq(quiet)[j]),
        us,
    ) by {
        let t = squares_seq(quiet)[j] as int;
        lemma_and_bits(single, !promos, t);
        lemma_and_bits(sh, !occ, t);
        if us == Color::White {
            lemma_shl_bits_high(pawns, 8, t);
        } else {
            lemma_shr_bits_low(pawns, 8, t);
        }
        let s = push_f(8, us, MoveType::Normal)(squares_seq(quiet)[j]);
        assert forall|i: int| 0 <= i < s.len() implies move_in_range(#[trigger] s[i], us) by {}
    }
    assert forall|j: int| 0 <= j < squares_seq(promos).len() implies all_in_range(
        #[trigger] promo_push_f(8, us)(squares_seq(promos)[j]),
        us,
    ) by {
        let t = squares_seq(promos)[j] as int;
        lemma_and_bits(single, promo_rank(us), t);
        lemma_and_bits(sh, !occ, t);
        if us == Color::White {
            lemma_shl_bits_high(pawns, 8, t);
        } else {
            lemma_shr_bits_low(pawns, 8, t);
        }
        let s = promo_push_f(8, us)(squares_seq(promos)[j]);
        assert forall|i: int| 0 <= i < s.len() implies move_in_range(#[trigger] s[i], us) by {}
    }
    let double = pawn_double(pos, us);
    lemma_squares_seq_bits(double);
    let start = pawns & (if us == Color::White { 0xFF00u64 } else { 0x00FF_0000_0000_0000u64 });
    assert forall|j: int| 0 <= j < squares_seq(double).len() implies all_in_range(
        #[trigger] push_f(16, us, MoveType::DoublePawnPush)(squares_seq(double)[j]),
        us,
    ) by {
        let t = squares_seq(double)[j] as int;
        if us == Color::White {
            let a = (start << 8u64) << 8u64;
            lemma_and_bits(a & !occ, !(occ | (occ << 8u64)), t);
            lemma_and_bits(a, !occ, t);
            lemma_shl_bits_high(start << 8u64, 8, t);
            lemma_shl_bits_high(start, 8, t - 8);
        } else {
            let a = (start >> 8u64) >> 8u64;
            lemma_and_bits(a & !occ, !(occ | (occ >> 8u64)), t);
            lemma_and_bits(a, !occ, t);
            lemma_shr_bits_low(start >> 8u64, 8, t);
            lemma_shr_bits_low(start, 8, t + 8);
        }
        let s = push_f(16, us, MoveType::DoublePawnPush)(squares_seq(double)[j]);
        assert forall|i: int| 0 <= i < s.len() implies move_in_range(#[trigger] s[i], us) by {}
    }
    lemma_expand_in_range(squares_seq(quiet), push_f(8, us, MoveType::Normal), us);
    lemma_expand_in_range(squares_seq(promos), promo_push_f(8, us), us);
    lemma_expand_in_range(squares_seq(double), push_f(16, us, MoveType::DoublePawnPush), us);
    let a = expand(squares_seq(quiet), push_f(8, us, MoveType::Normal));
    let b = expand(squares_seq(promos), promo_push_f(8, us));
    let c = expand(squares_seq(double), push_f(16, us, MoveType::DoublePawnPush));
    lemma_concat_in_range(a, b, us);
    lemma_concat_in_range(a + b, c, us);
}

proof fn lemma_takes_in_range(pos: Position, us: Color)
    requires
        ep_ok(pos),
    ensures
        all_in_range(pawn_takes(pos, us), us),
{
    lemma_captures_in_range(pos, us, true);
    lemma_captures_in_range(pos, us, false);
    let a = pawn_captures(pos, us, true);
    let b = pawn_captures(pos, us, false);
    lemma_concat_in_range(a, b, us);
    match pos.en_passant_square {
        Some(ep) => {
            let pawns = pos.bb(us, PieceType::Pawn);
            let att = ep_attackers(ep, pawns, us);
            lemma_squares_seq_bits(att);
            assert forall|j: int| 0 <= j < squares_seq(att).len() implies all_in_range(
                #[trigger] to_f(ep, MoveType::EnPassant)(squares_seq(att)[j]),
                us,
            ) by {
                let t = squares_seq(att)[j] as int;
                assert(bit_at(att, t));
                assert(att != 0) by {
                    let u = t as u64;
                    assert(u < 64 && (att >> u) & 1u64 == 1u64 ==> att != 0) by (bit_vector);
                }
                let e = ep as u64;
                if us == Color::White {
                    assert(e < 64 && ((((1u64 << e) >> 9u64) & 0x7F7F_7F7F_7F7F_7F7Fu64) | (((1u64 << e) >> 7u64) & 0xFEFE_FEFE_FEFE_FEFEu64)) & pawns != 0 ==> e >= 8) by (bit_vector);
                } else {
                    assert(e < 64 && ((((1u64 << e) << 7u64) & 0x7F7F_7F7F_7F7F_7F7Fu64) | (((1u64 << e) << 9u64) & 0xFEFE_FEFE_FEFE_FEFEu64)) & pawns != 0 ==> e < 56) by (bit_vector);
                }
                let s = to_f(ep, MoveType::EnPassant)(squares_seq(att)[j]);
                assert forall|i: int| 0 <= i < s.len() implies move_in_range(#[trigger] s[i], us) by {}
            }
            lemma_expand_in_range(squares_seq(att), to_f(ep, MoveType::EnPassant), us);
            lemma_concat_in_range(a + b, expand(squares_seq(att), to_f(ep, MoveType::EnPassant)), us);
        },
        None => {
            lemma_concat_in_range(a + b, Seq::empty(), us);
        },
    }
}

proof fn lemma_pieces_in_range(pos: Position, us: Color)
    ensures
        all_in_range(knight_moves(pos, us), us),
        all_in_range(slider_moves(pos, us, PieceType::Bishop), us),
        all_in_range(slider_moves(pos, us, PieceType::Rook), us),
        all_in_range(slider_moves(pos, us, PieceType::Queen), us),
        all_in_range(king_moves(pos, us), us),
        all_in_range(castling_moves(pos, us), us),
{
    let kn = pos.bb(us, PieceType::Knight);
    lemma_squares_seq_bits(kn);
    assert forall|j: int| 0 <= j < squares_seq(kn).len() implies all_in_range(
        #[trigger] knight_f(pos, us)(squares_seq(kn)[j]),
        us,
    ) by {
        let f = squares_seq(kn)[j];
        lemma_targets_in_range(f, crate::position::knight_attacks(f), pos.cbb(opp(us)), pos.occupied.0, us);
    }
    lemma_expand_in_range(squares_seq(kn), knight_f(pos, us), us);
    lemma_sliders_in_range(pos, us, PieceType::Bishop);
    lemma_sliders_in_range(pos, us, PieceType::Rook);
    lemma_sliders_in_range(pos, us, PieceType::Queen);
    let king = pos.bb(us, PieceType::King);
    if king != 0 {
        lemma_tz_lt_64(king);
        let from = u64_tz(king);
        let att = crate::position::king_attacks(from);
        lemma_targets_in_range(from, att & !(att & pos.cbb(us)), pos.cbb(opp(us)), pos.occupied.0, us);
    }
    let c = castling_moves(pos, us);
    assert forall|i: int| 0 <= i < c.len() implies move_in_range(#[trigger] c[i], us) by {}
}

proof fn lemma_sliders_in_range(pos: Position, us: Color, p: PieceType)
    ensures
        all_in_range(slider_moves(pos, us, p), us),
{
    let bb = pos.bb(us, p);
    lemma_squares_seq_bits(bb);
    assert forall|j: int| 0 <= j < squares_seq(bb).len() implies all_in_range(
        #[trigger] slider_f(pos, us, p)(squares_seq(bb)[j]),
        us,
    ) by {
        let f = squares_seq(bb)[j];
        let att = crate::movegen::slider_attacks(p, f, pos.occupied.0);
        lemma_targets_in_range(f, att & !(att & pos.cbb(us)), pos.cbb(opp(us)), pos.occupied.0, us);
    }
    lemma_expand_in_range(squares_seq(bb), slider_f(pos, us, p), us);
}

/// Every pseudo-legal move is on the board, and its en passant and double-push squares
/// stay on the board.
pub proof fn lemma_pseudo_in_range(pos: Position)
    requires
        ep_ok(pos),
    ensures
        all_in_range(pseudo_moves(pos), pos.side_to_move),
{
    reveal(pseudo_moves);
    let us = pos.side_to_move;
    lemma_pushes_in_range(pos, us);
    lemma_takes_in_range(pos, us);
    lemma_concat_in_range(pawn_pushes(pos, us), pawn_takes(pos, us), us);
    lemma_pieces_in_range(pos, us);
    let s1 = pawn_moves(pos, us);
    let s2 = knight_moves(pos, us);
    let s3 = slider_moves(pos, us, PieceType::Bishop);
    let s4 = slider_moves(pos, us, PieceType::Rook);
    let s5 = slider_moves(pos, us, PieceType::Queen);
    let s6 = king_moves(pos, us);
    let s7 = castling_moves(pos, us);
    lemma_concat_in_range(s1, s2, us);
    lemma_concat_in_range(s1 + s2, s3, us);
    lemma_concat_in_range(s1 + s2 + s3, s4, us);
    lemma_concat_in_range(s1 + s2 + s3 + s4, s5, us);
    lemma_concat_in_range(s1 + s2 + s3 + s4 + s5, s6, us);
    lemma_concat_in_range(s1 + s2 + s3 + s4 + s5 + s6, s7, us);
}

/// Whether a move is kept by `generate_legal_moves`: it can be made and does not leave the
/// mover's king attacked (in the sense of `Position::in_check`).
pub open spec fn legal_after(pos: Position, m: Move) -> bool {
    match move_result(pos, m) {
        Some(np) => !np.in_check(opp(np.side_to_move)),
        None => false,
    }
}

/// The moves of `ms` kept by `legal_after`, in order.
pub open spec fn legal_only(pos: Position, ms: Seq<Move>) -> Seq<Move>
    decreases ms.len(),
{
    if ms.len() == 0 {
        Seq::empty()
    } else {
        let rest = legal_only(pos, ms.drop_last());
        if legal_after(pos, ms.last()) {
            rest.push(ms.last())
        } else {
            rest
        }
    }
}

/// The legal moves of a position, in generation order.
pub open spec fn legal_moves(pos: Position) -> Seq<Move> {
    legal_only(pos, pseudo_moves(pos))
}

/// The positions `generate_legal_moves` accepts: an en passant square on the board and
/// counters that a quiet move can still advance.
pub open spec fn gen_ok(pos: Position) -> bool {
    &&& ep_ok(pos)
    &&& pos.halfmove_clock < 65535
    &&& pos.fullmove_number < 65535
}

/// The first move of `ms` going from `f` to `t`.
/// Whether `m` goes from `f` to `t` and, when a promotion piece is asked for, promotes to it.
pub open spec fn names_move(m: Move, f: u8, t: u8, promo: Option<PieceType>) -> bool {
    &&& m.from == f
    &&& m.to == t
    &&& (promo matches Some(p) ==> promotion_of(m.move_type) == Some(p))
}

pub open spec fn first_from_to(ms: Seq<Move>, f: u8, t: u8, promo: Option<PieceType>) -> Option<Move>
    decreases ms.len(),
{
    if ms.len() == 0 {
        None
    } else if names_move(ms[0], f, t, promo) {
        Some(ms[0])
    } else {
        first_from_to(ms.drop_first(), f, t, promo)
    }
}

/// The piece a UCI promotion letter names.
pub open spec fn letter_piece(c: char) -> Option<PieceType> {
    if c == 'q' {
        Some(PieceType::Queen)
    } else if c == 'r' {
        Some(PieceType::Rook)
    } else if c == 'b' {
        Some(PieceType::Bishop)
    } else if c == 'n' {
        Some(PieceType::Knight)
    } else {
        None
    }
}

/// The promotion piece a UCI string asks for with its fifth character, if any.
pub open spec fn uci_promotion(s: Seq<char>) -> Option<PieceType> {
    if s.len() >= 5 {
        letter_piece(s[4])
    } else {
        None
    }
}

/// The legal move a UCI string names: its first two characters name the origin, the next two
/// the destination, and a fifth character `q`, `r`, `b` or `n` the promotion piece; the first
/// legal move that fits is taken.
pub open spec fn uci_move(s: Seq<char>, pos: Position) -> Option<Move> {
    if s.len() < 4 {
        None
    } else {
        match (name_square(s.subrange(0, 2)), name_square(s.subrange(2, 4))) {
            (Some(f), Some(t)) => first_from_to(legal_moves(pos), f, t, uci_promotion(s)),
            _ => None,
        }
    }
}

proof fn lemma_first_from_to_member(ms: Seq<Move>, f: u8, t: u8, promo: Option<PieceType>)
    ensures
        first_from_to(ms, f, t, promo) matches Some(m) ==> ms.contains(m) && names_move(m, f, t, promo),
        (exists|k: int| 0 <= k < ms.len() && names_move(#[trigger] ms[k], f, t, promo)) ==> first_from_to(ms, f, t, promo) is Some,
    decreases ms.len(),
{
    if ms.len() > 0 && !names_move(ms[0], f, t, promo) {
        lemma_first_from_to_member(ms.drop_first(), f, t, promo);
        if exists|k: int| 0 <= k < ms.len() && names_move(#[trigger] ms[k], f, t, promo) {
            let k = choose|k: int| 0 <= k < ms.len() && names_move(#[trigger] ms[k], f, t, promo);
            assert(ms.drop_first()[k - 1] == ms[k]);
        }
        if let Some(m) = first_from_to(ms, f, t, promo) {
            let k = choose|k: int| 0 <= k < ms.drop_first().len() && ms.drop_first()[k] == m;
            assert(ms[k + 1] == m);
        }
    } else if ms.len() > 0 {
        assert(ms[0] == ms[0]);
    }
}

/// The name of a square reads back to the square.
pub proof fn lemma_square_name_back(sq: u8)
    requires
        sq < 64,
    ensures
        name_square(square_name(sq)) == Some(sq),
{
    let s = square_name(sq);
    assert(s[0] as u32 == 97 + sq % 8);
    assert(s[1] as u32 == 49 + sq / 8);
}

/// The UCI text of a legal move names a legal move with the same origin, destination and
/// promotion piece.
pub proof fn lemma_uci_text_names(pos: Position, m: Move)
    requires
        legal_moves(pos).contains(m),
        m.from < 64,
        m.to < 64,
    ensures
        uci_move(uci_text(m), pos) matches Some(m2) && legal_moves(pos).contains(m2) && m2.from == m.from
            && m2.to == m.to && (promotion_of(m.move_type) is Some ==> promotion_of(m2.move_type)
            == promotion_of(m.move_type)),
{
    let s = uci_text(m);
    lemma_square_name_back(m.from);
    lemma_square_name_back(m.to);
    assert(s.subrange(0, 2) =~= square_name(m.from));
    assert(s.subrange(2, 4) =~= square_name(m.to));
    let promo = uci_promotion(s);
    match promotion_of(m.move_type) {
        Some(p) => {
            assert(s[4] == promo_letter(p));
            assert(promo == Some(p));
        },
        None => {
            assert(s.len() == 4);
        },
    }
    let ms = legal_moves(pos);
    let k = choose|k: int| 0 <= k < ms.len() && ms[k] == m;
    assert(names_move(ms[k], m.from, m.to, promo));
    lemma_first_from_to_member(ms, m.from, m.to, promo);
}

/// A move named by a UCI string is one of the legal moves.
pub proof fn lemma_uci_move_legal(s: Seq<char>, pos: Position)
    ensures
        uci_move(s, pos) matches Some(m) ==> legal_moves(pos).contains(m),
{
    if s.len() >= 4 {
        if let (Some(f), Some(t)) = (name_square(s.subrange(0, 2)), name_square(s.subrange(2, 4))) {
            lemma_first_from_to_member(legal_moves(pos), f, t, uci_promotion(s));
        }
    }
}

impl Move {
    /// The legal move from the origin to the destination a UCI string names.
    pub fn from_uci(uci: &str, pos: &Position) -> (r: Option<Move>)
        requires
            gen_ok(*pos),
        ensures
            r == uci_move(uci@, *pos),
    {
        let chars = str_chars(uci);
        if chars.len() < 4 {
            return None;
        }
        let mut a: Vec<char> = Vec::new();
        a.push(chars[0]);
        a.push(chars[1]);
        let mut b: Vec<char> = Vec::new();
        b.push(chars[2]);
        b.push(chars[3]);
        assert(a@ =~= uci@.subrange(0, 2));
        assert(b@ =~= uci@.subrange(2, 4));
        let sa = string_from_chars(&a);
        let sb = string_from_chars(&b);
        let from = match Bitboard::square_from_name(sa.as_str()) {
            Some(f) => f,
            None => return None,
        };
        let to = match Bitboard::square_from_name(sb.as_str()) {
            Some(t) => t,
            None => return None,
        };
        let promo: Option<PieceType> = if chars.len() >= 5 {
            let c = chars[4];
            if c == 'q' {
                Some(PieceType::Queen)
            } else if c == 'r' {
                Some(PieceType::Rook)
            } else if c == 'b' {
                Some(PieceType::Bishop)
            } else if c == 'n' {
                Some(PieceType::Knight)
            } else {
                None
            }
        } else {
            None
        };
        let moves = MoveGen::generate_legal_moves(pos);
        first_match(&moves, from, to, promo)
    }
}

/// The first move of the list going from `from` to `to`.
fn first_match(moves: &MoveList, from: u8, to: u8, promo: Option<PieceType>) -> (r: Option<Move>)
    ensures
        r == first_from_to(moves.moves@, from, to, promo),
{
    let mut i: usize = 0;
    assert(moves.moves@.subrange(0, moves.moves@.len() as int) =~= moves.moves@);
    while i < moves.len()
        invariant
            i <= moves.moves@.len(),
            first_from_to(moves.moves@, from, to, promo) == first_from_to(
                moves.moves@.subrange(i as int, moves.moves@.len() as int),
                from,
                to,
                promo,
            ),
        decreases moves.moves@.len() - i,
    {
        let m = moves.get(i);
        let ghost rest = moves.moves@.subrange(i as int, moves.moves@.len() as int);
        assert(rest[0] == m);
        let fits = m.from == from && m.to == to && match promo {
            Some(p) => match m.promotion_piece() {
                Some(q) => q == p,
                None => false,
            },
            None => true,
        };
        if fits {
            return Some(m);
        }
        assert(rest.drop_first() =~= moves.moves@.subrange(i + 1, moves.moves@.len() as int));
        i = i + 1;
    }
    assert(moves.moves@.subrange(i as int, moves.moves@.len() as int) =~= Seq::<Move>::empty());
    None
}

impl MoveGen {
    /// All legal moves: the pseudo-legal moves that do not leave the king attacked.
    pub fn generate_legal_moves(pos: &Position) -> (r: MoveList)
        requires
            gen_ok(*pos),
        ensures
            r.moves@ == legal_moves(*pos),
    {
        let pseudo_legal = Self::generate_pseudo_legal_moves(pos);
        let mut legal = MoveList::new();
        proof {
            lemma_pseudo_in_range(*pos);
        }
        let mut i: usize = 0;
        while i < pseudo_legal.len()
            invariant
                i <= pseudo_legal.moves@.len(),
                pseudo_legal.moves@ == pseudo_moves(*pos),
                all_in_range(pseudo_moves(*pos), pos.side_to_move),
                gen_ok(*pos),
                legal.moves@ == legal_only(*pos, pseudo_legal.moves@.subrange(0, i as int)),
            decreases pseudo_legal.moves@.len() - i,
        {
            let mv = pseudo_legal.get(i);
            let mut new_pos = *pos;
            proof {
                assert(move_in_range(pseudo_legal.moves@[i as int], pos.side_to_move));
                assert(pseudo_legal.moves@.subrange(0, i + 1).drop_last() =~= pseudo_legal.moves@.subrange(0, i as int));
                assert(pseudo_legal.moves@.subrange(0, i + 1).last() == mv);
            }
            if new_pos.make_move(mv).is_ok() {
                proof {
                    reveal(move_result);
                    if let Some(np) = move_result(*pos, mv) {
                        Position::lemma_in_check_boards(new_pos, np, opp(new_pos.side_to_move));
                    }
                }
                if !new_pos.is_opponent_in_check() {
                    legal.push(mv);
                }
            }
            i = i + 1;
        }
        assert(pseudo_legal.moves@.subrange(0, i as int) =~= pseudo_legal.moves@);
        legal
    }
}

/// Every move of `ms` starts on a square of `x`.
pub open spec fn all_from(ms: Seq<Move>, x: u64) -> bool {
    forall|i: int| 0 <= i < ms.len() ==> bit_at(x, (#[trigger] ms[i]).from as int)
}

/// A piece of the side to move stands on `sq`.
pub open spec fn own_piece_on(pos: Position, sq: int) -> bool {
    pos.piece_on(sq) matches Some((_, c)) && c == pos.side_to_move
}

/// A castling right is held only with the king of its side on its home square.
pub open spec fn castling_consistent(pos: Position) -> bool {
    let cr = pos.castling_rights.bits();
    &&& (cr & 3u8 != 0 ==> bit_at(pos.bb(Color::White, PieceType::King), 4))
    &&& (cr & 12u8 != 0 ==> bit_at(pos.bb(Color::Black, PieceType::King), 60))
}

proof fn lemma_concat_from(a: Seq<Move>, b: Seq<Move>, x: u64)
    requires
        all_from(a, x),
        all_from(b, x),
    ensures
        all_from(a + b, x),
{
    assert forall|i: int| 0 <= i < (a + b).len() implies bit_at(x, (#[trigger] (a + b)[i]).from as int) by {
        if i < a.len() {
            assert((a + b)[i] == a[i]);
        } else {
            assert((a + b)[i] == b[i - a.len()]);
        }
    }
}

proof fn lemma_expand_from(tos: Seq<u8>, f: spec_fn(u8) -> Seq<Move>, x: u64)
    requires
        forall|j: int| 0 <= j < tos.len() ==> all_from(#[trigger] f(tos[j]), x),
    ensures
        all_from(expand(tos, f), x),
    decreases tos.len(),
{
    if tos.len() > 0 {
        let d = tos.drop_last();
        assert forall|j: int| 0 <= j < d.len() implies all_from(#[trigger] f(d[j]), x) by {
            assert(d[j] == tos[j]);
        }
        lemma_expand_from(d, f, x);
        assert(all_from(f(tos.last()), x)) by {
            assert(tos.last() == tos[tos.len() - 1]);
        }
        lemma_concat_from(expand(d, f), f(tos.last()), x);
    }
}

/// A set of a board's squares keeps a move's origin on that board.
proof fn lemma_from_sub(ms: Seq<Move>, x: u64, y: u64)
    requires
        all_from(ms, x),
        forall|s: int| #[trigger] bit_at(x, s) ==> bit_at(y, s),
    ensures
        all_from(ms, y),
{
}

proof fn lemma_pushes_from(pos: Position, us: Color)
    ensures
        all_from(pawn_pushes(pos, us), pos.bb(us, PieceType::Pawn)),
{
    let pawns = pos.bb(us, PieceType::Pawn);
    let occ = pos.occupied.0;
    let single = pawn_single(pos, us);
    let promos = single & promo_rank(us);
    let quiet = single & !promos;
    let sh = if us == Color::White { pawns << 8u64 } else { pawns >> 8u64 };
    lemma_squares_seq_bits(quiet);
    lemma_squares_seq_bits(promos);
    lemma_squares_seq_bits(pawn_double(pos, us));
    assert forall|j: int| 0 <= j < squares_seq(quiet).len() implies all_from(
        #[trigger] push_f(8, us, MoveType::Normal)(squares_seq(quiet)[j]),
        pawns,
    ) by {
        let t = squares_seq(quiet)[j] as int;
        lemma_and_bits(single, !promos, t);
        lemma_and_bits(sh, !occ, t);
        if us == Color::White {
            lemma_shl_bits_high(pawns, 8, t);
        } else {
            lemma_shr_bits_low(pawns, 8, t);
        }
    }
    assert forall|j: int| 0 <= j < squares_seq(promos).len() implies all_from(
        #[trigger] promo_push_f(8, us)(squares_seq(promos)[j]),
        pawns,
    ) by {
        let t = squares_seq(promos)[j] as int;
        lemma_and_bits(single, promo_rank(us), t);
        lemma_and_bits(sh, !occ, t);
        if us == Color::White {
            lemma_shl_bits_high(pawns, 8, t);
        } else {
            lemma_shr_bits_low(pawns, 8, t);
        }
    }
    let start = pawns & crate::movegen::start_rank(us);
    assert forall|j: int| 0 <= j < squares_seq(pawn_double(pos, us)).len() implies all_from(
        #[trigger] push_f(16, us, MoveType::DoublePawnPush)(squares_seq(pawn_double(pos, us))[j]),
        pawns,
    ) by {
        let t = squares_seq(pawn_double(pos, us))[j] as int;
        if us == Color::White {
            let a = (start << 8u64) << 8u64;
            lemma_and_bits(a & !occ, !(occ | (occ << 8u64)), t);
            lemma_and_bits(a, !occ, t);
            lemma_shl_bits_high(start << 8u64, 8, t);
            lemma_shl_bits_high(start, 8, t - 8);
            lemma_and_bits(pawns, crate::movegen::start_rank(us), t - 16);
        } else {
            let a = (start >> 8u64) >> 8u64;
            lemma_and_bits(a & !occ, !(occ | (occ >> 8u64)), t);
            lemma_and_bits(a, !occ, t);
            lemma_shr_bits_low(start >> 8u64, 8, t);
            lemma_shr_bits_low(start, 8, t + 8);
            lemma_and_bits(pawns, crate::movegen::start_rank(us), t + 16);
        }
    }
    lemma_expand_from(squares_seq(quiet), push_f(8, us, MoveType::Normal), pawns);
    lemma_expand_from(squares_seq(promos), promo_push_f(8, us), pawns);
    lemma_expand_from(squares_seq(pawn_double(pos, us)), push_f(16, us, MoveType::DoublePawnPush), pawns);
    lemma_concat_from(
        expand(squares_seq(quiet), push_f(8, us, MoveType::Normal)),
        expand(squares_seq(promos), promo_push_f(8, us)),
        pawns,
    );
    lemma_concat_from(
        expand(squares_seq(quiet), push_f(8, us, MoveType::Normal)) + expand(squares_seq(promos), promo_push_f(8, us)),
        expand(squares_seq(pawn_double(pos, us)), push_f(16, us, MoveType::DoublePawnPush)),
        pawns,
    );
}

proof fn lemma_captures_from(pos: Position, us: Color, left: bool)
    ensures
        all_from(pawn_captures(pos, us, left), pos.bb(us, PieceType::Pawn)),
{
    let pawns = pos.bb(us, PieceType::Pawn);
    let k = cap_offset(us, left);
    let dir = pawn_dir(pos, us, left);
    let caps = dir & pos.cbb(opp(us));
    let promo_caps = caps & promo_rank(us);
    let normal = caps & !promo_caps;
    lemma_squares_seq_bits(normal);
    lemma_squares_seq_bits(promo_caps);
    assert forall|t: int| #[trigger] bit_at(dir, t) implies bit_at(pawns, behind(t as u8, k, us) as int) by {
        if us == Color::White {
            if left {
                lemma_and_bits(pawns << 7u64, crate::bitboard::not_h_file(), t);
                lemma_shl_bits_high(pawns, 7, t);
            } else {
                lemma_and_bits(pawns << 9u64, crate::bitboard::not_a_file(), t);
                lemma_shl_bits_high(pawns, 9, t);
            }
        } else {
            if left {
                lemma_and_bits(pawns >> 9u64, crate::bitboard::not_h_file(), t);
                lemma_shr_bits_low(pawns, 9, t);
            } else {
                lemma_and_bits(pawns >> 7u64, crate::bitboard::not_a_file(), t);
                lemma_shr_bits_low(pawns, 7, t);
            }
        }
    }
    assert forall|j: int| 0 <= j < squares_seq(normal).len() implies all_from(
        #[trigger] cap_f(k, us)(squares_seq(normal)[j]),
        pawns,
    ) by {
        let t = squares_seq(normal)[j] as int;
        lemma_and_bits(caps, !promo_caps, t);
        lemma_and_bits(dir, pos.cbb(opp(us)), t);
    }
    assert forall|j: int| 0 <= j < squares_seq(promo_caps).len() implies all_from(
        #[trigger] promo_cap_f(k, us)(squares_seq(promo_caps)[j]),
        pawns,
    ) by {
        let t = squares_seq(promo_caps)[j] as int;
        lemma_and_bits(caps, promo_rank(us), t);
        lemma_and_bits(dir, pos.cbb(opp(us)), t);
    }
    lemma_expand_from(squares_seq(normal), cap_f(k, us), pawns);
    lemma_expand_from(squares_seq(promo_caps), promo_cap_f(k, us), pawns);
    lemma_concat_from(expand(squares_seq(normal), cap_f(k, us)), expand(squares_seq(promo_caps), promo_cap_f(k, us)), pawns);
}

proof fn lemma_pawns_from(pos: Position, us: Color)
    ensures
        all_from(pawn_moves(pos, us), pos.bb(us, PieceType::Pawn)),
{
    let pawns = pos.bb(us, PieceType::Pawn);
    lemma_pushes_from(pos, us);
    lemma_captures_from(pos, us, true);
    lemma_captures_from(pos, us, false);
    lemma_concat_from(pawn_captures(pos, us, true), pawn_captures(pos, us, false), pawns);
    let ep_part = match pos.en_passant_square {
        Some(ep) => expand(squares_seq(ep_attackers(ep, pawns, us)), to_f(ep, MoveType::EnPassant)),
        None => Seq::empty(),
    };
    match pos.en_passant_square {
        Some(ep) => {
            let att = ep_attackers(ep, pawns, us);
            lemma_squares_seq_bits(att);
            let e = 1u64 << ep;
            let m = if us == Color::White {
                ((e >> 9u64) & crate::bitboard::not_h_file()) | ((e >> 7u64) & crate::bitboard::not_a_file())
            } else {
                ((e << 7u64) & crate::bitboard::not_h_file()) | ((e << 9u64) & crate::bitboard::not_a_file())
            };
            assert forall|j: int| 0 <= j < squares_seq(att).len() implies all_from(
                #[trigger] to_f(ep, MoveType::EnPassant)(squares_seq(att)[j]),
                pawns,
            ) by {
                let t = squares_seq(att)[j] as int;
                lemma_and_bits(m, pawns, t);
            }
            lemma_expand_from(squares_seq(att), to_f(ep, MoveType::EnPassant), pawns);
        },
        None => {},
    }
    lemma_concat_from(pawn_captures(pos, us, true) + pawn_captures(pos, us, false), ep_part, pawns);
    lemma_concat_from(pawn_pushes(pos, us), pawn_takes(pos, us), pawns);
}

proof fn lemma_targets_from(from: u8, valid: u64, them: u64, occ: u64, x: u64)
    requires
        bit_at(x, from as int),
    ensures
        all_from(targets_moves(from, valid, them, occ), x),
{
    let a = squares_seq(valid & them).map_values(|t: u8| mk(from, t, MoveType::Capture));
    let b = squares_seq(valid & !occ).map_values(|t: u8| mk(from, t, MoveType::Normal));
    assert(all_from(a, x));
    assert(all_from(b, x));
    lemma_concat_from(a, b, x);
}

proof fn lemma_pieces_from(pos: Position, us: Color, p: PieceType)
    requires
        p == PieceType::Bishop || p == PieceType::Rook || p == PieceType::Queen || p == PieceType::Knight,
    ensures
        all_from(if p == PieceType::Knight { knight_moves(pos, us) } else { slider_moves(pos, us, p) }, pos.bb(us, p)),
{
    let bb = pos.bb(us, p);
    lemma_squares_seq_bits(bb);
    if p == PieceType::Knight {
        assert forall|j: int| 0 <= j < squares_seq(bb).len() implies all_from(#[trigger] knight_f(pos, us)(squares_seq(bb)[j]), bb) by {
            let f = squares_seq(bb)[j];
            lemma_targets_from(f, knight_attacks(f), pos.cbb(opp(us)), pos.occupied.0, bb);
        }
        lemma_expand_from(squares_seq(bb), knight_f(pos, us), bb);
    } else {
        assert forall|j: int| 0 <= j < squares_seq(bb).len() implies all_from(#[trigger] slider_f(pos, us, p)(squares_seq(bb)[j]), bb) by {
            let f = squares_seq(bb)[j];
            let att = crate::movegen::slider_attacks(p, f, pos.occupied.0);
            lemma_targets_from(f, att & !(att & pos.cbb(us)), pos.cbb(opp(us)), pos.occupied.0, bb);
        }
        lemma_expand_from(squares_seq(bb), slider_f(pos, us, p), bb);
    }
}

/// Every pseudo-legal move starts on a square holding a piece of the side to move, in a
/// position whose boards are in shape and whose castling rights go with a king at home.
pub proof fn lemma_pseudo_from_own(pos: Position)
    requires
        pos.wf(),
        pos.disjoint_boards(),
        castling_consistent(pos),
    ensures
        forall|i: int| 0 <= i < pseudo_moves(pos).len() ==> own_piece_on(pos, #[trigger] pseudo_moves(pos)[i].from as int),
{
    reveal(pseudo_moves);
    let us = pos.side_to_move;
    let own = pos.cbb(us);
    assert forall|p: PieceType, s: int| #[trigger] bit_at(pos.bb(us, p), s) implies bit_at(own, s) by {
        pos.lemma_color_bits(us, s);
    }
    lemma_pawns_from(pos, us);
    lemma_from_sub(pawn_moves(pos, us), pos.bb(us, PieceType::Pawn), own);
    lemma_pieces_from(pos, us, PieceType::Knight);
    lemma_from_sub(knight_moves(pos, us), pos.bb(us, PieceType::Knight), own);
    lemma_pieces_from(pos, us, PieceType::Bishop);
    lemma_from_sub(slider_moves(pos, us, PieceType::Bishop), pos.bb(us, PieceType::Bishop), own);
    lemma_pieces_from(pos, us, PieceType::Rook);
    lemma_from_sub(slider_moves(pos, us, PieceType::Rook), pos.bb(us, PieceType::Rook), own);
    lemma_pieces_from(pos, us, PieceType::Queen);
    lemma_from_sub(slider_moves(pos, us, PieceType::Queen), pos.bb(us, PieceType::Queen), own);
    let king = pos.bb(us, PieceType::King);
    if king != 0 {
        vstd::std_specs::bits::axiom_u64_trailing_zeros(king);
        let from = u64_tz(king);
        assert(bit_at(king, from as int));
        let att = king_attacks(from);
        lemma_targets_from(from, att & !(att & pos.cbb(us)), pos.cbb(opp(us)), pos.occupied.0, king);
    }
    assert(all_from(king_moves(pos, us), king));
    lemma_from_sub(king_moves(pos, us), king, own);
    let cr = pos.castling_rights.bits();
    assert(cr & 1u8 != 0 ==> cr & 3u8 != 0) by (bit_vector);
    assert(cr & 2u8 != 0 ==> cr & 3u8 != 0) by (bit_vector);
    assert(cr & 4u8 != 0 ==> cr & 12u8 != 0) by (bit_vector);
    assert(cr & 8u8 != 0 ==> cr & 12u8 != 0) by (bit_vector);
    assert(all_from(castling_moves(pos, us), king));
    lemma_from_sub(castling_moves(pos, us), king, own);
    let s1 = pawn_moves(pos, us);
    let s2 = knight_moves(pos, us);
    let s3 = slider_moves(pos, us, PieceType::Bishop);
    let s4 = slider_moves(pos, us, PieceType::Rook);
    let s5 = slider_moves(pos, us, PieceType::Queen);
    let s6 = king_moves(pos, us);
    let s7 = castling_moves(pos, us);
    lemma_concat_from(s1, s2, own);
    lemma_concat_from(s1 + s2, s3, own);
    lemma_concat_from(s1 + s2 + s3, s4, own);
    lemma_concat_from(s1 + s2 + s3 + s4, s5, own);
    lemma_concat_from(s1 + s2 + s3 + s4 + s5, s6, own);
    lemma_concat_from(s1 + s2 + s3 + s4 + s5 + s6, s7, own);
    let all = pseudo_moves(pos);
    assert forall|i: int| 0 <= i < all.len() implies own_piece_on(pos, #[trigger] all[i].from as int) by {
        let f = all[i].from as int;
        assert(bit_at(own, f));
        pos.lemma_color_bits(us, f);
        pos.lemma_color_bits(opp(us), f);
        if us == Color::Black && bit_at(pos.cbb(Color::White), f) {
            let tb = choose|t: PieceType| bit_at(pos.bb(Color::Black, t), f);
            let tw = choose|t: PieceType| bit_at(pos.bb(Color::White, t), f);
            assert(bit_at(pos.bb(Color::Black, tb), f) && bit_at(pos.bb(Color::White, tw), f));
        }
    }
}

} // verus!
