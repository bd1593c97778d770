use vstd::prelude::*;
use crate::position::{Color, PieceType, Position};
use crate::evaluation::{PAWN_TABLE, KNIGHT_TABLE, KING_MIDDLE_GAME_TABLE};

verus! {

pub const PAWN_VALUE: i32 = 100;
pub const KNIGHT_VALUE: i32 = 320;
pub const BISHOP_VALUE: i32 = 330;
pub const ROOK_VALUE: i32 = 500;
pub const QUEEN_VALUE: i32 = 900;
pub const BISHOP_PAIR_BONUS: i32 = 50;

/// Material value of a piece type; the king counts nothing.
pub open spec fn base_value(p: PieceType) -> int {
    match p {
        PieceType::Pawn => PAWN_VALUE as int,
        PieceType::Knight => KNIGHT_VALUE as int,
        PieceType::Bishop => BISHOP_VALUE as int,
        PieceType::Rook => ROOK_VALUE as int,
        PieceType::Queen => QUEEN_VALUE as int,
        PieceType::King => 0,
    }
}

/// Table bonus: pawns, knights and the king have tables (middle game), the others none.
pub open spec fn pst_value(p: PieceType, sq: int, c: Color) -> int {
    let idx = if c == Color::White {
        sq
    } else {
        (sq as u8 ^ 56u8) as int
    };
    match p {
        PieceType::Pawn => PAWN_TABLE@[idx] as int,
        PieceType::Knight => KNIGHT_TABLE@[idx] as int,
        PieceType::King => KING_MIDDLE_GAME_TABLE@[idx] as int,
        _ => 0,
    }
}

/// Contribution of square `sq` from white's side.
pub open spec fn square_term(pos: Position, sq: int) -> int {
    match pos.piece_on(sq) {
        Some((p, c)) => if c == Color::White {
            base_value(p) + pst_value(p, sq, c)
        } else {
            -(base_value(p) + pst_value(p, sq, c))
        },
        None => 0,
    }
}

/// Sum of the square terms of squares `0..k`.
pub open spec fn v3_material(pos: Position, k: nat) -> int
    decreases k,
{
    if k == 0 {
        0
    } else {
        v3_material(pos, (k - 1) as nat) + square_term(pos, k - 1)
    }
}

/// Number of squares in `0..k` showing a bishop of colour `c`.
pub open spec fn bishops_seen(pos: Position, c: Color, k: nat) -> nat
    decreases k,
{
    if k == 0 {
        0
    } else {
        bishops_seen(pos, c, (k - 1) as nat) + if pos.piece_on(k - 1) == Some((PieceType::Bishop, c)) {
            1nat
        } else {
            0nat
        }
    }
}

/// The evaluation from white's side.
pub open spec fn v3_white(pos: Position) -> int {
    v3_material(pos, 64) + (if bishops_seen(pos, Color::White, 64) >= 2 {
        BISHOP_PAIR_BONUS as int
    } else {
        0
    }) - (if bishops_seen(pos, Color::Black, 64) >= 2 {
        BISHOP_PAIR_BONUS as int
    } else {
        0
    })
}

pub struct EvaluatorV3;

impl EvaluatorV3 {
    /// Material and table evaluation from the side to move's view, with a bishop pair bonus.
    pub fn evaluate(pos: &Position) -> (r: i32)
        ensures
            r == (if pos.side_to_move == Color::White {
                v3_white(*pos)
            } else {
                -v3_white(*pos)
            }),
    {
        let mut score: i32 = 0;
        let mut white_bishops: u32 = 0;
        let mut black_bishops: u32 = 0;
        let mut sq: u8 = 0;
        while sq < 64
            invariant
                sq <= 64,
                score == v3_material(*pos, sq as nat),
                white_bishops == bishops_seen(*pos, Color::White, sq as nat),
                black_bishops == bishops_seen(*pos, Color::Black, sq as nat),
                -951 * sq <= score <= 951 * sq,
                white_bishops <= sq,
                black_bishops <= sq,
            decreases 64 - sq,
        {
            if let Some((piece_type, color)) = pos.piece_at(sq) {
                let base_value = match piece_type {
                    PieceType::Pawn => PAWN_VALUE,
                    PieceType::Knight => KNIGHT_VALUE,
                    PieceType::Bishop => BISHOP_VALUE,
                    PieceType::Rook => ROOK_VALUE,
                    PieceType::Queen => QUEEN_VALUE,
                    PieceType::King => 0,
                };
                let pst_value = Self::get_pst_value(piece_type, sq as usize, color);
                let piece_value = base_value + pst_value;
                if color == Color::White {
                    score = score + piece_value;
                    if piece_type == PieceType::Bishop {
                        white_bishops = white_bishops + 1;
                    }
                } else {
                    score = score - piece_value;
                    if piece_type == PieceType::Bishop {
                        black_bishops = black_bishops + 1;
                    }
                }
            }
            sq = sq + 1;
        }
        if white_bishops >= 2 {
            score = score + BISHOP_PAIR_BONUS;
        }
        if black_bishops >= 2 {
            score = score - BISHOP_PAIR_BONUS;
        }
        if pos.side_to_move == Color::White {
            score
        } else {
            -score
        }
    }

    fn get_pst_value(piece_type: PieceType, sq: usize, color: Color) -> (r: i32)
        requires
            sq < 64,
        ensures
            r == pst_value(piece_type, sq as int, color),
            -50 <= r <= 50,
    {
        let sq_idx: usize = if color == Color::White {
            sq
        } else {
            sq ^ 56
        };
        proof {
            assert(sq < 64 ==> (sq ^ 56usize) < 64) by (bit_vector);
            assert(sq < 64 ==> (sq ^ 56usize) == ((sq as u8) ^ 56u8) as usize) by (bit_vector);
        }
        match piece_type {
            PieceType::Pawn => PAWN_TABLE[sq_idx],
            PieceType::Knight => KNIGHT_TABLE[sq_idx],
            PieceType::King => KING_MIDDLE_GAME_TABLE[sq_idx],
            _ => 0,
        }
    }
}

/// The square facing `s` across the middle of the board (same file, rank `7 - rank`).
pub open spec fn flip_sq(s: int) -> int {
    (7 - s / 8) * 8 + s % 8
}

/// A piece with its colour swapped.
pub open spec fn swap_colour(x: Option<(PieceType, Color)>) -> Option<(PieceType, Color)> {
    match x {
        Some((t, c)) => Some((t, crate::position::opp(c))),
        None => None,
    }
}

/// `m` is `p` mirrored: every piece moved to the facing square with its colour swapped, and
/// the other side to move.
pub open spec fn mirror_of(m: Position, p: Position) -> bool {
    &&& forall|s: int| 0 <= s < 64 ==> #[trigger] m.piece_on(flip_sq(s)) == swap_colour(p.piece_on(s))
    &&& m.side_to_move == crate::position::opp(p.side_to_move)
}

/// Sum of `f` over squares `0..k`.
pub open spec fn sq_sum(f: spec_fn(int) -> int, k: nat) -> int
    decreases k,
{
    if k == 0 {
        0
    } else {
        sq_sum(f, (k - 1) as nat) + f(k - 1)
    }
}

proof fn lemma_sq_sum_flip(f: spec_fn(int) -> int)
    ensures
        sq_sum(f, 64) == sq_sum(|s: int| f(flip_sq(s)), 64),
{
    reveal_with_fuel(sq_sum, 65);
}

proof fn lemma_sq_sum_ext(f: spec_fn(int) -> int, g: spec_fn(int) -> int, k: nat)
    requires
        forall|s: int| 0 <= s < k ==> #[trigger] g(s) == -f(s),
    ensures
        sq_sum(g, k) == -sq_sum(f, k),
    decreases k,
{
    if k > 0 {
        lemma_sq_sum_ext(f, g, (k - 1) as nat);
    }
}

proof fn lemma_sq_sum_same(f: spec_fn(int) -> int, g: spec_fn(int) -> int, k: nat)
    requires
        forall|s: int| 0 <= s < k ==> #[trigger] g(s) == f(s),
    ensures
        sq_sum(g, k) == sq_sum(f, k),
    decreases k,
{
    if k > 0 {
        lemma_sq_sum_same(f, g, (k - 1) as nat);
    }
}

proof fn lemma_material_sum(pos: Position, k: nat)
    ensures
        v3_material(pos, k) == sq_sum(|s: int| square_term(pos, s), k),
    decreases k,
{
    if k > 0 {
        lemma_material_sum(pos, (k - 1) as nat);
    }
}

proof fn lemma_bishops_sum(pos: Position, c: Color, k: nat)
    ensures
        bishops_seen(pos, c, k) as int == sq_sum(
            |s: int| if pos.piece_on(s) == Some((PieceType::Bishop, c)) { 1int } else { 0int },
            k,
        ),
    decreases k,
{
    if k > 0 {
        lemma_bishops_sum(pos, c, (k - 1) as nat);
    }
}

proof fn lemma_flip_xor(s: int)
    requires
        0 <= s < 64,
    ensures
        ((s as u8) ^ 56u8) as int == flip_sq(s),
        0 <= flip_sq(s) < 64,
        ((flip_sq(s) as u8) ^ 56u8) as int == s,
        flip_sq(flip_sq(s)) == s,
{
    let x = s as u8;
    assert(x < 64 ==> (x ^ 56u8) == (7 - x / 8) * 8 + x % 8 && ((((7 - x / 8) * 8 + x % 8) as u8) ^ 56u8) == x) by (bit_vector);
}

/// Mirroring a position (pieces to the facing squares with colours swapped, the other side to
/// move) leaves the evaluation from the side to move's view unchanged.
pub proof fn lemma_v3_mirror(m: Position, p: Position)
    requires
        mirror_of(m, p),
    ensures
        v3_white(m) == -v3_white(p),
        (if m.side_to_move == Color::White { v3_white(m) } else { -v3_white(m) }) == (if p.side_to_move
            == Color::White {
            v3_white(p)
        } else {
            -v3_white(p)
        }),
{
    let fm = |s: int| square_term(m, s);
    let fp = |s: int| square_term(p, s);
    lemma_material_sum(m, 64);
    lemma_material_sum(p, 64);
    lemma_sq_sum_flip(fm);
    let gm = |t: int| fm(flip_sq(t));
    assert forall|s: int| 0 <= s < 64 implies #[trigger] gm(s) == -fp(s) by {
        lemma_flip_xor(s);
        let q = p.piece_on(s);
        assert(m.piece_on(flip_sq(s)) == swap_colour(q));
    }
    lemma_sq_sum_ext(fp, gm, 64);
    let bw = |s: int| if m.piece_on(s) == Some((PieceType::Bishop, Color::White)) { 1int } else { 0int };
    let bb = |s: int| if p.piece_on(s) == Some((PieceType::Bishop, Color::Black)) { 1int } else { 0int };
    let bw2 = |s: int| if m.piece_on(s) == Some((PieceType::Bishop, Color::Black)) { 1int } else { 0int };
    let bb2 = |s: int| if p.piece_on(s) == Some((PieceType::Bishop, Color::White)) { 1int } else { 0int };
    lemma_bishops_sum(m, Color::White, 64);
    lemma_bishops_sum(p, Color::Black, 64);
    lemma_bishops_sum(m, Color::Black, 64);
    lemma_bishops_sum(p, Color::White, 64);
    lemma_sq_sum_flip(bw);
    lemma_sq_sum_flip(bw2);
    let gw = |t: int| bw(flip_sq(t));
    let gw2 = |t: int| bw2(flip_sq(t));
    assert forall|s: int| 0 <= s < 64 implies #[trigger] gw(s) == bb(s) by {
        assert(m.piece_on(flip_sq(s)) == swap_colour(p.piece_on(s)));
    }
    assert forall|s: int| 0 <= s < 64 implies #[trigger] gw2(s) == bb2(s) by {
        assert(m.piece_on(flip_sq(s)) == swap_colour(p.piece_on(s)));
    }
    lemma_sq_sum_same(bb, gw, 64);
    lemma_sq_sum_same(bb2, gw2, 64);
}

} // verus!
