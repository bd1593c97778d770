use vstd::prelude::*;
use crate::bitboard::{
    Bitboard, squares_seq, popcount, not_a_file, not_h_file, lemma_squares_seq_len,
    lemma_squares_seq_bits, lemma_popcount_bound, FILE_A_BB,
};
use crate::position::{Color, PieceType, Position, piece_index, knight_attacks, get_knight_attacks, u64_tz, opp};
use crate::attacks::{bishop_attacks, rook_attacks, get_bishop_attacks, get_rook_attacks};

verus! {

/// A score beyond every reachable evaluation.
pub const INFINITY: i32 = 30000;

/// The score of a side that is mated at the root.
pub const MATE_SCORE: i32 = 29000;

/// Material values in centipawns, pawn to king.
pub const PIECE_VALUES: [i32; 6] = [100, 320, 330, 500, 900, 20000];

/// Piece-square tables, from white's side (a1 first); black looks them up rank-mirrored.
pub const PAWN_TABLE: [i32; 64] = [
     0,   0,   0,   0,   0,   0,   0,   0,
    50,  50,  50,  50,  50,  50,  50,  50,
    10,  10,  20,  30,  30,  20,  10,  10,
     5,   5,  10,  25,  25,  10,   5,   5,
     0,   0,   0,  20,  20,   0,   0,   0,
     5,  -5, -10,   0,   0, -10,  -5,   5,
     5,  10,  10, -20, -20,  10,  10,   5,
     0,   0,   0,   0,   0,   0,   0,   0,
];

pub const KNIGHT_TABLE: [i32; 64] = [
    -50, -40, -30, -30, -30, -30, -40, -50,
    -40, -20,   0,   0,   0,   0, -20, -40,
    -30,   0,  10,  15,  15,  10,   0, -30,
    -30,   5,  15,  20,  20,  15,   5, -30,
    -30,   0,  15,  20,  20,  15,   0, -30,
    -30,   5,  10,  15,  15,  10,   5, -30,
    -40, -20,   0,   5,   5,   0, -20, -40,
    -50, -40, -30, -30, -30, -30, -40, -50,
];

pub const BISHOP_TABLE: [i32; 64] = [
    -20, -10, -10, -10, -10, -10, -10, -20,
    -10,   0,   0,   0,   0,   0,   0, -10,
    -10,   0,   5,  10,  10,   5,   0, -10,
    -10,   5,   5,  10,  10,   5,   5, -10,
    -10,   0,  10,  10,  10,  10,   0, -10,
    -10,  10,  10,  10,  10,  10,  10, -10,
    -10,   5,   0,   0,   0,   0,   5, -10,
    -20, -10, -10, -10, -10, -10, -10, -20,
];

pub const ROOK_TABLE: [i32; 64] = [
     0,   0,   0,   0,   0,   0,   0,   0,
     5,  10,  10,  10,  10,  10,  10,   5,
    -5,   0,   0,   0,   0,   0,   0,  -5,
    -5,   0,   0,   0,   0,   0,   0,  -5,
    -5,   0,   0,   0,   0,   0,   0,  -5,
    -5,   0,   0,   0,   0,   0,   0,  -5,
    -5,   0,   0,   0,   0,   0,   0,  -5,
     0,   0,   0,   5,   5,   0,   0,   0,
];

pub const QUEEN_TABLE: [i32; 64] = [
    -20, -10, -10,  -5,  -5, -10, -10, -20,
    -10,   0,   0,   0,   0,   0,   0, -10,
    -10,   0,   5,   5,   5,   5,   0, -10,
     -5,   0,   5,   5,   5,   5,   0,  -5,
      0,   0,   5,   5,   5,   5,   0,  -5,
    -10,   5,   5,   5,   5,   5,   0, -10,
    -10,   0,   5,   0,   0,   0,   0, -10,
    -20, -10, -10,  -5,  -5, -10, -10, -20,
];

pub const KING_MIDDLE_GAME_TABLE: [i32; 64] = [
    -30, -40, -40, -50, -50, -40, -40, -30,
    -30, -40, -40, -50, -50, -40, -40, -30,
    -30, -40, -40, -50, -50, -40, -40, -30,
    -30, -40, -40, -50, -50, -40, -40, -30,
    -20, -30, -30, -40, -40, -30, -30, -20,
    -10, -20, -20, -20, -20, -20, -20, -10,
     20,  20,   0,   0,   0,   0,  20,  20,
     20,  30,  10,   0,   0,  10,  30,  20,
];

pub const KING_END_GAME_TABLE: [i32; 64] = [
    -50, -40, -30, -20, -20, -30, -40, -50,
    -30, -20, -10,   0,   0, -10, -20, -30,
    -30, -10,  20,  30,  30,  20, -10, -30,
    -30, -10,  30,  40,  40,  30, -10, -30,
    -30, -10,  30,  40,  40,  30, -10, -30,
    -30, -10,  20,  30,  30,  20, -10, -30,
    -30, -30,   0,   0,   0,   0, -30, -30,
    -50, -30, -30, -30, -30, -30, -30, -50,
];

/// Sum of `f` over a list of squares.
pub open spec fn sum_sq(s: Seq<u8>, f: spec_fn(u8) -> int) -> int
    decreases s.len(),
{
    if s.len() == 0 {
        0
    } else {
        f(s[0]) + sum_sq(s.drop_first(), f)
    }
}

/// Table index of a square for a colour: black squares are mirrored rank-wise.
pub open spec fn pst_index(square: u8, c: Color) -> int {
    if c == Color::White {
        square as int
    } else {
        (square ^ 56u8) as int
    }
}

/// Piece-square bonus of a piece type at a table index.
pub open spec fn pst_bonus(p: PieceType, idx: int, endgame: bool) -> int {
    match p {
        PieceType::Pawn => PAWN_TABLE@[idx] as int,
        PieceType::Knight => KNIGHT_TABLE@[idx] as int,
        PieceType::Bishop => BISHOP_TABLE@[idx] as int,
        PieceType::Rook => ROOK_TABLE@[idx] as int,
        PieceType::Queen => QUEEN_TABLE@[idx] as int,
        PieceType::King => if endgame {
            KING_END_GAME_TABLE@[idx] as int
        } else {
            KING_MIDDLE_GAME_TABLE@[idx] as int
        },
    }
}

pub open spec fn value_of(p: PieceType) -> int {
    PIECE_VALUES@[piece_index(p)] as int
}

/// Number of pieces of a colour and type.
pub open spec fn count_of(pos: Position, c: Color, p: PieceType) -> int {
    popcount(pos.bb(c, p)) as int
}

/// Few pieces left: no queens, or at most two queens, two minors and two rooks in all.
pub open spec fn is_endgame(pos: Position) -> bool {
    let queens = count_of(pos, Color::White, PieceType::Queen) + count_of(pos, Color::Black, PieceType::Queen);
    let minors = count_of(pos, Color::White, PieceType::Knight) + count_of(pos, Color::Black, PieceType::Knight)
        + count_of(pos, Color::White, PieceType::Bishop) + count_of(pos, Color::Black, PieceType::Bishop);
    let rooks = count_of(pos, Color::White, PieceType::Rook) + count_of(pos, Color::Black, PieceType::Rook);
    queens == 0 || (queens <= 2 && minors <= 2 && rooks <= 2)
}

/// Value plus table bonus of one piece on a square.
pub open spec fn pst_term(p: PieceType, c: Color, endgame: bool) -> spec_fn(u8) -> int {
    |s: u8| value_of(p) + pst_bonus(p, pst_index(s, c), endgame)
}

pub open spec fn piece_score(pos: Position, c: Color, p: PieceType) -> int {
    sum_sq(squares_seq(pos.bb(c, p)), pst_term(p, c, is_endgame(pos)))
}

/// Material and piece-square score of one colour.
pub open spec fn material_pst(pos: Position, c: Color) -> int {
    piece_score(pos, c, PieceType::Pawn) + piece_score(pos, c, PieceType::Knight) + piece_score(
        pos,
        c,
        PieceType::Bishop,
    ) + piece_score(pos, c, PieceType::Rook) + piece_score(pos, c, PieceType::Queen) + piece_score(
        pos,
        c,
        PieceType::King,
    )
}

pub open spec fn file_mask(f: int) -> u64 {
    FILE_A_BB << (f as u64)
}

/// Doubled-pawn penalty over the first `k` files.
pub open spec fn doubled_penalty(pawns: u64, k: nat) -> int
    decreases k,
{
    if k == 0 {
        0
    } else {
        let n = popcount(pawns & file_mask(k - 1)) as int;
        doubled_penalty(pawns, (k - 1) as nat) + if n > 1 {
            -20 * (n - 1)
        } else {
            0
        }
    }
}

/// The files next to file `f`.
pub open spec fn neighbor_files(f: int) -> u64 {
    if f == 0 {
        file_mask(1)
    } else if f == 7 {
        file_mask(6)
    } else {
        file_mask(f - 1) | file_mask(f + 1)
    }
}

pub open spec fn isolated_term(pawns: u64) -> spec_fn(u8) -> int {
    |s: u8| if pawns & neighbor_files((s % 8) as int) == 0 { -15int } else { 0int }
}

/// The file of `square` and its neighbours.
pub open spec fn files_to_check(f: int) -> u64 {
    let a = file_mask(f);
    let b = if f > 0 { a | file_mask(f - 1) } else { a };
    if f < 7 { b | file_mask(f + 1) } else { b }
}

/// The ranks in front of a pawn of colour `c` on `square`; the shift is taken modulo 64, as
/// the arithmetic of the optimised build does, so a pawn on its last rank sees the whole board.
pub open spec fn ranks_ahead(square: u8, c: Color) -> u64 {
    let rank = (square / 8) as int;
    if c == Color::White {
        0xFFFF_FFFF_FFFF_FFFFu64 << ((((rank + 1) * 8) % 64) as u64)
    } else {
        0xFFFF_FFFF_FFFF_FFFFu64 >> ((((8 - rank) * 8) % 64) as u64)
    }
}

/// No opposing pawn stands ahead on the pawn's file or the files next to it.
pub open spec fn is_passed(pos: Position, square: u8, c: Color) -> bool {
    pos.bb(crate::position::opp(c), PieceType::Pawn) & files_to_check((square % 8) as int)
        & ranks_ahead(square, c) == 0
}

pub open spec fn passed_term(pos: Position, c: Color) -> spec_fn(u8) -> int {
    |s: u8|
        if is_passed(pos, s, c) {
            if c == Color::White {
                ((s / 8) as int) * 10
            } else {
                (7 - (s / 8) as int) * 10
            }
        } else {
            0int
        }
}

/// Doubled, isolated and passed pawn terms of one colour.
pub open spec fn pawn_structure(pos: Position, c: Color) -> int {
    let pawns = pos.bb(c, PieceType::Pawn);
    doubled_penalty(pawns, 8) + sum_sq(squares_seq(pawns), isolated_term(pawns)) + sum_sq(
        squares_seq(pawns),
        passed_term(pos, c),
    )
}

pub open spec fn knight_mob(own: u64) -> spec_fn(u8) -> int {
    |s: u8| popcount(knight_attacks(s) & !own) as int
}

pub open spec fn bishop_mob(own: u64, occ: u64) -> spec_fn(u8) -> int {
    |s: u8| popcount(bishop_attacks(s, occ) & !own) as int
}

pub open spec fn rook_mob(own: u64, occ: u64) -> spec_fn(u8) -> int {
    |s: u8| popcount(rook_attacks(s, occ) & !own) as int
}

/// Twice the number of target squares (not own pieces) of knights, bishops and rooks.
pub open spec fn mobility(pos: Position, c: Color) -> int {
    let own = pos.cbb(c);
    let occ = pos.occupied.0;
    2 * (sum_sq(squares_seq(pos.bb(c, PieceType::Knight)), knight_mob(own)) + sum_sq(
        squares_seq(pos.bb(c, PieceType::Bishop)),
        bishop_mob(own, occ),
    ) + sum_sq(squares_seq(pos.bb(c, PieceType::Rook)), rook_mob(own, occ)))
}

/// The three squares in front of the king.
pub open spec fn shield_squares(king_square: u8, c: Color) -> u64 {
    let k = 1u64 << king_square;
    if c == Color::White {
        (k << 8u64) | ((k << 9u64) & not_a_file()) | ((k << 7u64) & not_h_file())
    } else {
        (k >> 8u64) | ((k >> 7u64) & not_a_file()) | ((k >> 9u64) & not_h_file())
    }
}

/// Penalty for a file without own pawns, when the file is on the board.
pub open spec fn open_file_penalty(f: int, pawns: u64) -> int {
    if 0 <= f < 8 && file_mask(f) & pawns == 0 {
        -25
    } else {
        0
    }
}

/// Pawn shield bonus and open-file penalties around the king, outside the endgame.
pub open spec fn king_safety(pos: Position, c: Color) -> int {
    let kings = pos.bb(c, PieceType::King);
    if is_endgame(pos) || kings == 0 {
        0
    } else {
        let ks = u64_tz(kings);
        let pawns = pos.bb(c, PieceType::Pawn);
        let kf = (ks % 8) as int;
        15 * popcount(shield_squares(ks, c) & pawns) as int + open_file_penalty(kf - 1, pawns)
            + open_file_penalty(kf, pawns) + open_file_penalty(kf + 1, pawns)
    }
}

pub open spec fn bishop_pair(pos: Position, c: Color) -> int {
    if count_of(pos, c, PieceType::Bishop) >= 2 {
        50
    } else {
        0
    }
}

/// The evaluation from white's side.
pub open spec fn white_score(pos: Position) -> int {
    material_pst(pos, Color::White) - material_pst(pos, Color::Black) + pawn_structure(pos, Color::White)
        - pawn_structure(pos, Color::Black) + mobility(pos, Color::White) - mobility(pos, Color::Black)
        + king_safety(pos, Color::White) - king_safety(pos, Color::Black) + bishop_pair(pos, Color::White)
        - bishop_pair(pos, Color::Black)
}

/// The evaluation from the side to move's view.
pub open spec fn eval_score(pos: Position) -> int {
    if pos.side_to_move == Color::White {
        white_score(pos)
    } else {
        -white_score(pos)
    }
}

/// Passing the move to the other side, the boards unchanged, negates the evaluation.
pub proof fn lemma_eval_side_flip(p: Position)
    ensures
        eval_score(Position { side_to_move: opp(p.side_to_move), ..p }) == -eval_score(p),
{
    let q = Position { side_to_move: opp(p.side_to_move), ..p };
    assert(material_pst(q, Color::White) == material_pst(p, Color::White));
    assert(material_pst(q, Color::Black) == material_pst(p, Color::Black));
    assert(passed_term(q, Color::White) =~= passed_term(p, Color::White));
    assert(passed_term(q, Color::Black) =~= passed_term(p, Color::Black));
    assert(pawn_structure(q, Color::White) == pawn_structure(p, Color::White));
    assert(pawn_structure(q, Color::Black) == pawn_structure(p, Color::Black));
    assert(mobility(q, Color::White) == mobility(p, Color::White));
    assert(mobility(q, Color::Black) == mobility(p, Color::Black));
    assert(king_safety(q, Color::White) == king_safety(p, Color::White));
    assert(king_safety(q, Color::Black) == king_safety(p, Color::Black));
    assert(bishop_pair(q, Color::White) == bishop_pair(p, Color::White));
    assert(bishop_pair(q, Color::Black) == bishop_pair(p, Color::Black));
}

/// A bound on the absolute value of every evaluation.
pub open spec fn eval_bound() -> int {
    16_000_000
}

proof fn lemma_sum_range(s: Seq<u8>, f: spec_fn(u8) -> int, lo: int, hi: int)
    requires
        forall|i: int| 0 <= i < s.len() ==> lo <= #[trigger] f(s[i]) <= hi,
    ensures
        lo * s.len() <= sum_sq(s, f) <= hi * s.len(),
    decreases s.len(),
{
    if s.len() > 0 {
        let t = s.drop_first();
        assert forall|i: int| 0 <= i < t.len() implies lo <= #[trigger] f(t[i]) <= hi by {
            assert(t[i] == s[i + 1]);
        }
        lemma_sum_range(t, f, lo, hi);
        assert(lo <= f(s[0]) <= hi);
        assert(hi * s.len() == hi + hi * t.len() && lo * s.len() == lo + lo * t.len())
            by (nonlinear_arith)
            requires
                s.len() == t.len() + 1,
        ;
    }
}

/// A sum over the squares of a board, each term within `lo..=hi` (`lo <= 0 <= hi`), lies
/// within 64 times those bounds.
proof fn lemma_board_sum(x: u64, f: spec_fn(u8) -> int, lo: int, hi: int)
    requires
        lo <= 0 <= hi,
        forall|s: u8| s < 64 ==> lo <= #[trigger] f(s) <= hi,
    ensures
        64 * lo <= sum_sq(squares_seq(x), f) <= 64 * hi,
{
    lemma_squares_seq_len(x);
    lemma_squares_seq_bits(x);
    let s = squares_seq(x);
    assert forall|i: int| 0 <= i < s.len() implies lo <= #[trigger] f(s[i]) <= hi by {
        assert(s[i] < 64);
    }
    lemma_sum_range(s, f, lo, hi);
    assert(hi * s.len() <= 64 * hi && 64 * lo <= lo * s.len()) by (nonlinear_arith)
        requires
            s.len() <= 64,
            lo <= 0 <= hi,
    ;
}

/// Popping the lowest square splits a sum into its first term and the rest.
proof fn lemma_sum_pop(r: u8, rest: Seq<u8>, f: spec_fn(u8) -> int)
    ensures
        sum_sq(seq![r] + rest, f) == f(r) + sum_sq(rest, f),
{
    assert((seq![r] + rest).drop_first() =~= rest);
    assert((seq![r] + rest)[0] == r);
}

proof fn lemma_passed_bounded(pos: Position, c: Color)
    ensures
        forall|s: u8| s < 64 ==> 0 <= #[trigger] passed_term(pos, c)(s) <= 70,
{
}

proof fn lemma_isolated_bounded(pawns: u64)
    ensures
        forall|s: u8| s < 64 ==> -15 <= #[trigger] isolated_term(pawns)(s) <= 0,
{
}

proof fn lemma_mob_bounded(own: u64, occ: u64)
    ensures
        forall|s: u8| s < 64 ==> 0 <= #[trigger] knight_mob(own)(s) <= 64,
        forall|s: u8| s < 64 ==> 0 <= #[trigger] bishop_mob(own, occ)(s) <= 64,
        forall|s: u8| s < 64 ==> 0 <= #[trigger] rook_mob(own, occ)(s) <= 64,
{
    assert forall|s: u8| s < 64 implies 0 <= #[trigger] knight_mob(own)(s) <= 64 by {
        lemma_popcount_bound(knight_attacks(s) & !own);
    }
    assert forall|s: u8| s < 64 implies 0 <= #[trigger] bishop_mob(own, occ)(s) <= 64 by {
        lemma_popcount_bound(bishop_attacks(s, occ) & !own);
    }
    assert forall|s: u8| s < 64 implies 0 <= #[trigger] rook_mob(own, occ)(s) <= 64 by {
        lemma_popcount_bound(rook_attacks(s, occ) & !own);
    }
}

proof fn lemma_tables_bounded()
    ensures
        forall|i: int| 0 <= i < 64 ==> -50 <= #[trigger] PAWN_TABLE@[i] <= 50,
        forall|i: int| 0 <= i < 64 ==> -50 <= #[trigger] KNIGHT_TABLE@[i] <= 50,
        forall|i: int| 0 <= i < 64 ==> -50 <= #[trigger] BISHOP_TABLE@[i] <= 50,
        forall|i: int| 0 <= i < 64 ==> -50 <= #[trigger] ROOK_TABLE@[i] <= 50,
        forall|i: int| 0 <= i < 64 ==> -50 <= #[trigger] QUEEN_TABLE@[i] <= 50,
        forall|i: int| 0 <= i < 64 ==> -50 <= #[trigger] KING_MIDDLE_GAME_TABLE@[i] <= 50,
        forall|i: int| 0 <= i < 64 ==> -50 <= #[trigger] KING_END_GAME_TABLE@[i] <= 50,
{
}

proof fn lemma_pst_term_bounded(p: PieceType, c: Color, endgame: bool)
    ensures
        forall|s: u8| s < 64 ==> -20050 <= #[trigger] pst_term(p, c, endgame)(s) <= 20050,
{
    lemma_tables_bounded();
    assert forall|s: u8| s < 64 implies -20050 <= #[trigger] pst_term(p, c, endgame)(s) <= 20050 by {
        let idx = pst_index(s, c);
        assert(0 <= idx < 64) by {
            if c != Color::White {
                lemma_flip_on_board(s);
            }
        }
    }
}

/// Mirroring a square top to bottom keeps it on the board.
proof fn lemma_flip_on_board(s: u8)
    ensures
        s < 64 ==> (s ^ 56u8) < 64,
{
    assert(s < 64 ==> (s ^ 56u8) < 64) by (bit_vector);
}

pub struct Evaluator;

impl Evaluator {
    /// Evaluate the position from the side to move's perspective.
    pub fn evaluate(pos: &Position) -> (r: i32)
        ensures
            r == eval_score(*pos),
            -eval_bound() <= r <= eval_bound(),
    {
        let w_mat = Self::evaluate_material_and_pst(pos, Color::White);
        let b_mat = Self::evaluate_material_and_pst(pos, Color::Black);
        let w_pawn = Self::evaluate_pawn_structure(pos, Color::White);
        let b_pawn = Self::evaluate_pawn_structure(pos, Color::Black);
        let w_mob = Self::evaluate_mobility(pos, Color::White);
        let b_mob = Self::evaluate_mobility(pos, Color::Black);
        let w_king = Self::evaluate_king_safety(pos, Color::White);
        let b_king = Self::evaluate_king_safety(pos, Color::Black);
        let mut score: i32 = 0;
        score = score + w_mat;
        score = score - b_mat;
        score = score + w_pawn;
        score = score - b_pawn;
        score = score + w_mob;
        score = score - b_mob;
        score = score + w_king;
        score = score - b_king;
        if Self::has_bishop_pair(pos, Color::White) {
            score = score + 50;
        }
        if Self::has_bishop_pair(pos, Color::Black) {
            score = score - 50;
        }
        if pos.side_to_move == Color::White {
            score
        } else {
            -score
        }
    }

    /// Sum of value plus table bonus over the pieces of one board.
    fn piece_square_sum(pieces: Bitboard, p: PieceType, c: Color, endgame: bool) -> (r: i32)
        ensures
            r == sum_sq(squares_seq(pieces.0), pst_term(p, c, endgame)),
            -1_283_200 <= r <= 1_283_200,
    {
        let ghost f = pst_term(p, c, endgame);
        proof {
            lemma_pst_term_bounded(p, c, endgame);
            lemma_board_sum(pieces.0, f, -20050, 20050);
        }
        let piece_value = PIECE_VALUES[p.index()];
        let mut bb = pieces;
        let mut score: i32 = 0;
        while bb.0 != 0
            invariant
                score + sum_sq(squares_seq(bb.0), f) == sum_sq(squares_seq(pieces.0), f),
                -1_283_200 <= sum_sq(squares_seq(pieces.0), f) <= 1_283_200,
                -1_283_200 <= sum_sq(squares_seq(bb.0), f) <= 1_283_200,
                f == pst_term(p, c, endgame),
                piece_value == value_of(p),
                forall|s: u8| s < 64 ==> -20050 <= #[trigger] f(s) <= 20050,
            decreases bb.0,
        {
            proof {
                crate::bitboard::lemma_clear_lowest_smaller(bb.0);
            }
            let square = bb.pop_lsb();
            proof {
                lemma_board_sum(bb.0, f, -20050, 20050);
                lemma_sum_pop(square, squares_seq(bb.0), f);
            }
            let sq_index: usize = if c == Color::White {
                square as usize
            } else {
                (square ^ 56) as usize
            };
            proof {
                lemma_flip_on_board(square);
                lemma_tables_bounded();
            }
            let pst_bonus = match p {
                PieceType::Pawn => PAWN_TABLE[sq_index],
                PieceType::Knight => KNIGHT_TABLE[sq_index],
                PieceType::Bishop => BISHOP_TABLE[sq_index],
                PieceType::Rook => ROOK_TABLE[sq_index],
                PieceType::Queen => QUEEN_TABLE[sq_index],
                PieceType::King => {
                    if endgame {
                        KING_END_GAME_TABLE[sq_index]
                    } else {
                        KING_MIDDLE_GAME_TABLE[sq_index]
                    }
                },
            };
            assert(f(square) == piece_value + pst_bonus);
            score = score + piece_value;
            score = score + pst_bonus;
        }
        score
    }

    fn evaluate_material_and_pst(pos: &Position, color: Color) -> (r: i32)
        ensures
            r == material_pst(*pos, color),
            -7_699_200 <= r <= 7_699_200,
    {
        let is_endgame = Self::is_endgame(pos);
        let mut score: i32 = 0;
        score = score + Self::piece_square_sum(pos.piece_bb(PieceType::Pawn, color), PieceType::Pawn, color, is_endgame);
        score = score + Self::piece_square_sum(pos.piece_bb(PieceType::Knight, color), PieceType::Knight, color, is_endgame);
        score = score + Self::piece_square_sum(pos.piece_bb(PieceType::Bishop, color), PieceType::Bishop, color, is_endgame);
        score = score + Self::piece_square_sum(pos.piece_bb(PieceType::Rook, color), PieceType::Rook, color, is_endgame);
        score = score + Self::piece_square_sum(pos.piece_bb(PieceType::Queen, color), PieceType::Queen, color, is_endgame);
        score = score + Self::piece_square_sum(pos.piece_bb(PieceType::King, color), PieceType::King, color, is_endgame);
        score
    }

    fn evaluate_pawn_structure(pos: &Position, color: Color) -> (r: i32)
        ensures
            r == pawn_structure(*pos, color),
            -12_000 <= r <= 5_000,
    {
        let pawns = pos.piece_bb(PieceType::Pawn, color);
        let mut score: i32 = 0;
        let mut file: u8 = 0;
        while file < 8
            invariant
                file <= 8,
                score == doubled_penalty(pawns.0, file as nat),
                -1260 * file <= score <= 0,
            decreases 8 - file,
        {
            let file_bb = Bitboard::file(file);
            let pawns_on_file = Bitboard(pawns.0 & file_bb.0).count();
            proof {
                lemma_popcount_bound(pawns.0 & file_bb.0);
            }
            if pawns_on_file > 1 {
                score = score - 20 * (pawns_on_file - 1) as i32;
            }
            file = file + 1;
        }
        let isolated = Self::isolated_sum(pawns);
        let passed = Self::passed_sum(pos, pawns, color);
        score = score + isolated;
        score = score + passed;
        score
    }

    fn isolated_sum(pawns: Bitboard) -> (r: i32)
        ensures
            r == sum_sq(squares_seq(pawns.0), isolated_term(pawns.0)),
            -960 <= r <= 0,
    {
        let ghost f = isolated_term(pawns.0);
        let mut bb = pawns;
        let mut score: i32 = 0;
        proof {
            lemma_isolated_bounded(pawns.0);
            lemma_board_sum(pawns.0, f, -15, 0);
        }
        while bb.0 != 0
            invariant
                score + sum_sq(squares_seq(bb.0), f) == sum_sq(squares_seq(pawns.0), f),
                -960 <= sum_sq(squares_seq(pawns.0), f) <= 0,
                -960 <= sum_sq(squares_seq(bb.0), f) <= 0,
                f == isolated_term(pawns.0),
                forall|s: u8| s < 64 ==> -15 <= #[trigger] f(s) <= 0,
            decreases bb.0,
        {
            proof {
                crate::bitboard::lemma_clear_lowest_smaller(bb.0);
            }
            let square = bb.pop_lsb();
            proof {
                lemma_board_sum(bb.0, f, -15, 0);
                lemma_sum_pop(square, squares_seq(bb.0), f);
            }
            let file = Bitboard::file_of(square);
            let neighbor_files = if file == 0 {
                Bitboard::file(1)
            } else if file == 7 {
                Bitboard::file(6)
            } else {
                Bitboard(Bitboard::file(file - 1).0 | Bitboard::file(file + 1).0)
            };
            if Bitboard(pawns.0 & neighbor_files.0).is_empty() {
                score = score - 15;
            }
        }
        score
    }

    fn passed_sum(pos: &Position, pawns: Bitboard, color: Color) -> (r: i32)
        requires
            pawns.0 == pos.bb(color, PieceType::Pawn),
        ensures
            r == sum_sq(squares_seq(pawns.0), passed_term(*pos, color)),
            0 <= r <= 4480,
    {
        let ghost f = passed_term(*pos, color);
        let mut bb = pawns;
        let mut score: i32 = 0;
        proof {
            lemma_passed_bounded(*pos, color);
            lemma_board_sum(pawns.0, f, 0, 70);
        }
        while bb.0 != 0
            invariant
                score + sum_sq(squares_seq(bb.0), f) == sum_sq(squares_seq(pawns.0), f),
                0 <= sum_sq(squares_seq(pawns.0), f) <= 4480,
                0 <= sum_sq(squares_seq(bb.0), f) <= 4480,
                f == passed_term(*pos, color),
                forall|s: u8| s < 64 ==> 0 <= #[trigger] f(s) <= 70,
            decreases bb.0,
        {
            proof {
                crate::bitboard::lemma_clear_lowest_smaller(bb.0);
            }
            let square = bb.pop_lsb();
            proof {
                lemma_board_sum(bb.0, f, 0, 70);
                lemma_sum_pop(square, squares_seq(bb.0), f);
            }
            if Self::is_passed_pawn(pos, square, color) {
                let rank = Bitboard::rank_of(square);
                let bonus = if color == Color::White {
                    (rank as i32) * 10
                } else {
                    (7 - rank as i32) * 10
                };
                score = score + bonus;
            }
        }
        score
    }

    fn is_passed_pawn(pos: &Position, square: u8, color: Color) -> (r: bool)
        requires
            square < 64,
        ensures
            r == is_passed(*pos, square, color),
    {
        let file = Bitboard::file_of(square);
        let rank = Bitboard::rank_of(square);
        let opp_pawns = pos.piece_bb(PieceType::Pawn, color.opposite());
        let mut files_to_check = Bitboard::file(file);
        if file > 0 {
            files_to_check = Bitboard(files_to_check.0 | Bitboard::file(file - 1).0);
        }
        if file < 7 {
            files_to_check = Bitboard(files_to_check.0 | Bitboard::file(file + 1).0);
        }
        let ranks_ahead = if color == Color::White {
            Bitboard::new(0xFFFF_FFFF_FFFF_FFFFu64 << (((rank + 1) * 8) % 64))
        } else {
            Bitboard::new(0xFFFF_FFFF_FFFF_FFFFu64 >> (((8 - rank) * 8) % 64))
        };
        Bitboard(opp_pawns.0 & files_to_check.0 & ranks_ahead.0).is_empty()
    }

    fn mobility_sum_knights(knights: Bitboard, own: Bitboard) -> (r: i32)
        ensures
            r == sum_sq(squares_seq(knights.0), knight_mob(own.0)),
            0 <= r <= 4096,
    {
        let ghost f = knight_mob(own.0);
        let mut bb = knights;
        let mut total: i32 = 0;
        proof {
            lemma_mob_bounded(own.0, 0);
            lemma_board_sum(knights.0, f, 0, 64);
        }
        while bb.0 != 0
            invariant
                total + sum_sq(squares_seq(bb.0), f) == sum_sq(squares_seq(knights.0), f),
                0 <= sum_sq(squares_seq(knights.0), f) <= 4096,
                0 <= sum_sq(squares_seq(bb.0), f) <= 4096,
                f == knight_mob(own.0),
                forall|s: u8| s < 64 ==> 0 <= #[trigger] f(s) <= 64,
            decreases bb.0,
        {
            proof {
                crate::bitboard::lemma_clear_lowest_smaller(bb.0);
            }
            let square = bb.pop_lsb();
            proof {
                lemma_board_sum(bb.0, f, 0, 64);
                lemma_sum_pop(square, squares_seq(bb.0), f);
            }
            let attacks = get_knight_attacks(square);
            let valid_squares = Bitboard(attacks.0 & !own.0);
            total = total + valid_squares.count() as i32;
        }
        total
    }

    fn mobility_sum_sliders(pieces: Bitboard, own: Bitboard, occupied: Bitboard, rook: bool) -> (r: i32)
        ensures
            r == sum_sq(
                squares_seq(pieces.0),
                if rook { rook_mob(own.0, occupied.0) } else { bishop_mob(own.0, occupied.0) },
            ),
            0 <= r <= 4096,
    {
        let ghost f = if rook { rook_mob(own.0, occupied.0) } else { bishop_mob(own.0, occupied.0) };
        let mut bb = pieces;
        let mut total: i32 = 0;
        proof {
            lemma_mob_bounded(own.0, occupied.0);
            lemma_board_sum(pieces.0, f, 0, 64);
        }
        while bb.0 != 0
            invariant
                total + sum_sq(squares_seq(bb.0), f) == sum_sq(squares_seq(pieces.0), f),
                0 <= sum_sq(squares_seq(pieces.0), f) <= 4096,
                0 <= sum_sq(squares_seq(bb.0), f) <= 4096,
                f == (if rook { rook_mob(own.0, occupied.0) } else { bishop_mob(own.0, occupied.0) }),
                forall|s: u8| s < 64 ==> 0 <= #[trigger] f(s) <= 64,
            decreases bb.0,
        {
            proof {
                crate::bitboard::lemma_clear_lowest_smaller(bb.0);
            }
            let square = bb.pop_lsb();
            proof {
                lemma_board_sum(bb.0, f, 0, 64);
                lemma_sum_pop(square, squares_seq(bb.0), f);
            }
            let attacks = if rook {
                get_rook_attacks(square, occupied)
            } else {
                get_bishop_attacks(square, occupied)
            };
            let valid_squares = Bitboard(attacks.0 & !own.0);
            total = total + valid_squares.count() as i32;
        }
        total
    }

    fn evaluate_mobility(pos: &Position, color: Color) -> (r: i32)
        ensures
            r == mobility(*pos, color),
            0 <= r <= 24576,
    {
        let own = pos.color_bb(color);
        let knights = Self::mobility_sum_knights(pos.piece_bb(PieceType::Knight, color), own);
        let bishops = Self::mobility_sum_sliders(pos.piece_bb(PieceType::Bishop, color), own, pos.occupied, false);
        let rooks = Self::mobility_sum_sliders(pos.piece_bb(PieceType::Rook, color), own, pos.occupied, true);
        let mobility = knights + bishops + rooks;
        mobility * 2
    }

    fn evaluate_king_safety(pos: &Position, color: Color) -> (r: i32)
        ensures
            r == king_safety(*pos, color),
            -75 <= r <= 960,
    {
        if Self::is_endgame(pos) {
            return 0;
        }
        let king_bb = pos.piece_bb(PieceType::King, color);
        if king_bb.is_empty() {
            return 0;
        }
        let king_square = king_bb.lsb();
        let king_file = Bitboard::file_of(king_square);
        let king_bb_pos = Bitboard::from_square(king_square);
        let pawn_shield_squares = if color == Color::White {
            Bitboard(king_bb_pos.north().0 | king_bb_pos.north_east().0 | king_bb_pos.north_west().0)
        } else {
            Bitboard(king_bb_pos.south().0 | king_bb_pos.south_east().0 | king_bb_pos.south_west().0)
        };
        let pawns = pos.piece_bb(PieceType::Pawn, color);
        let shield_pawns = Bitboard(pawn_shield_squares.0 & pawns.0).count();
        proof {
            lemma_popcount_bound(pawn_shield_squares.0 & pawns.0);
        }
        let mut safety: i32 = shield_pawns as i32 * 15;
        let mut offset: i8 = -1;
        while offset <= 1
            invariant
                -1 <= offset <= 2,
                king_file < 8,
                safety == 15 * popcount(pawn_shield_squares.0 & pawns.0) as int + (if offset > -1 {
                    open_file_penalty(king_file - 1, pawns.0)
                } else {
                    0
                }) + (if offset > 0 {
                    open_file_penalty(king_file as int, pawns.0)
                } else {
                    0
                }) + (if offset > 1 {
                    open_file_penalty(king_file + 1, pawns.0)
                } else {
                    0
                }),
                0 <= popcount(pawn_shield_squares.0 & pawns.0) <= 64,
            decreases 2 - offset,
        {
            let file: i32 = king_file as i32 + offset as i32;
            if file >= 0 && file < 8 {
                let file_bb = Bitboard::file(file as u8);
                if Bitboard(file_bb.0 & pawns.0).is_empty() {
                    safety = safety - 25;
                }
            }
            offset = offset + 1;
        }
        safety
    }

    fn has_bishop_pair(pos: &Position, color: Color) -> (r: bool)
        ensures
            r == (count_of(*pos, color, PieceType::Bishop) >= 2),
    {
        pos.piece_bb(PieceType::Bishop, color).count() >= 2
    }

    fn is_endgame(pos: &Position) -> (r: bool)
        ensures
            r == is_endgame(*pos),
    {
        proof {
            lemma_popcount_bound(pos.bb(Color::White, PieceType::Queen));
            lemma_popcount_bound(pos.bb(Color::Black, PieceType::Queen));
            lemma_popcount_bound(pos.bb(Color::White, PieceType::Knight));
            lemma_popcount_bound(pos.bb(Color::Black, PieceType::Knight));
            lemma_popcount_bound(pos.bb(Color::White, PieceType::Bishop));
            lemma_popcount_bound(pos.bb(Color::Black, PieceType::Bishop));
            lemma_popcount_bound(pos.bb(Color::White, PieceType::Rook));
            lemma_popcount_bound(pos.bb(Color::Black, PieceType::Rook));
        }
        let queens = pos.piece_bb(PieceType::Queen, Color::White).count() + pos.piece_bb(
            PieceType::Queen,
            Color::Black,
        ).count();
        let minors = pos.piece_bb(PieceType::Knight, Color::White).count() + pos.piece_bb(
            PieceType::Knight,
            Color::Black,
        ).count() + pos.piece_bb(PieceType::Bishop, Color::White).count() + pos.piece_bb(
            PieceType::Bishop,
            Color::Black,
        ).count();
        let rooks = pos.piece_bb(PieceType::Rook, Color::White).count() + pos.piece_bb(
            PieceType::Rook,
            Color::Black,
        ).count();
        queens == 0 || (queens <= 2 && minors <= 2 && rooks <= 2)
    }
}

} // verus!
