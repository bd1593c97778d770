use vstd::prelude::*;
use crate::position::{Position, Color, PieceType};
use crate::movegen::{Move, MoveGen, MoveType};
use crate::makemove::{move_result, same_but_hash};
use crate::clock::{clock_now, millis_since};
use crate::fen::{fen_parse, fen_error_text, reads_as, lemma_fen_ep_on_board};
use crate::legal::{
    legal_moves, gen_ok, legal_after, legal_only, all_in_range, move_in_range, lemma_pseudo_in_range,
};

verus! {

/// The position with its hash cleared: what move generation looks at.
pub open spec fn strip(p: Position) -> Position {
    Position { hash: 0, ..p }
}

/// The position a legal move leads to, hash cleared.
pub open spec fn child_of(s: Position, m: Move) -> Position {
    match move_result(s, m) {
        Some(np) => strip(np),
        None => s,
    }
}

/// Sum of a sequence of naturals.
pub open spec fn sum_nat(xs: Seq<nat>) -> nat
    decreases xs.len(),
{
    if xs.len() == 0 {
        0
    } else {
        sum_nat(xs.drop_last()) + xs.last()
    }
}

/// Number of leaf positions reached by legal move sequences of length `depth`.
pub open spec fn perft_nodes(pos: Position, depth: nat) -> nat
    decreases depth, 1nat,
{
    if depth == 0 {
        1
    } else {
        sum_nat(child_counts(strip(pos), depth))
    }
}

/// For each legal move of `s`, in order, the leaf count `depth - 1` plies below it.
pub open spec fn child_counts(s: Position, depth: nat) -> Seq<nat>
    decreases depth, 0nat,
{
    if depth == 0 {
        Seq::empty()
    } else {
        legal_moves(s).map_values(|m: Move| perft_nodes(child_of(s, m), (depth - 1) as nat))
    }
}

/// Counts leaf nodes of the legal move tree.
pub struct Perft;

/// The pseudo-legal moves do not read the hash.
proof fn lemma_pseudo_no_hash(p: Position)
    ensures
        crate::movegen::pseudo_moves(p) == crate::movegen::pseudo_moves(strip(p)),
{
    let q = strip(p);
    let us = p.side_to_move;
    reveal(Position::attacked_by);
    assert(crate::movegen::pawn_moves(p, us) == crate::movegen::pawn_moves(q, us));
    assert(crate::movegen::knight_moves(p, us) == crate::movegen::knight_moves(q, us));
    assert(crate::movegen::slider_moves(p, us, PieceType::Bishop) == crate::movegen::slider_moves(q, us, PieceType::Bishop));
    assert(crate::movegen::slider_moves(p, us, PieceType::Rook) == crate::movegen::slider_moves(q, us, PieceType::Rook));
    assert(crate::movegen::slider_moves(p, us, PieceType::Queen) == crate::movegen::slider_moves(q, us, PieceType::Queen));
    assert(crate::movegen::king_moves(p, us) == crate::movegen::king_moves(q, us));
    assert(crate::movegen::castling_moves(p, us) == crate::movegen::castling_moves(q, us));
    reveal(crate::movegen::pseudo_moves);
    assert(crate::movegen::pseudo_moves(p) =~= crate::movegen::pseudo_moves(q));
}

/// A move's result does not read the hash.
#[verifier::rlimit(80)]
proof fn lemma_move_result_no_hash(p: Position, m: Move)
    ensures
        move_result(p, m) is Some <==> move_result(strip(p), m) is Some,
        move_result(p, m) is Some ==> same_but_hash(move_result(p, m).unwrap(), move_result(strip(p), m).unwrap()),
{
    let q = strip(p);
    assert(p.piece_on(m.from as int) == q.piece_on(m.from as int));
    assert(p.piece_on(m.to as int) == q.piece_on(m.to as int));
    reveal(move_result);
}

/// The legal moves do not read the hash.
pub proof fn lemma_legal_no_hash(p: Position)
    ensures
        legal_moves(p) == legal_moves(strip(p)),
{
    lemma_pseudo_no_hash(p);
    lemma_legal_only_no_hash(p, crate::movegen::pseudo_moves(p));
}

proof fn lemma_legal_only_no_hash(p: Position, ms: Seq<Move>)
    ensures
        crate::legal::legal_only(p, ms) == crate::legal::legal_only(strip(p), ms),
    decreases ms.len(),
{
    if ms.len() > 0 {
        lemma_legal_only_no_hash(p, ms.drop_last());
        let m = ms.last();
        lemma_move_result_no_hash(p, m);
        if move_result(p, m) is Some {
            let a = move_result(p, m).unwrap();
            let b = move_result(strip(p), m).unwrap();
            Position::lemma_in_check_boards(a, b, crate::position::opp(a.side_to_move));
        }
        assert(crate::legal::legal_after(p, m) == crate::legal::legal_after(strip(p), m));
    }
}

/// The leaf count reads the position without its hash.
proof fn lemma_perft_strip(x: Position, d: nat)
    ensures
        perft_nodes(x, d) == perft_nodes(strip(x), d),
{
    assert(strip(strip(x)) == strip(x));
}

/// The leaf count one ply deeper is the sum, over the legal moves in order, of the leaf counts
/// of the positions `make_move` leads to.
pub proof fn lemma_perft_children(p: Position, d: nat)
    ensures
        perft_nodes(p, 0) == 1,
        perft_nodes(p, d + 1) == sum_nat(
            legal_moves(p).map_values(|m: Move| perft_nodes(move_result(p, m).unwrap().rehashed(), d)),
        ),
{
    let s = strip(p);
    lemma_legal_no_hash(p);
    let lhs = child_counts(s, d + 1);
    let rhs = legal_moves(p).map_values(|m: Move| perft_nodes(move_result(p, m).unwrap().rehashed(), d));
    assert forall|j: int| 0 <= j < lhs.len() implies lhs[j] == rhs[j] by {
        let m = legal_moves(p)[j];
        lemma_legal_member_after(p, m, j);
        lemma_move_result_no_hash(p, m);
        let a = move_result(p, m).unwrap();
        let b = move_result(s, m).unwrap();
        lemma_strip_same(a, b);
        lemma_perft_strip(a.rehashed(), d);
        lemma_perft_strip(strip(b), d);
        assert(strip(a.rehashed()) == strip(a));
    }
    assert(lhs =~= rhs);
}

/// A listed legal move has a result.
proof fn lemma_legal_member_after(p: Position, m: Move, j: int)
    requires
        0 <= j < legal_moves(p).len(),
        legal_moves(p)[j] == m,
    ensures
        move_result(p, m) is Some,
{
    lemma_legal_only_after(p, crate::movegen::pseudo_moves(p), j);
}

proof fn lemma_legal_only_after(p: Position, ms: Seq<Move>, j: int)
    requires
        0 <= j < crate::legal::legal_only(p, ms).len(),
    ensures
        crate::legal::legal_after(p, crate::legal::legal_only(p, ms)[j]),
    decreases ms.len(),
{
    if ms.len() > 0 {
        let rest = crate::legal::legal_only(p, ms.drop_last());
        if j < rest.len() {
            lemma_legal_only_after(p, ms.drop_last(), j);
        }
    }
}

proof fn lemma_sum_prefix_le(xs: Seq<nat>, i: int)
    requires
        0 <= i <= xs.len(),
    ensures
        sum_nat(xs.subrange(0, i)) <= sum_nat(xs),
    decreases xs.len() - i,
{
    if i < xs.len() {
        lemma_sum_prefix_le(xs, i + 1);
        assert(xs.subrange(0, i + 1).drop_last() =~= xs.subrange(0, i));
    } else {
        assert(xs.subrange(0, i) =~= xs);
    }
}

pub proof fn lemma_strip_same(a: Position, b: Position)
    requires
        same_but_hash(a, b),
    ensures
        strip(a) == strip(b),
{
    crate::position::CastlingRights::lemma_bits_eq(a.castling_rights, b.castling_rights);
}

impl Perft {
    /// Number of leaf nodes at `depth`.
    pub fn perft(pos: &Position, depth: u8) -> (r: u64)
        requires
            gen_ok(*pos),
            pos.halfmove_clock + depth < 65535,
            pos.fullmove_number + depth < 65535,
            perft_nodes(*pos, depth as nat) <= u64::MAX,
        ensures
            r == perft_nodes(*pos, depth as nat),
        decreases depth, 1nat,
    {
        if depth == 0 {
            return 1;
        }
        let s = Position { hash: 0, ..*pos };
        assert(s == strip(*pos));
        let moves = MoveGen::generate_legal_moves(&s);
        let ghost counts = child_counts(s, depth as nat);
        assert(sum_nat(counts) == perft_nodes(*pos, depth as nat));
        let mut nodes: u64 = 0;
        let mut i: usize = 0;
        while i < moves.len()
            invariant
                i <= moves.moves@.len(),
                moves.moves@ == legal_moves(s),
                depth > 0,
                gen_ok(s),
                s == strip(s),
                s.halfmove_clock + depth < 65535,
                s.fullmove_number + depth < 65535,
                counts.len() == moves.moves@.len(),
                forall|j: int|
                    0 <= j < counts.len() ==> #[trigger] counts[j] == perft_nodes(
                        child_of(s, moves.moves@[j]),
                        (depth - 1) as nat,
                    ),
                sum_nat(counts) <= u64::MAX,
                nodes == sum_nat(counts.subrange(0, i as int)),
            decreases moves.moves@.len() - i,
        {
            let mv = moves.get(i);
            proof {
                lemma_sum_step(counts, i as int);
                assert(moves.moves@[i as int] == mv);
                assert(legal_moves(s).contains(mv));
            }
            let c = Self::perft_child(&s, mv, depth - 1);
            assert(c == counts[i as int]);
            nodes = nodes + c;
            i = i + 1;
        }
        proof {
            assert(counts.subrange(0, i as int) =~= counts);
        }
        nodes
    }

    /// Leaf count below one listed legal move of `s`.
    fn perft_child(s: &Position, mv: Move, depth: u8) -> (r: u64)
        requires
            gen_ok(*s),
            *s == strip(*s),
            legal_moves(*s).contains(mv),
            s.halfmove_clock + depth + 1 < 65535,
            s.fullmove_number + depth + 1 < 65535,
            perft_nodes(child_of(*s, mv), depth as nat) <= u64::MAX,
        ensures
            r == perft_nodes(child_of(*s, mv), depth as nat),
        decreases depth, 2nat,
    {
        proof {
            lemma_legal_member(*s, mv);
            lemma_child_ok(*s, mv);
        }
        let mut new_pos = *s;
        let res = new_pos.make_move(mv);
        proof {
            lemma_strip_same(new_pos, move_result(*s, mv).unwrap());
        }
        if res.is_ok() {
            Self::perft(&new_pos, depth)
        } else {
            0
        }
    }
}

impl Perft {
    /// Number of leaf nodes at `depth`, or `None` when that number does not fit in a `u64`.
    pub fn perft_checked(pos: &Position, depth: u8) -> (r: Option<u64>)
        requires
            gen_ok(*pos),
            pos.halfmove_clock + depth < 65535,
            pos.fullmove_number + depth < 65535,
        ensures
            r == (if perft_nodes(*pos, depth as nat) <= u64::MAX {
                Some(perft_nodes(*pos, depth as nat) as u64)
            } else {
                None
            }),
        decreases depth, 1nat,
    {
        if depth == 0 {
            return Some(1);
        }
        let s = Position { hash: 0, ..*pos };
        assert(s == strip(*pos));
        let moves = MoveGen::generate_legal_moves(&s);
        let ghost counts = child_counts(s, depth as nat);
        assert(sum_nat(counts) == perft_nodes(*pos, depth as nat));
        let mut nodes: u64 = 0;
        let mut i: usize = 0;
        while i < moves.len()
            invariant
                i <= moves.moves@.len(),
                moves.moves@ == legal_moves(s),
                depth > 0,
                gen_ok(s),
                s == strip(s),
                s.halfmove_clock + depth < 65535,
                s.fullmove_number + depth < 65535,
                counts.len() == moves.moves@.len(),
                forall|j: int|
                    0 <= j < counts.len() ==> #[trigger] counts[j] == perft_nodes(
                        child_of(s, moves.moves@[j]),
                        (depth - 1) as nat,
                    ),
                sum_nat(counts) == perft_nodes(*pos, depth as nat),
                nodes == sum_nat(counts.subrange(0, i as int)),
            decreases moves.moves@.len() - i,
        {
            let mv = moves.get(i);
            proof {
                lemma_sum_step(counts, i as int);
                assert(moves.moves@[i as int] == mv);
                assert(legal_moves(s).contains(mv));
            }
            let c = match Self::perft_child_checked(&s, mv, depth - 1) {
                Some(c) => c,
                None => return None,
            };
            assert(c == counts[i as int]);
            nodes = match nodes.checked_add(c) {
                Some(n) => n,
                None => return None,
            };
            i = i + 1;
        }
        proof {
            assert(counts.subrange(0, i as int) =~= counts);
        }
        Some(nodes)
    }

    /// Leaf count below one listed legal move of `s`, or `None` when it does not fit.
    fn perft_child_checked(s: &Position, mv: Move, depth: u8) -> (r: Option<u64>)
        requires
            gen_ok(*s),
            *s == strip(*s),
            legal_moves(*s).contains(mv),
            s.halfmove_clock + depth + 1 < 65535,
            s.fullmove_number + depth + 1 < 65535,
        ensures
            r == (if perft_nodes(child_of(*s, mv), depth as nat) <= u64::MAX {
                Some(perft_nodes(child_of(*s, mv), depth as nat) as u64)
            } else {
                None
            }),
        decreases depth, 2nat,
    {
        proof {
            lemma_legal_member(*s, mv);
            lemma_child_ok(*s, mv);
        }
        let mut new_pos = *s;
        let res = new_pos.make_move(mv);
        proof {
            lemma_strip_same(new_pos, move_result(*s, mv).unwrap());
        }
        if res.is_ok() {
            Self::perft_checked(&new_pos, depth)
        } else {
            Some(0)
        }
    }
}

/// What one listed legal move counts for in a divide: the leaves `depth - 1` plies below it, or 1
/// at depth 1 or less.
pub open spec fn divide_count(s: Position, m: Move, depth: nat) -> nat {
    if depth > 1 {
        perft_nodes(child_of(s, m), (depth - 1) as nat)
    } else {
        1
    }
}

/// The divide counts of the legal moves of `s`, in move order.
pub open spec fn divide_counts(s: Position, depth: nat) -> Seq<nat> {
    legal_moves(s).map_values(|m: Move| divide_count(s, m, depth))
}

/// At depth one or more, a divide lists, move by move, the counts whose sum is the perft count.
pub proof fn lemma_divide_sums_to_perft(pos: Position, depth: nat)
    requires
        depth >= 1,
    ensures
        divide_counts(strip(pos), depth) == child_counts(strip(pos), depth),
        sum_nat(divide_counts(strip(pos), depth)) == perft_nodes(pos, depth),
{
    let s = strip(pos);
    assert forall|i: int| 0 <= i < legal_moves(s).len() implies #[trigger] divide_counts(s, depth)[i]
        == child_counts(s, depth)[i] by {
        if depth == 1 {
            assert(perft_nodes(child_of(s, legal_moves(s)[i]), 0) == 1);
        }
    }
    assert(divide_counts(s, depth) =~= child_counts(s, depth));
}

/// How one case of the perft suite came out.
pub enum PerftOutcome {
    /// The count, and the milliseconds it took.
    Counted { nodes: u64, elapsed_ms: u64 },
    /// The count does not fit in a `u64`, or the move counters have no room for the depth.
    TooLarge,
    /// The FEN was refused, with the reason.
    Refused(String),
}

/// One case of the perft suite: the position, the depth, the expected count and the outcome.
pub struct PerftCaseResult {
    pub fen: &'static str,
    pub depth: u8,
    pub expected: u64,
    pub outcome: PerftOutcome,
}

impl PerftCaseResult {
    /// Whether the count came out as expected.
    pub fn passed(&self) -> (r: bool)
        ensures
            r == (self.outcome matches PerftOutcome::Counted { nodes, .. } && nodes == self.expected),
    {
        match &self.outcome {
            PerftOutcome::Counted { nodes, .. } => *nodes == self.expected,
            _ => false,
        }
    }
}

/// The perft suite: positions, depths and the leaf counts they are known to have.
pub open spec fn perft_suite() -> Seq<(Seq<char>, u8, u64)> {
    seq![
        ("rnbqkbnr/pppppppp/8/8/8/8/PPPPPPPP/RNBQKBNR w KQkq - 0 1"@, 1u8, 20u64),
        ("rnbqkbnr/pppppppp/8/8/8/8/PPPPPPPP/RNBQKBNR w KQkq - 0 1"@, 2u8, 400u64),
        ("rnbqkbnr/pppppppp/8/8/8/8/PPPPPPPP/RNBQKBNR w KQkq - 0 1"@, 3u8, 8902u64),
        ("rnbqkbnr/pppppppp/8/8/8/8/PPPPPPPP/RNBQKBNR w KQkq - 0 1"@, 4u8, 197281u64),
        ("r3k2r/p1ppqpb1/bn2pnp1/3PN3/1p2P3/2N2Q1p/PPPBBPPP/R3K2R w KQkq - 0 1"@, 1u8, 48u64),
        ("r3k2r/p1ppqpb1/bn2pnp1/3PN3/1p2P3/2N2Q1p/PPPBBPPP/R3K2R w KQkq - 0 1"@, 2u8, 2039u64),
        ("r3k2r/p1ppqpb1/bn2pnp1/3PN3/1p2P3/2N2Q1p/PPPBBPPP/R3K2R w KQkq - 0 1"@, 3u8, 97862u64),
        ("8/2p5/3p4/KP5r/1R3p1k/8/4P1P1/8 w - - 0 1"@, 1u8, 14u64),
        ("8/2p5/3p4/KP5r/1R3p1k/8/4P1P1/8 w - - 0 1"@, 2u8, 191u64),
        ("8/2p5/3p4/KP5r/1R3p1k/8/4P1P1/8 w - - 0 1"@, 3u8, 2812u64),
    ]
}

/// What a perft suite case came out as, for its FEN and depth.
pub open spec fn case_outcome_ok(fen: Seq<char>, depth: u8, o: PerftOutcome) -> bool {
    match fen_parse(fen) {
        Err(e) => o matches PerftOutcome::Refused(m) && m@ == fen_error_text(e),
        Ok(d) => {
            let p = crate::fen::fen_position(d);
            if perft_fits(p, depth as nat) {
                o matches PerftOutcome::Counted { nodes, .. } && nodes == perft_nodes(p, depth as nat)
            } else {
                o is TooLarge
            }
        },
    }
}

/// Whether a count of `pos` to `depth` can be made: the move counters have room for `depth`
/// more plies and the count fits in a `u64`.
pub open spec fn perft_fits(pos: Position, depth: nat) -> bool {
    &&& pos.halfmove_clock + depth < 65535
    &&& pos.fullmove_number + depth < 65535
    &&& perft_nodes(pos, depth) <= u64::MAX
}

impl Perft {
    /// For each legal move of `pos`, in move order, the leaves `depth - 1` plies below it (1 at
    /// depth 1 or less), and their total; `None` when the total does not fit in a `u64`.
    pub fn divide(pos: &Position, depth: u8) -> (r: Option<(Vec<(Move, u64)>, u64)>)
        requires
            gen_ok(*pos),
            pos.halfmove_clock + depth < 65535,
            pos.fullmove_number + depth < 65535,
        ensures
            ({
                let s = strip(*pos);
                let counts = divide_counts(s, depth as nat);
                if sum_nat(counts) <= u64::MAX {
                    r matches Some((v, total)) && total == sum_nat(counts) && v@.len() == counts.len()
                        && forall|i: int|
                        0 <= i < v@.len() ==> (#[trigger] v@[i]).0 == legal_moves(s)[i] && v@[i].1
                            == counts[i]
                } else {
                    r is None
                }
            }),
    {
        let s = Position { hash: 0, ..*pos };
        assert(s == strip(*pos));
        let moves = MoveGen::generate_legal_moves(&s);
        let ghost counts = divide_counts(s, depth as nat);
        let mut out: Vec<(Move, u64)> = Vec::new();
        let mut total: u64 = 0;
        let mut i: usize = 0;
        while i < moves.len()
            invariant
                i <= moves.moves@.len(),
                moves.moves@ == legal_moves(s),
                gen_ok(s),
                s == strip(s),
                s == strip(*pos),
                s.halfmove_clock + depth < 65535,
                s.fullmove_number + depth < 65535,
                counts == divide_counts(s, depth as nat),
                counts.len() == moves.moves@.len(),
                total == sum_nat(counts.subrange(0, i as int)),
                out@.len() == i,
                forall|j: int|
                    0 <= j < i ==> (#[trigger] out@[j]).0 == legal_moves(s)[j] && out@[j].1
                        == counts[j],
            decreases moves.moves@.len() - i,
        {
            let mv = moves.get(i);
            proof {
                lemma_sum_step(counts, i as int);
                assert(moves.moves@[i as int] == mv);
                assert(legal_moves(s).contains(mv));
            }
            let c = if depth > 1 {
                match Self::perft_child_checked(&s, mv, depth - 1) {
                    Some(c) => c,
                    None => return None,
                }
            } else {
                1
            };
            assert(c == counts[i as int]);
            total = match total.checked_add(c) {
                Some(t) => t,
                None => return None,
            };
            out.push((mv, c));
            i = i + 1;
        }
        proof {
            assert(counts.subrange(0, i as int) =~= counts);
        }
        Some((out, total))
    }

    /// Runs one perft case: reads the FEN, counts to `depth`, and times the count.
    fn run_case(fen: &str, depth: u8) -> (r: PerftOutcome)
        ensures
            case_outcome_ok(fen@, depth, r),
    {
        let pos = match Position::from_fen(fen) {
            Ok(p) => p,
            Err(e) => return PerftOutcome::Refused(e),
        };
        proof {
            lemma_fen_ep_on_board(fen@);
        }
        if pos.halfmove_clock as u32 + depth as u32 >= 65535 || pos.fullmove_number as u32
            + depth as u32 >= 65535 {
            return PerftOutcome::TooLarge;
        }
        let start = clock_now();
        let result = Self::perft_checked(&pos, depth);
        let elapsed = millis_since(&start);
        match result {
            Some(nodes) => {
                assert(reads_as(fen@, pos));
                PerftOutcome::Counted { nodes, elapsed_ms: elapsed }
            },
            None => PerftOutcome::TooLarge,
        }
    }

    /// Runs the perft suite: each known position counted to its depth, timed, in order.
    #[verifier::rlimit(40)]
    pub fn test_suite() -> (r: Vec<PerftCaseResult>)
        ensures
            r@.len() == perft_suite().len(),
            forall|i: int|
                0 <= i < r@.len() ==> {
                    let c = #[trigger] r@[i];
                    &&& c.fen@ == perft_suite()[i].0
                    &&& c.depth == perft_suite()[i].1
                    &&& c.expected == perft_suite()[i].2
                    &&& case_outcome_ok(c.fen@, c.depth, c.outcome)
                },
    {
        let tests: [(&'static str, u8, u64); 10] = [
            ("rnbqkbnr/pppppppp/8/8/8/8/PPPPPPPP/RNBQKBNR w KQkq - 0 1", 1, 20),
            ("rnbqkbnr/pppppppp/8/8/8/8/PPPPPPPP/RNBQKBNR w KQkq - 0 1", 2, 400),
            ("rnbqkbnr/pppppppp/8/8/8/8/PPPPPPPP/RNBQKBNR w KQkq - 0 1", 3, 8902),
            ("rnbqkbnr/pppppppp/8/8/8/8/PPPPPPPP/RNBQKBNR w KQkq - 0 1", 4, 197281),
            ("r3k2r/p1ppqpb1/bn2pnp1/3PN3/1p2P3/2N2Q1p/PPPBBPPP/R3K2R w KQkq - 0 1", 1, 48),
            ("r3k2r/p1ppqpb1/bn2pnp1/3PN3/1p2P3/2N2Q1p/PPPBBPPP/R3K2R w KQkq - 0 1", 2, 2039),
            ("r3k2r/p1ppqpb1/bn2pnp1/3PN3/1p2P3/2N2Q1p/PPPBBPPP/R3K2R w KQkq - 0 1", 3, 97862),
            ("8/2p5/3p4/KP5r/1R3p1k/8/4P1P1/8 w - - 0 1", 1, 14),
            ("8/2p5/3p4/KP5r/1R3p1k/8/4P1P1/8 w - - 0 1", 2, 191),
            ("8/2p5/3p4/KP5r/1R3p1k/8/4P1P1/8 w - - 0 1", 3, 2812),
        ];
        assert(forall|i: int|
            0 <= i < 10 ==> #[trigger] tests@[i].0@ == perft_suite()[i].0 && tests@[i].1
                == perft_suite()[i].1 && tests@[i].2 == perft_suite()[i].2);
        let mut results: Vec<PerftCaseResult> = Vec::new();
        let mut i: usize = 0;
        while i < 10
            invariant
                i <= 10,
                forall|k: int|
                    0 <= k < 10 ==> #[trigger] tests@[k].0@ == perft_suite()[k].0 && tests@[k].1
                        == perft_suite()[k].1 && tests@[k].2 == perft_suite()[k].2,
                results@.len() == i,
                forall|k: int|
                    0 <= k < i ==> {
                        let c = #[trigger] results@[k];
                        &&& c.fen@ == perft_suite()[k].0
                        &&& c.depth == perft_suite()[k].1
                        &&& c.expected == perft_suite()[k].2
                        &&& case_outcome_ok(c.fen@, c.depth, c.outcome)
                    },
            decreases 10 - i,
        {
            let (fen, depth, expected) = tests[i];
            let outcome = Self::run_case(fen, depth);
            let ghost before = results@;
            results.push(PerftCaseResult { fen, depth, expected, outcome });
            proof {
                assert(tests@[i as int].0@ == perft_suite()[i as int].0);
                assert forall|k: int| 0 <= k < i implies #[trigger] results@[k] == before[k] by {}
            }
            i = i + 1;
        }
        results
    }
}

proof fn lemma_sum_step(xs: Seq<nat>, i: int)
    requires
        0 <= i < xs.len(),
    ensures
        sum_nat(xs.subrange(0, i + 1)) == sum_nat(xs.subrange(0, i)) + xs[i],
        sum_nat(xs.subrange(0, i + 1)) <= sum_nat(xs),
{
    assert(xs.subrange(0, i + 1).drop_last() =~= xs.subrange(0, i));
    lemma_sum_prefix_le(xs, i + 1);
}

/// Each listed legal move can be made, stays on the board, and passes the legality test.
pub proof fn lemma_legal_member(s: Position, m: Move)
    requires
        gen_ok(s),
        legal_moves(s).contains(m),
    ensures
        legal_after(s, m),
        move_in_range(m, s.side_to_move),
{
    lemma_pseudo_in_range(s);
    lemma_legal_only_members(s, crate::movegen::pseudo_moves(s));
}

proof fn lemma_legal_only_members(s: Position, ms: Seq<Move>)
    requires
        all_in_range(ms, s.side_to_move),
    ensures
        forall|m: Move|
            #[trigger] legal_only(s, ms).contains(m) ==> legal_after(s, m) && move_in_range(
                m,
                s.side_to_move,
            ),
    decreases ms.len(),
{
    if ms.len() > 0 {
        let d = ms.drop_last();
        assert(all_in_range(d, s.side_to_move)) by {
            assert forall|i: int| 0 <= i < d.len() implies move_in_range(
                #[trigger] d[i],
                s.side_to_move,
            ) by {
                assert(d[i] == ms[i]);
            }
        }
        lemma_legal_only_members(s, d);
        let r = legal_only(s, d);
        let last = ms.last();
        assert(move_in_range(ms[ms.len() - 1], s.side_to_move));
        assert forall|m: Move| #[trigger] legal_only(s, ms).contains(m) implies legal_after(s, m)
            && move_in_range(m, s.side_to_move) by {
            if legal_after(s, last) {
                let k = choose|k: int| 0 <= k < r.push(last).len() && r.push(last)[k] == m;
                if k < r.len() {
                    assert(r.contains(r[k]));
                }
            }
        }
    }
}

/// The position after a legal move keeps the counters' room and an on-board en passant square.
pub proof fn lemma_child_ok(s: Position, m: Move)
    requires
        gen_ok(s),
        legal_after(s, m),
        move_in_range(m, s.side_to_move),
    ensures
        move_result(s, m) is Some,
        crate::makemove::move_safe(s, m),
        crate::movegen::ep_ok(move_result(s, m).unwrap()),
        move_result(s, m).unwrap().halfmove_clock <= s.halfmove_clock + 1,
        move_result(s, m).unwrap().fullmove_number <= s.fullmove_number + 1,
        crate::search::ply_index(move_result(s, m).unwrap()) == crate::search::ply_index(s) + 1,
{
    reveal(move_result);
}

} // verus!
