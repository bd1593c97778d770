use vstd::prelude::*;
use crate::movegen::{Move, MoveType, is_capture_type};
use crate::position::{Color, PieceType, Position, opp, piece_index};

verus! {

/// MVV-LVA scores, by attacker (rows) and victim (columns), pawn to king.
pub const MVV_LVA_SCORES: [[i32; 6]; 6] = [
    [105, 205, 305, 405, 505, 605],
    [104, 204, 304, 404, 504, 604],
    [103, 203, 303, 403, 503, 603],
    [102, 202, 302, 402, 502, 602],
    [101, 201, 301, 401, 501, 601],
    [100, 200, 300, 400, 500, 600],
];

/// The index of the first killer slot holding `mv`.
pub open spec fn killer_index(killers: Seq<Option<Move>>, mv: Move) -> Option<int>
    decreases killers.len(),
{
    if killers.len() == 0 {
        None
    } else if killers[0] == Some(mv) {
        Some(0)
    } else {
        match killer_index(killers.drop_first(), mv) {
            Some(j) => Some(j + 1),
            None => None,
        }
    }
}

/// Most valuable victim, least valuable attacker: the table entry of the piece on the origin
/// and the piece captured (a pawn for en passant), or 0 when either square is empty.
pub open spec fn mvv_lva(pos: Position, mv: Move) -> int {
    let attacker = pos.piece_on(mv.from as int);
    let victim = if mv.move_type == MoveType::EnPassant {
        Some((PieceType::Pawn, opp(pos.side_to_move)))
    } else {
        pos.piece_on(mv.to as int)
    };
    match (attacker, victim) {
        (Some((a, _)), Some((v, _))) => MVV_LVA_SCORES@[piece_index(a)]@[piece_index(v)] as int,
        _ => 0,
    }
}

/// The ordering score of a move: the table move first, then captures by MVV-LVA, then
/// killers (earlier slots first), then the history score.
pub open spec fn move_score(
    pos: Position,
    mv: Move,
    tt_move: Option<Move>,
    killers: Seq<Option<Move>>,
    history: [[i32; 64]; 64],
) -> int {
    if tt_move == Some(mv) {
        10_000_000
    } else if is_capture_type(mv.move_type) {
        1_000_000 + mvv_lva(pos, mv)
    } else {
        match killer_index(killers, mv) {
            Some(i) => 900_000 - i * 1000,
            None => history@[mv.from as int]@[mv.to as int] as int,
        }
    }
}

/// Moves whose score is `k`.
pub open spec fn score_is(
    pos: Position,
    tt_move: Option<Move>,
    killers: Seq<Option<Move>>,
    history: [[i32; 64]; 64],
    k: int,
) -> spec_fn(Move) -> bool {
    |m: Move| move_score(pos, m, tt_move, killers, history) == k
}

/// `out` is `input` sorted by descending score, moves of equal score in their input order.
pub open spec fn stable_sorted_by_score(
    out: Seq<Move>,
    input: Seq<Move>,
    pos: Position,
    tt_move: Option<Move>,
    killers: Seq<Option<Move>>,
    history: [[i32; 64]; 64],
) -> bool {
    &&& out.len() == input.len()
    &&& forall|i: int, j: int|
        0 <= i < j < out.len() ==> move_score(pos, #[trigger] out[i], tt_move, killers, history)
            >= move_score(pos, #[trigger] out[j], tt_move, killers, history)
    &&& forall|k: int|
        #![trigger score_is(pos, tt_move, killers, history, k)]
        out.filter(score_is(pos, tt_move, killers, history, k)) == input.filter(
            score_is(pos, tt_move, killers, history, k),
        )
}

/// Every move of the list is on the board.
pub open spec fn on_board(moves: Seq<Move>) -> bool {
    forall|i: int| 0 <= i < moves.len() ==> (#[trigger] moves[i]).from < 64 && moves[i].to < 64
}

pub struct MoveOrdering;

impl MoveOrdering {
    /// Score a move for ordering; higher scores are searched first.
    pub fn score_move(
        pos: &Position,
        mv: Move,
        tt_move: Option<Move>,
        killer_moves: &[Option<Move>],
        history: &[[i32; 64]; 64],
    ) -> (r: i32)
        requires
            mv.from < 64,
            mv.to < 64,
            killer_moves@.len() <= 2_147_484,
        ensures
            r == move_score(*pos, mv, tt_move, killer_moves@, *history),
    {
        if let Some(tt) = tt_move {
            if mv == tt {
                return 10_000_000;
            }
        }
        if mv.is_capture() {
            return 1_000_000 + Self::mvv_lva_score(pos, mv);
        }
        let mut i: usize = 0;
        assert(killer_moves@.subrange(0, killer_moves@.len() as int) =~= killer_moves@);
        while i < killer_moves.len()
            invariant
                i <= killer_moves@.len(),
                killer_moves@.len() <= 2_147_484,
                tt_move != Some(mv),
                !is_capture_type(mv.move_type),
                killer_index(killer_moves@, mv) == match killer_index(killer_moves@.subrange(i as int, killer_moves@.len() as int), mv) {
                    Some(j) => Some(j + i),
                    None => None,
                },
            decreases killer_moves@.len() - i,
        {
            let ghost s = killer_moves@.subrange(i as int, killer_moves@.len() as int);
            assert(s.drop_first() =~= killer_moves@.subrange(i + 1, killer_moves@.len() as int));
            if let Some(k) = killer_moves[i] {
                if mv == k {
                    assert(s[0] == Some(mv));
                    return 900_000 - i as i32 * 1000;
                }
            }
            i = i + 1;
        }
        let from = mv.from() as usize;
        let to = mv.to() as usize;
        history[from][to]
    }

    /// The MVV-LVA score of a capture.
    fn mvv_lva_score(pos: &Position, mv: Move) -> (r: i32)
        requires
            mv.from < 64,
            mv.to < 64,
        ensures
            r == mvv_lva(*pos, mv),
            0 <= r <= 605,
    {
        let attacker_piece = pos.piece_at(mv.from());
        let victim_piece = if mv.move_type() == MoveType::EnPassant {
            Some((PieceType::Pawn, pos.side_to_move.opposite()))
        } else {
            pos.piece_at(mv.to())
        };
        match (attacker_piece, victim_piece) {
            (Some((attacker_type, _)), Some((victim_type, _))) => {
                MVV_LVA_SCORES[attacker_type.index()][victim_type.index()]
            },
            _ => 0,
        }
    }

    /// Sort moves by descending score; moves of equal score keep their order.
    pub fn order_moves(
        pos: &Position,
        moves: &mut Vec<Move>,
        tt_move: Option<Move>,
        killer_moves: &[Option<Move>],
        history: &[[i32; 64]; 64],
    )
        requires
            on_board(old(moves)@),
            killer_moves@.len() <= 2_147_484,
        ensures
            stable_sorted_by_score(final(moves)@, old(moves)@, *pos, tt_move, killer_moves@, *history),
    {
        let ghost input = moves@;
        let ghost key = |m: Move| move_score(*pos, m, tt_move, killer_moves@, *history);
        let mut sorted: Vec<(Move, i32)> = Vec::new();
        let mut i: usize = 0;
        assert(sorted@.map_values(|p: (Move, i32)| p.0) =~= input.subrange(0, 0));
        while i < moves.len()
            invariant
                i <= moves@.len(),
                moves@ == input,
                on_board(input),
                killer_moves@.len() <= 2_147_484,
                sorted@.len() == i,
                forall|j: int| 0 <= j < sorted@.len() ==> (#[trigger] sorted@[j]).1 == key(sorted@[j].0),
                key == (|m: Move| move_score(*pos, m, tt_move, killer_moves@, *history)),
                stable_sorted_by_score(
                    sorted@.map_values(|p: (Move, i32)| p.0),
                    input.subrange(0, i as int),
                    *pos,
                    tt_move,
                    killer_moves@,
                    *history,
                ),
            decreases moves@.len() - i,
        {
            let mv = moves[i];
            let score = Self::score_move(pos, mv, tt_move, killer_moves, history);
            let mut p: usize = 0;
            while p < sorted.len() && sorted[p].1 >= score
                invariant
                    p <= sorted@.len(),
                    forall|j: int| 0 <= j < p ==> (#[trigger] sorted@[j]).1 >= score,
                decreases sorted@.len() - p,
            {
                p = p + 1;
            }
            let ghost before = sorted@;
            sorted.insert(p, (mv, score));
            proof {
                lemma_insert_keeps_order(before, p as int, (mv, score), input, i as int, *pos, tt_move, killer_moves@, *history);
            }
            i = i + 1;
        }
        let mut j: usize = 0;
        while j < sorted.len()
            invariant
                j <= sorted@.len(),
                sorted@.len() == moves@.len(),
                forall|t: int| 0 <= t < j ==> (#[trigger] moves@[t]) == sorted@[t].0,
            decreases sorted@.len() - j,
        {
            moves.set(j, sorted[j].0);
            j = j + 1;
        }
        proof {
            assert(moves@ =~= sorted@.map_values(|p: (Move, i32)| p.0));
            assert(input.subrange(0, input.len() as int) =~= input);
        }
    }
}

/// Inserting a scored move at the first position whose score is lower keeps the list
/// sorted and stable.
proof fn lemma_insert_keeps_order(
    before: Seq<(Move, i32)>,
    p: int,
    x: (Move, i32),
    input: Seq<Move>,
    i: int,
    pos: Position,
    tt_move: Option<Move>,
    killers: Seq<Option<Move>>,
    history: [[i32; 64]; 64],
)
    requires
        0 <= p <= before.len(),
        0 <= i < input.len(),
        input[i] == x.0,
        x.1 == move_score(pos, x.0, tt_move, killers, history),
        forall|j: int| 0 <= j < before.len() ==> (#[trigger] before[j]).1 == move_score(pos, before[j].0, tt_move, killers, history),
        forall|j: int| 0 <= j < p ==> (#[trigger] before[j]).1 >= x.1,
        p < before.len() ==> before[p].1 < x.1,
        stable_sorted_by_score(
            before.map_values(|q: (Move, i32)| q.0),
            input.subrange(0, i),
            pos,
            tt_move,
            killers,
            history,
        ),
    ensures
        stable_sorted_by_score(
            before.insert(p, x).map_values(|q: (Move, i32)| q.0),
            input.subrange(0, i + 1),
            pos,
            tt_move,
            killers,
            history,
        ),
        forall|j: int| 0 <= j < before.insert(p, x).len() ==> (#[trigger] before.insert(p, x)[j]).1 == move_score(pos, before.insert(p, x)[j].0, tt_move, killers, history),
{
    let out = before.map_values(|q: (Move, i32)| q.0);
    let after = before.insert(p, x);
    let out2 = after.map_values(|q: (Move, i32)| q.0);
    let a = out.subrange(0, p);
    let b = out.subrange(p, out.len() as int);
    assert(out2 =~= a + seq![x.0] + b);
    assert(out =~= a + b);
    assert(input.subrange(0, i + 1) =~= input.subrange(0, i).push(x.0));
    let s = x.1 as int;
    // Every move after the insertion point scores lower than `x`.
    assert forall|j: int| 0 <= j < b.len() implies move_score(pos, #[trigger] b[j], tt_move, killers, history) < s by {
        assert(b[j] == out[p + j]);
        assert(out[p + j] == before[p + j].0);
        if j > 0 {
            assert(move_score(pos, out[p], tt_move, killers, history) >= move_score(pos, out[p + j], tt_move, killers, history));
        }
    }
    assert forall|k: int|
        #![trigger score_is(pos, tt_move, killers, history, k)]
        out2.filter(score_is(pos, tt_move, killers, history, k)) == input.subrange(0, i + 1).filter(
            score_is(pos, tt_move, killers, history, k),
        ) by {
        let f = score_is(pos, tt_move, killers, history, k);
        Seq::filter_distributes_over_add(a + seq![x.0], b, f);
        Seq::filter_distributes_over_add(a, seq![x.0], f);
        Seq::filter_distributes_over_add(a, b, f);
        input.subrange(0, i).lemma_filter_push(x.0, f);
        seq![x.0].lemma_filter_push(x.0, f) ;
        assert(seq![x.0] =~= Seq::<Move>::empty().push(x.0));
        Seq::<Move>::empty().lemma_filter_push(x.0, f);
        assert(Seq::<Move>::empty().filter(f) =~= Seq::<Move>::empty()) by {
            reveal(Seq::filter);
        }
        if k == s {
            assert(b.filter(f).len() == 0) by {
                b.lemma_all_neg_filter_empty(f);
            }
            assert(b.filter(f) =~= Seq::<Move>::empty());
        }
    }
    assert forall|u: int, v: int| 0 <= u < v < out2.len() implies move_score(pos, #[trigger] out2[u], tt_move, killers, history)
        >= move_score(pos, #[trigger] out2[v], tt_move, killers, history) by {
        if u < p && v < p {
            assert(out2[u] == out[u] && out2[v] == out[v]);
        } else if u < p && v == p {
            assert(out2[u] == before[u].0);
        } else if u < p {
            assert(out2[u] == out[u] && out2[v] == out[v - 1]);
        } else if u == p {
            assert(out2[v] == b[v - p - 1]);
        } else {
            assert(out2[u] == out[u - 1] && out2[v] == out[v - 1]);
        }
    }
    assert forall|j: int| 0 <= j < after.len() implies (#[trigger] after[j]).1 == move_score(pos, after[j].0, tt_move, killers, history) by {
        if j < p {
            assert(after[j] == before[j]);
        } else if j > p {
            assert(after[j] == before[j - 1]);
        }
    }
}

/// After ordering, the table move comes first whenever it is in the list, provided no history
/// score reaches the table move's score.
pub proof fn lemma_table_move_first(
    out: Seq<Move>,
    input: Seq<Move>,
    pos: Position,
    tt: Move,
    killers: Seq<Option<Move>>,
    history: [[i32; 64]; 64],
)
    requires
        stable_sorted_by_score(out, input, pos, Some(tt), killers, history),
        input.contains(tt),
        on_board(input),
        forall|a: int, b: int| 0 <= a < 64 && 0 <= b < 64 ==> history@[a]@[b] < 10_000_000,
    ensures
        out.len() > 0,
        out[0] == tt,
{
    let pred = score_is(pos, Some(tt), killers, history, 10_000_000);
    let i = choose|i: int| 0 <= i < input.len() && input[i] == tt;
    assert(pred(input[i]));
    input.lemma_filter_contains(pred, i);
    let f = input.filter(pred);
    assert(out.filter(pred) == f);
    assert(out.filter(pred).contains(tt));
    out.lemma_filter_contains_rev(pred, tt);
    let j = choose|j: int| 0 <= j < out.len() && out[j] == tt;
    assert(out.len() > 0);
    if j > 0 {
        assert(move_score(pos, out[0], Some(tt), killers, history) >= move_score(
            pos,
            out[j],
            Some(tt),
            killers,
            history,
        ));
    }
    let m0 = out[0];
    assert(move_score(pos, m0, Some(tt), killers, history) >= 10_000_000);
    let s0 = move_score(pos, m0, Some(tt), killers, history);
    let p0 = score_is(pos, Some(tt), killers, history, s0);
    assert(p0(out[0]));
    out.lemma_filter_contains(p0, 0);
    assert(out.filter(p0) == input.filter(p0));
    input.lemma_filter_contains_rev(p0, m0);
    let i0 = choose|i: int| 0 <= i < input.len() && input[i] == m0;
    assert(on_board(input) ==> input[i0].from < 64 && input[i0].to < 64);
    if m0 != tt {
        assert(mvv_lva(pos, m0) <= 605) by {
            let attacker = pos.piece_on(m0.from as int);
            let victim = if m0.move_type == MoveType::EnPassant {
                Some((PieceType::Pawn, opp(pos.side_to_move)))
            } else {
                pos.piece_on(m0.to as int)
            };
            match (attacker, victim) {
                (Some((a, _)), Some((v, _))) => {
                    assert(MVV_LVA_SCORES@[piece_index(a)]@[piece_index(v)] <= 605);
                },
                _ => {},
            }
        }
        lemma_killer_index_nonneg(killers, m0);
    }
}

proof fn lemma_killer_index_nonneg(killers: Seq<Option<Move>>, mv: Move)
    ensures
        killer_index(killers, mv) matches Some(k) ==> k >= 0,
    decreases killers.len(),
{
    if killers.len() > 0 && killers[0] != Some(mv) {
        lemma_killer_index_nonneg(killers.drop_first(), mv);
    }
}

} // verus!
