use vstd::prelude::*;
use std::time::Instant;
use crate::clock::{clock_now, millis_since};
use crate::evaluation::{Evaluator, INFINITY, MATE_SCORE, eval_score};
use crate::legal::{legal_moves, gen_ok, move_in_range};
use crate::makemove::{move_result, same_but_hash};
use crate::movegen::{Move, MoveGen, MoveList, ep_ok, is_capture_type, is_promotion_type};
use crate::perft::{lemma_legal_member, lemma_child_ok};
use crate::position::{Color, PieceType, Position};
use crate::text::{push_dec, push_signed, push_str_chars, string_from_chars, dec, signed_dec};
use crate::transposition::{
    NodeType, TTEntry, TranspositionTable, probed, stored, slot_of, entries_for,
};

verus! {

pub const MAX_DEPTH: u8 = 64;
pub const MAX_KILLER_MOVES: usize = 2;
pub const ASPIRATION_WINDOW: i32 = 50;

/// The longest run of captures and promotions that quiescence follows. A board with at most
/// one piece per square allows at most 30 captures and 16 promotions in a row, so the cut is
/// never reached from such a board.
pub const QUIESCENCE_PLIES: u8 = 64;

/// The largest magnitude of a search window at the root; each ply below may widen it by one.
pub const WINDOW_LIMIT: i32 = 2_147_483_391;

/// History scores are aged once one passes this value.
pub const HISTORY_LIMIT: i32 = 10000;

pub struct SearchStats {
    pub nodes: u64,
    pub qnodes: u64,
    pub tt_hits: u64,
    /// Milliseconds the last search took.
    pub time_elapsed_ms: u64,
}

/// Nodes per second: all nodes times 1000 over the milliseconds (0 when no time passed),
/// at most `u64::MAX`.
pub open spec fn nps_of(nodes: u64, qnodes: u64, ms: u64) -> int {
    if ms > 0 {
        let v = (nodes + qnodes) * 1000 / (ms as int);
        if v > u64::MAX {
            u64::MAX as int
        } else {
            v
        }
    } else {
        0
    }
}

pub fn nodes_per_second(nodes: u64, qnodes: u64, ms: u64) -> (r: u64)
    ensures
        r == nps_of(nodes, qnodes, ms),
{
    if ms > 0 {
        let total: u128 = nodes as u128 + qnodes as u128;
        let v: u128 = total * 1000 / (ms as u128);
        if v > u64::MAX as u128 {
            u64::MAX
        } else {
            v as u64
        }
    } else {
        0
    }
}

impl SearchStats {
    pub fn new() -> (r: SearchStats)
        ensures
            r.nodes == 0 && r.qnodes == 0 && r.tt_hits == 0 && r.time_elapsed_ms == 0,
    {
        SearchStats { nodes: 0, qnodes: 0, tt_hits: 0, time_elapsed_ms: 0 }
    }

    pub fn nps(&self) -> (r: u64)
        ensures
            r == nps_of(self.nodes, self.qnodes, self.time_elapsed_ms),
    {
        nodes_per_second(self.nodes, self.qnodes, self.time_elapsed_ms)
    }
}

pub struct SearchLimits {
    pub max_depth: Option<u8>,
    /// Time limit in milliseconds.
    pub max_time_ms: Option<u64>,
    pub max_nodes: Option<u64>,
    pub infinite: bool,
}

impl Default for SearchLimits {
    fn default() -> (r: SearchLimits)
        ensures
            r.max_depth == Some(10u8),
            r.max_time_ms is None,
            r.max_nodes is None,
            !r.infinite,
    {
        SearchLimits { max_depth: Some(10), max_time_ms: None, max_nodes: None, infinite: false }
    }
}

/// One line of progress of iterative deepening.
pub struct SearchInfo {
    pub depth: u8,
    pub score: i32,
    pub nodes: u64,
    pub nps: u64,
    pub time_ms: u64,
    pub best_move: Option<Move>,
}

/// The text of a progress line.
pub open spec fn info_text(i: SearchInfo) -> Seq<char> {
    "info depth "@ + dec(i.depth as nat) + " score cp "@ + signed_dec(i.score as int) + " nodes "@
        + dec(i.nodes as nat) + " nps "@ + dec(i.nps as nat) + " time "@ + dec(i.time_ms as nat)
        + " pv "@ + match i.best_move {
        Some(m) => crate::movegen::uci_text(m),
        None => "none"@,
    }
}

impl SearchInfo {
    /// The line in UCI `info` form.
    pub fn to_line(&self) -> (r: String)
        ensures
            r@ == info_text(*self),
    {
        let mut v: Vec<char> = Vec::new();
        push_str_chars(&mut v, "info depth ");
        push_dec(&mut v, self.depth as u64);
        push_str_chars(&mut v, " score cp ");
        push_signed(&mut v, self.score as i64);
        push_str_chars(&mut v, " nodes ");
        push_dec(&mut v, self.nodes);
        push_str_chars(&mut v, " nps ");
        push_dec(&mut v, self.nps);
        push_str_chars(&mut v, " time ");
        push_dec(&mut v, self.time_ms);
        push_str_chars(&mut v, " pv ");
        match self.best_move {
            Some(m) => {
                let u = m.to_uci();
                push_str_chars(&mut v, u.as_str());
            },
            None => push_str_chars(&mut v, "none"),
        }
        proof {
            reveal_strlit("info depth ");
            reveal_strlit(" score cp ");
            reveal_strlit(" nodes ");
            reveal_strlit(" nps ");
            reveal_strlit(" time ");
            reveal_strlit(" pv ");
            reveal_strlit("none");
        }
        assert(v@ =~= info_text(*self));
        string_from_chars(&v)
    }
}

/// Every stored score can be negated.
pub open spec fn tt_scores_ok(slots: Seq<Option<TTEntry>>) -> bool {
    forall|i: int| 0 <= i < slots.len() ==> (#[trigger] slots[i] matches Some(e) ==> e.score > i32::MIN)
}

/// History scores stay within `0..=2^20`.
pub open spec fn history_ok(h: [[i32; 64]; 64]) -> bool {
    forall|i: int, j: int| 0 <= i < 64 && 0 <= j < 64 ==> 0 <= #[trigger] h@[i]@[j] <= 1_048_576
}

/// The history table with every score halved.
pub open spec fn halved(h: [[i32; 64]; 64], g: [[i32; 64]; 64]) -> bool {
    forall|i: int, j: int| 0 <= i < 64 && 0 <= j < 64 ==> #[trigger] g@[i]@[j] == h@[i]@[j] / 2
}

/// A quiet or tactical move: captures and promotions.
pub open spec fn is_tactical(m: Move) -> bool {
    is_capture_type(m.move_type) || is_promotion_type(m.move_type)
}

pub open spec fn tactical_pred() -> spec_fn(Move) -> bool {
    |m: Move| is_tactical(m)
}

/// The legal captures and promotions, in generation order.
pub open spec fn tactical_moves(pos: Position) -> Seq<Move> {
    legal_moves(pos).filter(tactical_pred())
}

/// A search that nothing stops: not asked to stop, and with neither a time nor a node limit.
pub closed spec fn unlimited(s: Search) -> bool {
    &&& !s.stop_search
    &&& s.limits.max_time_ms is None
    &&& s.limits.max_nodes is None
}

/// The quiescence value of `pos` in the window `alpha..beta` with `plies` plies left (fail-hard):
/// the static evaluation stands pat, a hopeless position returns the window's lower bound, and
/// otherwise the legal captures and promotions are tried in generation order.
pub open spec fn quiesce(pos: Position, alpha: int, beta: int, plies: nat) -> int
    decreases plies, 1int, 0int,
{
    let stand_pat = eval_score(pos) as int;
    if stand_pat >= beta {
        beta
    } else {
        let a = if alpha < stand_pat { stand_pat } else { alpha };
        if stand_pat + 1100 < a || plies == 0 {
            a
        } else {
            quiesce_moves(pos, tactical_moves(pos), 0, a, beta, plies)
        }
    }
}

/// The quiescence value after trying `moves[i..]`, the window's lower bound being `alpha`.
pub open spec fn quiesce_moves(pos: Position, moves: Seq<Move>, i: int, alpha: int, beta: int, plies: nat) -> int
    decreases plies, 0int, moves.len() - i,
{
    if i < 0 || i >= moves.len() || plies == 0 {
        alpha
    } else {
        match move_result(pos, moves[i]) {
            None => quiesce_moves(pos, moves, i + 1, alpha, beta, plies),
            Some(np) => {
                let score = -quiesce(np.rehashed(), -beta, -alpha, (plies - 1) as nat);
                if score >= beta {
                    beta
                } else {
                    quiesce_moves(pos, moves, i + 1, if score > alpha { score } else { alpha }, beta, plies)
                }
            },
        }
    }
}

/// No queen is left on the board.
pub open spec fn endgame(pos: Position) -> bool {
    crate::evaluation::count_of(pos, Color::White, PieceType::Queen) + crate::evaluation::count_of(
        pos,
        Color::Black,
        PieceType::Queen,
    ) == 0
}

/// The position with the move passed to the other side and no en passant square.
/// The number of plies played before `pos` by its move counter: two per full move, one more
/// with black to move. A move, or passing the move, raises it by at most one.
pub open spec fn ply_index(pos: Position) -> int {
    2 * pos.fullmove_number + if pos.side_to_move == Color::Black { 1int } else { 0int }
}

/// The most plies a search may have ahead of `pos` before a black move would carry the move
/// counter past its largest value.
pub open spec fn ply_room(pos: Position) -> int {
    2 * 65534 + 1 - ply_index(pos)
}

pub open spec fn null_position(pos: Position) -> Position {
    Position { side_to_move: crate::position::opp(pos.side_to_move), en_passant_square: None, ..pos }.rehashed()
}

/// The score a table entry settles a node with, searched to `depth` in `alpha..beta`.
pub open spec fn table_cutoff(e: Option<TTEntry>, depth: nat, alpha: int, beta: int) -> Option<int> {
    match e {
        Some(en) => if en.depth >= depth {
            match en.node_type {
                NodeType::Exact => Some(en.score as int),
                NodeType::LowerBound => if en.score >= beta {
                    Some(en.score as int)
                } else {
                    None
                },
                NodeType::UpperBound => if en.score <= alpha {
                    Some(en.score as int)
                } else {
                    None
                },
            }
        } else {
            None
        },
        None => None,
    }
}

/// How the best score of a node bounds its value, given the window it ended with.
pub open spec fn node_kind(best: int, alpha: int, beta: int) -> NodeType {
    if best >= beta {
        NodeType::LowerBound
    } else if best <= alpha {
        NodeType::UpperBound
    } else {
        NodeType::Exact
    }
}

/// The negamax value of `pos` searched to `depth` in `alpha..beta` at `ply`, with the table's
/// slots before and after the search (a table of `size` slots, stamping `age`): the fifty-move
/// rule, a table cutoff, quiescence at depth 0, null-move pruning, then the moves.
pub open spec fn negamax_value(
    slots: Seq<Option<TTEntry>>,
    size: nat,
    age: u8,
    pos: Position,
    depth: nat,
    alpha: int,
    beta: int,
    ply: int,
    do_null: bool,
) -> (int, Seq<Option<TTEntry>>)
    decreases depth, 2int, 0int,
{
    if pos.halfmove_clock >= 100 {
        (0, slots)
    } else {
        match table_cutoff(probed(slots, size, pos.hash), depth, alpha, beta) {
            Some(sc) => (sc, slots),
            None => if depth == 0 {
                (quiesce(pos, alpha, beta, QUIESCENCE_PLIES as nat), slots)
            } else {
                let in_check = pos.in_check(pos.side_to_move);
                if do_null && !in_check && depth >= 3 && !endgame(pos) {
                    let (ns, s1) = negamax_value(
                        slots,
                        size,
                        age,
                        null_position(pos),
                        (depth - 3) as nat,
                        -beta,
                        -beta + 1,
                        ply + 1,
                        false,
                    );
                    if -ns >= beta {
                        (beta, s1)
                    } else {
                        negamax_moves_value(s1, size, age, pos, depth, alpha, beta, ply, in_check)
                    }
                } else {
                    negamax_moves_value(slots, size, age, pos, depth, alpha, beta, ply, in_check)
                }
            },
        }
    }
}

/// The value of a node from its legal moves: mate or stalemate without one, else the best score
/// of the moves, stored in the table under the position's hash.
pub open spec fn negamax_moves_value(
    slots: Seq<Option<TTEntry>>,
    size: nat,
    age: u8,
    pos: Position,
    depth: nat,
    alpha: int,
    beta: int,
    ply: int,
    in_check: bool,
) -> (int, Seq<Option<TTEntry>>)
    decreases depth, 1int, 0int,
{
    let moves = legal_moves(pos);
    if moves.len() == 0 {
        (if in_check { -MATE_SCORE + ply } else { 0 }, slots)
    } else {
        let (best, bm, a, s) = negamax_moves_loop(
            slots,
            size,
            age,
            pos,
            moves,
            0,
            depth,
            beta,
            ply,
            in_check,
            -INFINITY as int,
            None,
            alpha,
            0,
        );
        (best, stored(s, size, age, pos.hash, depth as u8, best as i32, node_kind(best, a, beta), bm))
    }
}

/// The moves `moves[i..]` searched in turn (principal variation search with late move
/// reductions): the best score and move so far, the window's lower bound and the table slots.
pub open spec fn negamax_moves_loop(
    slots: Seq<Option<TTEntry>>,
    size: nat,
    age: u8,
    pos: Position,
    moves: Seq<Move>,
    i: int,
    depth: nat,
    beta: int,
    ply: int,
    in_check: bool,
    best: int,
    bm: Option<Move>,
    alpha: int,
    count: int,
) -> (int, Option<Move>, int, Seq<Option<TTEntry>>)
    decreases depth, 0int, moves.len() - i,
{
    if i < 0 || i >= moves.len() || depth == 0 {
        (best, bm, alpha, slots)
    } else {
        let mv = moves[i];
        match move_result(pos, mv) {
            None => negamax_moves_loop(slots, size, age, pos, moves, i + 1, depth, beta, ply, in_check, best, bm, alpha, count),
            Some(np) => {
                let child = np.rehashed();
                let c = count + 1;
                let (score, s2) = if c == 1 {
                    let (v, sl) = negamax_value(slots, size, age, child, (depth - 1) as nat, -beta, -alpha, ply + 1, true);
                    (-v, sl)
                } else {
                    let red: int = if c > 4 && depth > 2 && !is_capture_type(mv.move_type) && !in_check {
                        1
                    } else {
                        0
                    };
                    let (v1, sl1) = negamax_value(slots, size, age, child, (depth - 1 - red) as nat, -alpha - 1, -alpha, ply + 1, true);
                    if -v1 > alpha && (-v1 < beta || red > 0) {
                        let (v2, sl2) = negamax_value(sl1, size, age, child, (depth - 1) as nat, -beta, -alpha, ply + 1, true);
                        (-v2, sl2)
                    } else {
                        (-v1, sl1)
                    }
                };
                if score > best {
                    if score > alpha && score >= beta {
                        (score, Some(mv), score, s2)
                    } else {
                        negamax_moves_loop(s2, size, age, pos, moves, i + 1, depth, beta, ply, in_check, score, Some(mv), if score > alpha { score } else { alpha }, c)
                    }
                } else {
                    negamax_moves_loop(s2, size, age, pos, moves, i + 1, depth, beta, ply, in_check, best, bm, alpha, c)
                }
            },
        }
    }
}

/// `v` kept within `-WINDOW_LIMIT..=WINDOW_LIMIT`.
pub open spec fn clamp_window(v: int) -> int {
    if v < -(WINDOW_LIMIT as int) {
        -(WINDOW_LIMIT as int)
    } else if v > WINDOW_LIMIT as int {
        WINDOW_LIMIT as int
    } else {
        v
    }
}

/// The root window after a previous score: `ASPIRATION_WINDOW` either side, clamped.
pub open spec fn aspiration_window(prev: int) -> (int, int) {
    (clamp_window(prev - ASPIRATION_WINDOW), clamp_window(prev + ASPIRATION_WINDOW))
}

/// The root search at `depth` after a first score `score` in `alpha..beta`, `count` re-searches
/// done: a score at or below the window widens it down, one at or above widens it up, and the
/// search is repeated, at most twice.
pub open spec fn aspiration_search(
    slots: Seq<Option<TTEntry>>,
    size: nat,
    age: u8,
    pos: Position,
    depth: nat,
    alpha: int,
    beta: int,
    score: int,
    count: nat,
) -> (int, Seq<Option<TTEntry>>)
    decreases 3 - count,
{
    if count >= 3 {
        (score, slots)
    } else {
        let (a2, b2) = if score <= alpha {
            (-INFINITY as int, beta)
        } else {
            (alpha, INFINITY as int)
        };
        if score > alpha && score < beta {
            (score, slots)
        } else if count + 1 > 2 {
            (score, slots)
        } else {
            let (sc, s2) = negamax_value(slots, size, age, pos, depth, a2, b2, 0, true);
            aspiration_search(s2, size, age, pos, depth, a2, b2, sc, count + 1)
        }
    }
}

/// Iterative deepening from `depth` to `max_depth`: the move the table holds for the root
/// after each completed depth replaces the best move found so far.
pub open spec fn deepening(
    slots: Seq<Option<TTEntry>>,
    size: nat,
    age: u8,
    pos: Position,
    depth: nat,
    max_depth: nat,
    prev: int,
    best: Option<Move>,
) -> Option<Move>
    decreases max_depth + 1 - depth,
{
    if depth > max_depth || depth == 0 {
        best
    } else {
        let (lo, hi) = if depth > 3 { aspiration_window(prev) } else { (-INFINITY as int, INFINITY as int) };
        let (first, s0) = negamax_value(slots, size, age, pos, depth, lo, hi, 0, true);
        let (score, s1) = aspiration_search(s0, size, age, pos, depth, lo, hi, first, 0);
        let best2 = match probed(s1, size, pos.hash) {
            Some(e) => match e.best_move {
                Some(m) => Some(m),
                None => best,
            },
            None => best,
        };
        deepening(s1, size, age, pos, depth + 1, max_depth, score, best2)
    }
}

/// The depth a search goes to under `limits`: the asked depth, at most 64.
pub open spec fn depth_limit(limits: SearchLimits) -> nat {
    match limits.max_depth {
        Some(d) => if d < 64 { d as nat } else { 64 },
        None => 64,
    }
}

/// The age a table's entries get in the next search.
pub open spec fn next_age(age: u8) -> u8 {
    if age == 255 { 0 } else { (age + 1) as u8 }
}

/// Window bound at ply `ply`.
pub open spec fn window_ok(alpha: i32, beta: i32, ply: int) -> bool {
    &&& -(WINDOW_LIMIT as int) - ply <= alpha <= WINDOW_LIMIT as int + ply
    &&& -(WINDOW_LIMIT as int) - ply <= beta <= WINDOW_LIMIT as int + ply
}

pub struct Search {
    tt: TranspositionTable,
    killer_moves: [[Option<Move>; 2]; 64],
    history: [[i32; 64]; 64],
    stats: SearchStats,
    start_time: Instant,
    limits: SearchLimits,
    stop_search: bool,
    /// Progress of the last search, one line per completed depth.
    info: Vec<SearchInfo>,
}

impl Search {
    /// The table, its scores and the history scores are in shape.
    pub closed spec fn wf(self) -> bool {
        &&& self.tt.wf()
        &&& tt_scores_ok(self.tt.slots())
        &&& history_ok(self.history)
    }

    pub closed spec fn stopped(self) -> bool {
        self.stop_search
    }

    pub closed spec fn search_limits(self) -> SearchLimits {
        self.limits
    }

    pub closed spec fn table(self) -> TranspositionTable {
        self.tt
    }

    pub closed spec fn stats_of(self) -> SearchStats {
        self.stats
    }

    /// The progress lines of the last search.
    pub closed spec fn infos(self) -> Seq<SearchInfo> {
        self.info@
    }

    /// The progress lines of the last search, one per completed depth.
    pub fn info(&self) -> (r: &Vec<SearchInfo>)
        ensures
            r@ == self.infos(),
    {
        &self.info
    }

    pub fn new(tt_size_mb: usize) -> (r: Search)
        requires
            tt_size_mb * 1024 * 1024 <= usize::MAX / 2,
        ensures
            r.wf(),
            !r.stopped(),
            r.infos().len() == 0,
            r.table().size() >= entries_for(tt_size_mb as nat),
            crate::transposition::is_next_pow2(r.table().size(), entries_for(tt_size_mb as nat)),
            r.table().slots().len() == r.table().size(),
            forall|i: int| 0 <= i < r.table().slots().len() ==> r.table().slots()[i] is None,
            r.table().age() == 0,
    {
        let tt = TranspositionTable::new(tt_size_mb);
        Search {
            tt,
            killer_moves: [[None; 2]; 64],
            history: [[0i32; 64]; 64],
            stats: SearchStats::new(),
            start_time: clock_now(),
            limits: SearchLimits::default(),
            stop_search: false,
            info: Vec::new(),
        }
    }

    /// Iterative deepening with aspiration windows; the best move found, as recorded in the
    /// table for the root.
    pub fn search(&mut self, pos: &Position, limits: SearchLimits) -> (r: Option<Move>)
        requires
            old(self).wf(),
            ep_ok(*pos),
            pos.fullmove_number + 64 < 65535,
        ensures
            final(self).wf(),
            final(self).search_limits() == limits,
            !final(self).stopped(),
            final(self).infos().len() <= 64,
            forall|i: int|
                0 <= i < final(self).infos().len() ==> (#[trigger] final(self).infos()[i]).depth == i + 1,
            limits.max_depth matches Some(d) ==> final(self).infos().len() <= d,
            final(self).infos().len() == 0 ==> r is None,
            final(self).infos().len() > 0 ==> r == final(self).infos().last().best_move,
            limits.max_time_ms is None && limits.max_nodes is None ==> r == deepening(
                old(self).table().slots(),
                old(self).table().size(),
                next_age(old(self).table().age()),
                *pos,
                1,
                depth_limit(limits),
                0,
                None,
            ),
    {
        self.limits = limits;
        self.start_time = clock_now();
        self.stats = SearchStats::new();
        self.stop_search = false;
        self.info = Vec::new();
        self.tt.new_search();
        proof {
            assert(tt_scores_ok(self.tt.slots()));
        }
        let ghost size = self.tt.size();
        let ghost age = self.tt.age();
        let ghost free = unlimited(*self);
        let max_depth: u8 = match self.limits.max_depth {
            Some(d) => if d < MAX_DEPTH {
                d
            } else {
                MAX_DEPTH
            },
            None => MAX_DEPTH,
        };
        let mut best_move: Option<Move> = None;
        let mut prev_score: i32 = 0;
        let mut depth: u8 = 1;
        let ghost whole = deepening(self.tt.slots(), size, age, *pos, 1, max_depth as nat, 0, None);
        while depth <= max_depth
            invariant_except_break
                free ==> whole == deepening(self.tt.slots(), size, age, *pos, depth as nat, max_depth as nat, prev_score as int, best_move),
            invariant
                self.wf(),
                self.limits == limits,
                !self.stop_search,
                free == unlimited(*self),
                self.tt.size() == size,
                self.tt.age() == age,
                1 <= depth <= max_depth + 1,
                max_depth <= 64,
                ep_ok(*pos),
                pos.fullmove_number + 64 < 65535,
                self.info@.len() == depth - 1,
                forall|i: int| 0 <= i < self.info@.len() ==> (#[trigger] self.info@[i]).depth == i + 1,
                limits.max_depth matches Some(d) ==> max_depth <= d,
                self.info@.len() == 0 ==> best_move is None,
                self.info@.len() > 0 ==> best_move == self.info@.last().best_move,
            ensures
                self.wf(),
                self.limits == limits,
                !self.stop_search,
                max_depth <= 64,
                self.info@.len() <= max_depth,
                forall|i: int| 0 <= i < self.info@.len() ==> (#[trigger] self.info@[i]).depth == i + 1,
                limits.max_depth matches Some(d) ==> max_depth <= d,
                self.info@.len() == 0 ==> best_move is None,
                self.info@.len() > 0 ==> best_move == self.info@.last().best_move,
                free ==> whole == best_move,
            decreases max_depth + 1 - depth,
        {
            if self.should_stop() {
                break;
            }
            let (mut alpha, mut beta) = if depth > 3 {
                Self::aspiration(prev_score)
            } else {
                (-INFINITY, INFINITY)
            };
            let ghost lo = alpha as int;
            let ghost hi = beta as int;
            let ghost st = self.tt.slots();
            let mut score: i32 = self.negamax(pos, depth, alpha, beta, 0, true);
            let ghost s0 = self.tt.slots();
            let ghost first = score as int;
            let ghost asp = aspiration_search(s0, size, age, *pos, depth as nat, lo, hi, first, 0);
            let mut search_count: u32 = 0;
            loop
                invariant_except_break
                    search_count <= 2,
                    free ==> asp == aspiration_search(self.tt.slots(), size, age, *pos, depth as nat, alpha as int, beta as int, score as int, search_count as nat),
                invariant
                    self.wf(),
                    self.limits == limits,
                    !self.stop_search,
                    free == unlimited(*self),
                    self.tt.size() == size,
                    self.tt.age() == age,
                    1 <= depth <= 64,
                    ep_ok(*pos),
                    pos.fullmove_number + 64 < 65535,
                    window_ok(alpha, beta, 0),
                    search_count <= 3,
                    self.info@.len() == depth - 1,
                    forall|i: int| 0 <= i < self.info@.len() ==> (#[trigger] self.info@[i]).depth == i + 1,
                    self.info@.len() == 0 ==> best_move is None,
                    self.info@.len() > 0 ==> best_move == self.info@.last().best_move,
                ensures
                    self.wf(),
                    self.limits == limits,
                    !self.stop_search,
                    free == unlimited(*self),
                    self.tt.size() == size,
                    self.tt.age() == age,
                    self.info@.len() == depth - 1,
                    forall|i: int| 0 <= i < self.info@.len() ==> (#[trigger] self.info@[i]).depth == i + 1,
                    self.info@.len() == 0 ==> best_move is None,
                    self.info@.len() > 0 ==> best_move == self.info@.last().best_move,
                    free ==> asp == (score as int, self.tt.slots()),
                decreases 3 - search_count,
            {
                if score <= alpha {
                    alpha = -INFINITY;
                    search_count = search_count + 1;
                } else if score >= beta {
                    beta = INFINITY;
                    search_count = search_count + 1;
                } else {
                    break;
                }
                if search_count > 2 || self.should_stop() {
                    break;
                }
                score = self.negamax(pos, depth, alpha, beta, 0, true);
            }
            if self.should_stop() {
                break;
            }
            prev_score = score;
            if let Some(entry) = self.tt.probe(pos.hash) {
                if let Some(mv) = entry.best_move {
                    best_move = Some(mv);
                }
            }
            self.record_info(depth, score, best_move);
            depth = depth + 1;
        }
        self.stats.time_elapsed_ms = millis_since(&self.start_time);
        best_move
    }

    /// The aspiration window around the previous score, kept within the root window bound.
    fn aspiration(prev: i32) -> (r: (i32, i32))
        ensures
            window_ok(r.0, r.1, 0),
            (r.0 as int, r.1 as int) == aspiration_window(prev as int),
            -(WINDOW_LIMIT as int) + ASPIRATION_WINDOW <= prev <= WINDOW_LIMIT - ASPIRATION_WINDOW ==> r.0
                == prev - ASPIRATION_WINDOW && r.1 == prev + ASPIRATION_WINDOW,
    {
        let lo: i64 = prev as i64 - ASPIRATION_WINDOW as i64;
        let hi: i64 = prev as i64 + ASPIRATION_WINDOW as i64;
        let lo: i64 = if lo < -(WINDOW_LIMIT as i64) {
            -(WINDOW_LIMIT as i64)
        } else if lo > WINDOW_LIMIT as i64 {
            WINDOW_LIMIT as i64
        } else {
            lo
        };
        let hi: i64 = if hi < -(WINDOW_LIMIT as i64) {
            -(WINDOW_LIMIT as i64)
        } else if hi > WINDOW_LIMIT as i64 {
            WINDOW_LIMIT as i64
        } else {
            hi
        };
        (lo as i32, hi as i32)
    }

    /// Negamax with alpha-beta pruning, a transposition table, null-move pruning, principal
    /// variation search and late move reductions.
    #[verifier::rlimit(80)]
    fn negamax(&mut self, pos: &Position, depth: u8, alpha: i32, beta: i32, ply: u8, do_null: bool) -> (r: i32)
        requires
            old(self).wf(),
            ep_ok(*pos),
            depth + 64 <= ply_room(*pos),
            ply + depth <= 64,
            window_ok(alpha, beta, ply as int),
        ensures
            final(self).wf(),
            final(self).limits == old(self).limits,
            final(self).stop_search == old(self).stop_search,
            final(self).info == old(self).info,
            final(self).tt.size() == old(self).tt.size(),
            final(self).tt.age() == old(self).tt.age(),
            r > i32::MIN,
            pos.halfmove_clock >= 100 ==> r == 0,
            unlimited(*old(self)) ==> (r as int, final(self).tt.slots()) == negamax_value(
                old(self).tt.slots(),
                old(self).tt.size(),
                old(self).tt.age(),
                *pos,
                depth as nat,
                alpha as int,
                beta as int,
                ply as int,
                do_null,
            ),
        decreases depth, 1nat,
    {
        let ghost size = self.tt.size();
        let ghost age = self.tt.age();
        let ghost nv = negamax_value(self.tt.slots(), size, age, *pos, depth as nat, alpha as int, beta as int, ply as int, do_null);
        let ghost free = unlimited(*self);
        let mut a: i32 = alpha;
        if self.should_stop() {
            return 0;
        }
        if pos.halfmove_clock >= 100 {
            return 0;
        }
        let tt_entry = self.tt.probe(pos.hash);
        proof {
            self.tt.lemma_wf();
            lemma_probe_score(self.tt.slots(), self.tt.size(), pos.hash);
        }
        if let Some(entry) = tt_entry {
            if entry.depth >= depth {
                self.stats.tt_hits = self.stats.tt_hits.saturating_add(1);
                match entry.node_type {
                    NodeType::Exact => return entry.score,
                    NodeType::LowerBound => {
                        if entry.score >= beta {
                            return entry.score;
                        }
                    },
                    NodeType::UpperBound => {
                        if entry.score <= a {
                            return entry.score;
                        }
                    },
                }
            }
        }
        assert(table_cutoff(tt_entry, depth as nat, alpha as int, beta as int) is None);
        if depth == 0 {
            return self.quiescence(pos, a, beta, QUIESCENCE_PLIES);
        }
        self.stats.nodes = self.stats.nodes.saturating_add(1);
        let in_check = pos.is_check();
        let ghost s1 = self.tt.slots();
        if do_null && !in_check && depth >= 3 && !self.is_endgame(pos) {
            let mut null_pos = *pos;
            null_pos.side_to_move = null_pos.side_to_move.opposite();
            null_pos.en_passant_square = None;
            null_pos.update_hash();
            assert(null_pos == null_position(*pos));
            let r: u8 = 2;
            let null_score = self.negamax(&null_pos, depth - (1 + r), -beta, -beta + 1, ply + 1, false);
            let null_score = -null_score;
            if null_score >= beta {
                return beta;
            }
            proof {
                s1 = self.tt.slots();
            }
        }
        assert(free ==> nv == negamax_moves_value(s1, size, age, *pos, depth as nat, alpha as int, beta as int, ply as int, in_check));
        assert(free ==> self.tt.slots() == s1);
        let mut moves = MoveGen::generate_legal_moves(pos);
        if moves.is_empty() {
            if in_check {
                return -MATE_SCORE + ply as i32;
            } else {
                return 0;
            }
        }
        self.order_moves(pos, &mut moves, ply, tt_entry);
        let mut best_score: i32 = -INFINITY;
        let mut best_move: Option<Move> = None;
        let mut move_count: usize = 0;
        let ghost ms = moves.moves@;
        let ghost whole = negamax_moves_loop(s1, size, age, *pos, ms, 0, depth as nat, beta as int, ply as int, in_check, -INFINITY as int, None, alpha as int, 0);
        let mut i: usize = 0;
        while i < moves.len()
            invariant_except_break
                window_ok(a, beta, ply as int),
                free ==> whole == negamax_moves_loop(self.tt.slots(), size, age, *pos, ms, i as int, depth as nat, beta as int, ply as int, in_check, best_score as int, best_move, a as int, move_count as int),
            invariant
                i <= moves.moves@.len(),
                self.wf(),
                self.limits == old(self).limits,
                self.stop_search == old(self).stop_search,
                self.info == old(self).info,
                self.tt.size() == size,
                self.tt.age() == age,
                free == unlimited(*self),
                moves.moves@ == legal_moves(*pos),
                ms == moves.moves@,
                gen_ok(*pos),
                pos.halfmove_clock < 100,
                depth + 64 <= ply_room(*pos),
                1 <= depth,
                ply + depth <= 64,
                best_score > i32::MIN,
                move_count <= i,
            ensures
                self.wf(),
                self.limits == old(self).limits,
                self.stop_search == old(self).stop_search,
                self.info == old(self).info,
                self.tt.size() == size,
                self.tt.age() == age,
                best_score > i32::MIN,
                free ==> whole == (best_score as int, best_move, a as int, self.tt.slots()),
            decreases moves.moves@.len() - i,
        {
            let mv = moves.get(i);
            let ghost st = self.tt.slots();
            let ghost a0 = a;
            let ghost b0 = best_score;
            let ghost bm0 = best_move;
            let ghost c0 = move_count;
            i = i + 1;
            proof {
                assert(legal_moves(*pos).contains(mv)) by {
                    assert(moves.moves@[i - 1] == mv);
                }
                lemma_legal_member(*pos, mv);
                lemma_child_ok(*pos, mv);
            }
            let mut new_pos = *pos;
            if new_pos.make_move(mv).is_err() {
                continue;
            }
            proof {
                assert(same_but_hash(new_pos, move_result(*pos, mv).unwrap()));
                assert(new_pos == move_result(*pos, mv).unwrap().rehashed());
            }
            move_count = move_count + 1;
            let mut score: i32;
            if move_count == 1 {
                score = -self.negamax(&new_pos, depth - 1, -beta, -a, ply + 1, true);
            } else {
                let reduction: u8 = if move_count > 4 && depth > 2 && !mv.is_capture() && !in_check {
                    1
                } else {
                    0
                };
                score = -self.negamax(&new_pos, depth - 1 - reduction, -a - 1, -a, ply + 1, true);
                if score > a && (score < beta || reduction > 0) {
                    score = -self.negamax(&new_pos, depth - 1, -beta, -a, ply + 1, true);
                }
            }
            if score > best_score {
                best_score = score;
                best_move = Some(mv);
                if score > a {
                    if score >= beta {
                        a = score;
                        self.update_history(mv, depth);
                        self.update_killers(mv, ply);
                        break;
                    }
                    a = score;
                }
            }
        }
        let node_type = if best_score >= beta {
            NodeType::LowerBound
        } else if best_score <= a {
            NodeType::UpperBound
        } else {
            NodeType::Exact
        };
        proof {
            self.tt.lemma_wf();
            lemma_store_scores(self.tt.slots(), self.tt.size(), self.tt.age(), pos.hash, depth, best_score, node_type, best_move);
        }
        self.tt.store(pos.hash, depth, best_score, node_type, best_move);
        best_score
    }

    /// Quiescence search: stand pat, then captures and promotions only (fail-hard).
    #[verifier::rlimit(40)]
    fn quiescence(&mut self, pos: &Position, alpha: i32, beta: i32, plies_left: u8) -> (r: i32)
        requires
            old(self).wf(),
            ep_ok(*pos),
            pos.halfmove_clock + plies_left < 65535,
            plies_left <= ply_room(*pos),
            alpha > i32::MIN,
            beta > i32::MIN,
        ensures
            final(self).wf(),
            final(self).limits == old(self).limits,
            final(self).stop_search == old(self).stop_search,
            final(self).info == old(self).info,
            r == 0 || r == beta || alpha <= r,
            r > i32::MIN,
            unlimited(*old(self)) ==> r == quiesce(*pos, alpha as int, beta as int, plies_left as nat),
            final(self).tt == old(self).tt,
        decreases plies_left,
    {
        let ghost qv = quiesce(*pos, alpha as int, beta as int, plies_left as nat);
        let mut a: i32 = alpha;
        if self.should_stop() {
            return 0;
        }
        self.stats.qnodes = self.stats.qnodes.saturating_add(1);
        let stand_pat = Evaluator::evaluate(pos);
        if stand_pat >= beta {
            return beta;
        }
        if a < stand_pat {
            a = stand_pat;
        }
        let queen_value: i32 = 900;
        if stand_pat + queen_value + 200 < a {
            return a;
        }
        if plies_left == 0 {
            return a;
        }
        let moves = self.generate_tactical_moves(pos);
        let ghost alpha0 = a;
        let ghost whole = quiesce_moves(*pos, moves.moves@, 0, a as int, beta as int, plies_left as nat);
        assert(qv == whole);
        let mut i: usize = 0;
        while i < moves.len()
            invariant
                i <= moves.moves@.len(),
                self.wf(),
                self.limits == old(self).limits,
                self.stop_search == old(self).stop_search,
                self.info == old(self).info,
                moves.moves@ == tactical_moves(*pos),
                gen_ok(*pos),
                pos.halfmove_clock + plies_left < 65535,
                plies_left <= ply_room(*pos),
                plies_left >= 1,
                a >= alpha0,
                alpha0 >= alpha,
                a > i32::MIN,
                beta > i32::MIN,
                unlimited(*old(self)) ==> whole == quiesce_moves(*pos, moves.moves@, i as int, a as int, beta as int, plies_left as nat),
                qv == whole,
                qv == quiesce(*pos, alpha as int, beta as int, plies_left as nat),
                self.tt == old(self).tt,
            decreases moves.moves@.len() - i,
        {
            let mv = moves.get(i);
            i = i + 1;
            proof {
                lemma_tactical_member(*pos, moves.moves@, (i - 1) as int);
                lemma_legal_member(*pos, mv);
                lemma_child_ok(*pos, mv);
            }
            let mut new_pos = *pos;
            let ghost ms = moves.moves@;
            let ghost before = quiesce_moves(*pos, ms, i - 1, a as int, beta as int, plies_left as nat);
            assert(mv == ms[i - 1]);
            if new_pos.make_move(mv).is_err() {
                assert(before == quiesce_moves(*pos, ms, i as int, a as int, beta as int, plies_left as nat));
                continue;
            }
            proof {
                assert(same_but_hash(new_pos, move_result(*pos, mv).unwrap()));
            }
            if !self.see_ge(&new_pos, mv, 0) {
                continue;
            }
            let ghost alpha_before = a;
            let score = -self.quiescence(&new_pos, -beta, -a, plies_left - 1);
            proof {
                let child = move_result(*pos, mv).unwrap().rehashed();
                assert(new_pos == child);
                let sc = -quiesce(child, -beta, -alpha_before, (plies_left - 1) as nat);
                assert(before == (if sc >= beta {
                    beta as int
                } else {
                    quiesce_moves(*pos, ms, i as int, if sc > alpha_before { sc } else { alpha_before as int }, beta as int, plies_left as nat)
                }));
            }
            if score >= beta {
                proof {
                    if unlimited(*old(self)) {
                        assert(whole == before);
                        assert(score as int == -quiesce(move_result(*pos, mv).unwrap().rehashed(), -beta, -alpha_before, (plies_left - 1) as nat));
                        assert(whole == beta);
                    }
                }
                return beta;
            }
            if score > a {
                a = score;
            }
        }
        a
    }

    /// The legal captures and promotions.
    fn generate_tactical_moves(&self, pos: &Position) -> (r: MoveList)
        requires
            gen_ok(*pos),
        ensures
            r.moves@ == tactical_moves(*pos),
    {
        let all_moves = MoveGen::generate_legal_moves(pos);
        let mut tactical = MoveList::new();
        let mut i: usize = 0;
        while i < all_moves.len()
            invariant
                i <= all_moves.moves@.len(),
                tactical.moves@ == all_moves.moves@.subrange(0, i as int).filter(tactical_pred()),
            decreases all_moves.moves@.len() - i,
        {
            let mv = all_moves.get(i);
            proof {
                let s = all_moves.moves@;
                assert(s.subrange(0, i + 1) =~= s.subrange(0, i as int).push(mv));
                s.subrange(0, i as int).lemma_filter_push(mv, tactical_pred());
            }
            if mv.is_capture() || mv.is_promotion() {
                tactical.push(mv);
            }
            i = i + 1;
        }
        assert(all_moves.moves@.subrange(0, i as int) =~= all_moves.moves@);
        tactical
    }

    /// Static exchange test used to prune captures: every capture is kept.
    fn see_ge(&self, _pos: &Position, _mv: Move, _threshold: i32) -> (r: bool)
        ensures
            r,
    {
        true
    }

    /// Move ordering hook: the list keeps its generation order.
    fn order_moves(&self, _pos: &Position, moves: &mut MoveList, _ply: u8, _tt_entry: Option<TTEntry>)
        ensures
            final(moves).moves@ == old(moves).moves@,
    {
    }

    /// Remember a quiet move that caused a cutoff at `ply` (at most ply 63) as the first
    /// killer, shifting the previous first killer to second place.
    fn update_killers(&mut self, mv: Move, ply: u8)
        requires
            old(self).wf(),
        ensures
            final(self).wf(),
            final(self).limits == old(self).limits,
            final(self).stop_search == old(self).stop_search,
            final(self).info == old(self).info,
            final(self).tt == old(self).tt,
            final(self).history == old(self).history,
            final(self).stats == old(self).stats,
            ({
                let idx = if ply < 63 { ply as int } else { 63 };
                let row = old(self).killer_moves[idx];
                if is_capture_type(mv.move_type) || row[0] == Some(mv) {
                    final(self).killer_moves == old(self).killer_moves
                } else {
                    &&& final(self).killer_moves[idx][0] == Some(mv)
                    &&& final(self).killer_moves[idx][1] == row[0]
                    &&& forall|i: int| 0 <= i < 64 && i != idx ==> #[trigger] final(self).killer_moves[i] == old(self).killer_moves[i]
                }
            }),
    {
        if mv.is_capture() {
            return;
        }
        let ply_idx: usize = if (ply as usize) < (MAX_DEPTH as usize) - 1 {
            ply as usize
        } else {
            (MAX_DEPTH as usize) - 1
        };
        let row = self.killer_moves[ply_idx];
        let same = match row[0] {
            Some(k) => k == mv,
            None => false,
        };
        if !same {
            let new_row: [Option<Move>; 2] = [Some(mv), row[0]];
            self.killer_moves[ply_idx] = new_row;
        }
    }

    /// Reward a quiet move that caused a cutoff with `depth` squared; when a score passes the
    /// limit, all scores are halved.
    fn update_history(&mut self, mv: Move, depth: u8)
        requires
            old(self).wf(),
            mv.from < 64,
            mv.to < 64,
            depth <= 64,
        ensures
            final(self).wf(),
            final(self).limits == old(self).limits,
            final(self).stop_search == old(self).stop_search,
            final(self).info == old(self).info,
            final(self).tt == old(self).tt,
            final(self).killer_moves == old(self).killer_moves,
            final(self).stats == old(self).stats,
            is_capture_type(mv.move_type) ==> final(self).history == old(self).history,
            !is_capture_type(mv.move_type) ==> ({
                let v = old(self).history[mv.from as int][mv.to as int] + depth * depth;
                forall|i: int, j: int|
                    0 <= i < 64 && 0 <= j < 64 ==> {
                        let w = if i == mv.from && j == mv.to { v } else { old(self).history[i][j] as int };
                        #[trigger] final(self).history[i][j] == if v > HISTORY_LIMIT { w / 2 } else { w }
                    }
            }),
    {
        if mv.is_capture() {
            return;
        }
        assert((depth as int) * (depth as int) <= 4096) by (nonlinear_arith)
            requires
                depth <= 64,
        ;
        let bonus: i32 = (depth as i32) * (depth as i32);
        let from = mv.from() as usize;
        let to = mv.to() as usize;
        let mut row = self.history[from];
        let v = row[to] + bonus;
        row[to] = v;
        self.history[from] = row;
        if v > HISTORY_LIMIT {
            self.age_history();
        }
    }

    /// Halve every history score.
    fn age_history(&mut self)
        requires
            forall|i: int, j: int| 0 <= i < 64 && 0 <= j < 64 ==> 0 <= #[trigger] old(self).history@[i]@[j] <= 1_048_576 + 4096,
        ensures
            halved(old(self).history, final(self).history),
            history_ok(final(self).history),
            final(self).tt == old(self).tt,
            final(self).limits == old(self).limits,
            final(self).stop_search == old(self).stop_search,
            final(self).info == old(self).info,
            final(self).killer_moves == old(self).killer_moves,
            final(self).stats == old(self).stats,
    {
        let ghost h0 = self.history;
        let mut i: usize = 0;
        while i < 64
            invariant
                i <= 64,
                forall|a: int, b: int| 0 <= a < i && 0 <= b < 64 ==> #[trigger] self.history@[a]@[b] == h0@[a]@[b] / 2,
                forall|a: int, b: int| i <= a < 64 && 0 <= b < 64 ==> #[trigger] self.history@[a]@[b] == h0@[a]@[b],
                forall|a: int, b: int| 0 <= a < 64 && 0 <= b < 64 ==> 0 <= #[trigger] h0@[a]@[b] <= 1_048_576 + 4096,
                self.tt == old(self).tt,
                self.limits == old(self).limits,
                self.stop_search == old(self).stop_search,
                self.info == old(self).info,
                self.killer_moves == old(self).killer_moves,
                self.stats == old(self).stats,
            decreases 64 - i,
        {
            let mut row = self.history[i];
            let mut j: usize = 0;
            while j < 64
                invariant
                    j <= 64,
                    i < 64,
                    forall|b: int| 0 <= b < j ==> #[trigger] row@[b] == h0@[i as int]@[b] / 2,
                    forall|b: int| j <= b < 64 ==> #[trigger] row@[b] == h0@[i as int]@[b],
                    forall|a: int, b: int| 0 <= a < 64 && 0 <= b < 64 ==> 0 <= #[trigger] h0@[a]@[b] <= 1_048_576 + 4096,
                decreases 64 - j,
            {
                row[j] = row[j] / 2;
                j = j + 1;
            }
            self.history[i] = row;
            i = i + 1;
        }
    }

    fn is_endgame(&self, pos: &Position) -> (r: bool)
        ensures
            r == (crate::evaluation::count_of(*pos, Color::White, PieceType::Queen)
                + crate::evaluation::count_of(*pos, Color::Black, PieceType::Queen) == 0),
    {
        proof {
            crate::bitboard::lemma_popcount_bound(pos.bb(Color::White, PieceType::Queen));
            crate::bitboard::lemma_popcount_bound(pos.bb(Color::Black, PieceType::Queen));
        }
        let queens = pos.piece_bb(PieceType::Queen, Color::White).count() + pos.piece_bb(
            PieceType::Queen,
            Color::Black,
        ).count();
        queens == 0
    }

    /// Whether to stop: on request, once the time limit has passed, or once the node limit
    /// has been reached.
    fn should_stop(&self) -> (r: bool)
        ensures
            self.stop_search ==> r,
            !self.stop_search && self.limits.max_time_ms is None ==> r == (match self.limits.max_nodes {
                Some(n) => self.stats.nodes + self.stats.qnodes >= n,
                None => false,
            }),
    {
        if self.stop_search {
            return true;
        }
        if let Some(max_time) = self.limits.max_time_ms {
            if millis_since(&self.start_time) >= max_time {
                return true;
            }
        }
        if let Some(max_nodes) = self.limits.max_nodes {
            if self.stats.nodes as u128 + self.stats.qnodes as u128 >= max_nodes as u128 {
                return true;
            }
        }
        false
    }

    /// Record a progress line for a completed depth.
    fn record_info(&mut self, depth: u8, score: i32, best_move: Option<Move>)
        ensures
            final(self).info@ == old(self).info@.push(final(self).info@.last()),
            final(self).info@.last().depth == depth,
            final(self).info@.last().score == score,
            final(self).info@.last().best_move == best_move,
            final(self).tt == old(self).tt,
            final(self).history == old(self).history,
            final(self).limits == old(self).limits,
            final(self).stop_search == old(self).stop_search,
    {
        let elapsed = millis_since(&self.start_time);
        let nodes = self.stats.nodes.saturating_add(self.stats.qnodes);
        let nps = nodes_per_second(self.stats.nodes, self.stats.qnodes, elapsed);
        self.info.push(SearchInfo { depth, score, nodes, nps, time_ms: elapsed, best_move });
    }

    pub fn stop(&mut self)
        ensures
            final(self).stopped(),
            final(self).wf() == old(self).wf(),
    {
        self.stop_search = true;
    }

    /// Empty the table and forget killers and history.
    pub fn clear(&mut self)
        requires
            old(self).wf(),
        ensures
            final(self).wf(),
            final(self).stopped() == old(self).stopped(),
            forall|i: int| 0 <= i < final(self).table().slots().len() ==> final(self).table().slots()[i] is None,
    {
        self.tt.clear();
        self.killer_moves = [[None; 2]; 64];
        self.history = [[0i32; 64]; 64];
    }

    pub fn get_stats(&self) -> (r: &SearchStats)
        ensures
            *r == self.stats_of(),
    {
        &self.stats
    }
}

impl Default for Search {
    fn default() -> (r: Search)
        ensures
            r.wf(),
            !r.stopped(),
    {
        Search::new(64)
    }
}

proof fn lemma_probe_score(slots: Seq<Option<TTEntry>>, size: nat, hash: u64)
    requires
        size >= 1,
        slots.len() == size,
        tt_scores_ok(slots),
    ensures
        probed(slots, size, hash) matches Some(e) ==> e.score > i32::MIN,
{
    let i = slot_of(hash, size);
    assert(0 <= i < slots.len());
    assert(slots[i] matches Some(e) ==> e.score > i32::MIN);
}

proof fn lemma_store_scores(
    slots: Seq<Option<TTEntry>>,
    size: nat,
    age: u8,
    hash: u64,
    depth: u8,
    score: i32,
    node_type: NodeType,
    best_move: Option<Move>,
)
    requires
        size >= 1,
        slots.len() == size,
        tt_scores_ok(slots),
        score > i32::MIN,
    ensures
        tt_scores_ok(stored(slots, size, age, hash, depth, score, node_type, best_move)),
{
    let t = stored(slots, size, age, hash, depth, score, node_type, best_move);
    assert forall|i: int| 0 <= i < t.len() implies (#[trigger] t[i] matches Some(e) ==> e.score > i32::MIN) by {
        if i != slot_of(hash, size) {
            assert(t[i] == slots[i]);
        }
    }
}

/// A listed tactical move is a legal move.
proof fn lemma_tactical_member(pos: Position, ms: Seq<Move>, i: int)
    requires
        ms == tactical_moves(pos),
        0 <= i < ms.len(),
    ensures
        legal_moves(pos).contains(ms[i]),
{
    assert(ms.contains(ms[i]));
    legal_moves(pos).lemma_filter_contains_rev(tactical_pred(), ms[i]);
}


/// A node whose side to move has no legal move, searched to a depth of at least one and not
/// settled by the fifty-move rule or the table: when that side is in check it is mated, worth
/// `-MATE_SCORE + ply`; when it is not, it is stalemated, a draw worth 0 (or `beta`, when a
/// null-move search tried first already fails high).
pub proof fn lemma_no_move_value(
    slots: Seq<Option<TTEntry>>,
    size: nat,
    age: u8,
    pos: Position,
    depth: nat,
    alpha: int,
    beta: int,
    ply: int,
    do_null: bool,
)
    requires
        depth >= 1,
        pos.halfmove_clock < 100,
        table_cutoff(probed(slots, size, pos.hash), depth, alpha, beta) is None,
        legal_moves(pos).len() == 0,
    ensures
        ({
            let v = negamax_value(slots, size, age, pos, depth, alpha, beta, ply, do_null).0;
            &&& pos.in_check(pos.side_to_move) ==> v == -(MATE_SCORE as int) + ply
            &&& !pos.in_check(pos.side_to_move) ==> v == 0 || (v == beta && do_null && depth >= 3
                && !endgame(pos))
            &&& !pos.in_check(pos.side_to_move) && !(do_null && depth >= 3 && !endgame(pos)) ==> v == 0
        }),
{
    let in_check = pos.in_check(pos.side_to_move);
    if do_null && !in_check && depth >= 3 && !endgame(pos) {
        let (ns, s1) = negamax_value(slots, size, age, null_position(pos), (depth - 3) as nat, -beta, -beta + 1, ply + 1, false);
        assert(negamax_moves_value(s1, size, age, pos, depth, alpha, beta, ply, in_check).0 == 0);
    } else {
        assert(negamax_moves_value(slots, size, age, pos, depth, alpha, beta, ply, in_check).0 == if in_check {
            -(MATE_SCORE as int) + ply
        } else {
            0
        });
    }
}

} // verus!
