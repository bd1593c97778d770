use vstd::prelude::*;
use crate::legal::{legal_moves, gen_ok};
use crate::makemove::{move_result, move_safe};
use crate::movegen::{Move, MoveGen, ep_ok, uci_text};
use crate::position::{Color, Position};
use crate::search::{Search, SearchLimits};
use crate::text::{str_chars, string_from_chars};

verus! {

/// The engine versions that take part in tournaments.
#[derive(Clone, Copy, PartialEq, Eq, Structural, Hash, Debug)]
pub enum EngineType {
    V1,
    V2,
    V3,
    V4,
    MCTS,
}

/// The display name of an engine version.
pub open spec fn engine_name(e: EngineType) -> Seq<char> {
    match e {
        EngineType::V1 => "V1.0 (Alpha-Beta)"@,
        EngineType::V2 => "V2.0 (Null Move + LMR)"@,
        EngineType::V3 => "V3.0 (Aspiration + Razoring)"@,
        EngineType::V4 => "V4.0 (Multi-Cut + IID)"@,
        EngineType::MCTS => "V5.0 (MCTS)"@,
    }
}

impl EngineType {
    pub fn name(&self) -> (r: &'static str)
        ensures
            r@ == engine_name(*self),
    {
        match self {
            EngineType::V1 => "V1.0 (Alpha-Beta)",
            EngineType::V2 => "V2.0 (Null Move + LMR)",
            EngineType::V3 => "V3.0 (Aspiration + Razoring)",
            EngineType::V4 => "V4.0 (Multi-Cut + IID)",
            EngineType::MCTS => "V5.0 (MCTS)",
        }
    }
}

#[derive(Clone, Copy, PartialEq, Eq, Structural, Debug)]
pub enum GameResult {
    WhiteWin,
    BlackWin,
    Draw,
}

/// One tournament game.
#[derive(Debug)]
pub struct GameRecord {
    pub white: EngineType,
    pub black: EngineType,
    pub result: GameResult,
    pub moves: usize,
    pub opening_moves: Vec<String>,
}

/// How often `h` occurs in `hs`.
pub open spec fn hash_count(hs: Seq<u64>, h: u64) -> nat
    decreases hs.len(),
{
    if hs.len() == 0 {
        0
    } else {
        hash_count(hs.drop_last(), h) + if hs.last() == h { 1nat } else { 0nat }
    }
}

/// The side that wins when the side to move loses.
pub open spec fn loser_result(side: Color) -> GameResult {
    if side == Color::White {
        GameResult::BlackWin
    } else {
        GameResult::WhiteWin
    }
}

/// How a tournament game stands before move number `move_count` (counted from 1) is asked for,
/// the position's hash having just been added to `history`: drawn past `max_moves` moves or
/// on the third occurrence of the position's hash, lost by the side to move when it is mated,
/// drawn on stalemate; `None` while it goes on.
pub open spec fn match_end(pos: Position, history: Seq<u64>, move_count: nat, max_moves: nat) -> Option<GameResult> {
    if move_count > max_moves {
        Some(GameResult::Draw)
    } else if hash_count(history, pos.hash) >= 3 {
        Some(GameResult::Draw)
    } else if legal_moves(pos).len() == 0 {
        if pos.in_check(pos.side_to_move) {
            Some(loser_result(pos.side_to_move))
        } else {
            Some(GameResult::Draw)
        }
    } else {
        None
    }
}

/// The move an engine answered, played: a missing move, or one that cannot be made (no piece
/// on its origin), loses the game for the side to move.
pub open spec fn match_move(pos: Position, found: Option<Move>) -> Result<Position, GameResult> {
    match found {
        None => Err(loser_result(pos.side_to_move)),
        Some(mv) => match move_result(pos, mv) {
            None => Err(loser_result(pos.side_to_move)),
            Some(np) => Ok(np.rehashed()),
        },
    }
}

fn count_hash(history: &Vec<u64>, h: u64) -> (r: usize)
    ensures
        r == hash_count(history@, h),
{
    let mut n: usize = 0;
    let mut i: usize = 0;
    while i < history.len()
        invariant
            i <= history@.len(),
            n == hash_count(history@.subrange(0, i as int), h),
            n <= i,
        decreases history@.len() - i,
    {
        proof {
            assert(history@.subrange(0, i + 1).drop_last() =~= history@.subrange(0, i as int));
        }
        if history[i] == h {
            n = n + 1;
        }
        i = i + 1;
    }
    assert(history@.subrange(0, i as int) =~= history@);
    n
}

/// Start a tournament game's turn: count the move, add the position's hash to the history and
/// say how the game stands (see `match_end`).
pub fn match_turn(pos: &Position, history: &mut Vec<u64>, move_count: &mut usize, max_moves: usize) -> (r: Option<GameResult>)
    requires
        *old(move_count) <= max_moves,
        *old(move_count) < usize::MAX,
        ep_ok(*pos),
        pos.halfmove_clock < 65535,
        pos.fullmove_number < 65535,
    ensures
        *final(move_count) == *old(move_count) + 1,
        final(history)@ == old(history)@.push(pos.hash),
        r == match_end(*pos, final(history)@, *final(move_count) as nat, max_moves as nat),
{
    *move_count = *move_count + 1;
    if *move_count > max_moves {
        history.push(pos.hash);
        proof {
            assert(*move_count > max_moves);
        }
        return Some(GameResult::Draw);
    }
    history.push(pos.hash);
    if count_hash(history, pos.hash) >= 3 {
        return Some(GameResult::Draw);
    }
    let moves = MoveGen::generate_legal_moves(pos);
    if moves.is_empty() {
        if pos.is_check() {
            if pos.side_to_move == Color::White {
                Some(GameResult::BlackWin)
            } else {
                Some(GameResult::WhiteWin)
            }
        } else {
            Some(GameResult::Draw)
        }
    } else {
        None
    }
}

/// Play the move an engine answered (see `match_move`).
pub fn match_play(pos: &Position, found: Option<Move>) -> (r: Result<Position, GameResult>)
    requires
        found matches Some(mv) ==> move_safe(*pos, mv),
    ensures
        r == match_move(*pos, found),
{
    match found {
        None => {
            if pos.side_to_move == Color::White {
                Err(GameResult::BlackWin)
            } else {
                Err(GameResult::WhiteWin)
            }
        },
        Some(mv) => {
            let mut next = *pos;
            if next.make_move(mv).is_err() {
                if pos.side_to_move == Color::White {
                    Err(GameResult::BlackWin)
                } else {
                    Err(GameResult::WhiteWin)
                }
            } else {
                Ok(next)
            }
        },
    }
}

/// The texts of a list of strings.
pub open spec fn texts(v: Seq<String>) -> Seq<Seq<char>> {
    v.map_values(|t: String| t@)
}

/// A tournament: the record of every game played in it.
pub struct Tournament {
    results: Vec<GameRecord>,
}

/// A tournament game in play: the engines, the position, the hashes of the positions met so
/// far, the number of moves asked for and the first ten moves played (in UCI notation).
pub struct MatchGame {
    pub white: EngineType,
    pub black: EngineType,
    pub position: Position,
    pub history: Vec<u64>,
    pub move_count: usize,
    pub opening_moves: Vec<String>,
}

/// Whether `rec` records the game `g` ending with `result`.
pub open spec fn records_game(rec: GameRecord, g: MatchGame, result: GameResult) -> bool {
    &&& rec.white == g.white
    &&& rec.black == g.black
    &&& rec.result == result
    &&& rec.moves == g.move_count
    &&& texts(rec.opening_moves@) == texts(g.opening_moves@)
}

/// The limits each engine searches a tournament move with: `depth` plies and `time_ms`
/// milliseconds.
pub open spec fn match_limits(depth: u8, time_ms: u64) -> SearchLimits {
    SearchLimits { max_depth: Some(depth), max_time_ms: Some(time_ms), max_nodes: None, infinite: false }
}

/// The limits each engine searches a tournament move with (see `match_limits`).
pub fn match_search_limits(depth: u8, time_ms: u64) -> (r: SearchLimits)
    ensures
        r == match_limits(depth, time_ms),
{
    SearchLimits { max_depth: Some(depth), max_time_ms: Some(time_ms), max_nodes: None, infinite: false }
}

/// The move the alpha-beta engine (V1) answers in a tournament game: a fresh search with a
/// 64 MB table under `match_limits(depth, time_ms)`; no move when the move counter has no room
/// left for the search.
pub fn v1_move(pos: &Position, depth: u8, time_ms: u64) -> (r: Option<Move>)
    requires
        ep_ok(*pos),
    ensures
        pos.fullmove_number >= 65535 - 64 ==> r is None,
{
    if pos.fullmove_number >= 65535 - 64 {
        return None;
    }
    let mut search = Search::new(64);
    search.search(pos, match_search_limits(depth, time_ms))
}

fn copy_texts(v: &Vec<String>) -> (r: Vec<String>)
    ensures
        texts(r@) == texts(v@),
{
    let mut out: Vec<String> = Vec::new();
    let mut i: usize = 0;
    while i < v.len()
        invariant
            i <= v@.len(),
            texts(out@) == texts(v@.subrange(0, i as int)),
        decreases v@.len() - i,
    {
        let t = string_from_chars(&str_chars(v[i].as_str()));
        proof {
            assert(texts(v@.subrange(0, i + 1)) =~= texts(v@.subrange(0, i as int)).push(v@[i as int]@));
        }
        out.push(t);
        proof {
            assert(texts(out@) =~= texts(v@.subrange(0, i + 1)));
        }
        i = i + 1;
    }
    assert(v@.subrange(0, v@.len() as int) =~= v@);
    out
}

/// The wins, draws and losses `e` scored in the games `recs`, counted once for each side it
/// played in a game.
pub open spec fn score_of(recs: Seq<GameRecord>, e: EngineType) -> (nat, nat, nat)
    decreases recs.len(),
{
    if recs.len() == 0 {
        (0, 0, 0)
    } else {
        let prev = score_of(recs.drop_last(), e);
        let r = recs.last();
        let as_white: (nat, nat, nat) = if r.white == e {
            match r.result {
                GameResult::WhiteWin => (1, 0, 0),
                GameResult::Draw => (0, 1, 0),
                GameResult::BlackWin => (0, 0, 1),
            }
        } else {
            (0, 0, 0)
        };
        let as_black: (nat, nat, nat) = if r.black == e {
            match r.result {
                GameResult::BlackWin => (1, 0, 0),
                GameResult::Draw => (0, 1, 0),
                GameResult::WhiteWin => (0, 0, 1),
            }
        } else {
            (0, 0, 0)
        };
        (prev.0 + as_white.0 + as_black.0, prev.1 + as_white.1 + as_black.1, prev.2 + as_white.2 + as_black.2)
    }
}

impl Tournament {
    /// The wins, draws and losses of `engine` over the games played (see `score_of`).
    pub fn standing(&self, engine: EngineType) -> (r: (u128, u128, u128))
        ensures
            r.0 == score_of(self.records(), engine).0,
            r.1 == score_of(self.records(), engine).1,
            r.2 == score_of(self.records(), engine).2,
    {
        let mut wins: u128 = 0;
        let mut draws: u128 = 0;
        let mut losses: u128 = 0;
        let mut i: usize = 0;
        while i < self.results.len()
            invariant
                i <= self.results@.len(),
                wins == score_of(self.results@.subrange(0, i as int), engine).0,
                draws == score_of(self.results@.subrange(0, i as int), engine).1,
                losses == score_of(self.results@.subrange(0, i as int), engine).2,
                wins + draws + losses <= 2 * i,
            decreases self.results@.len() - i,
        {
            proof {
                assert(self.results@.subrange(0, i + 1).drop_last() =~= self.results@.subrange(0, i as int));
            }
            let rec = &self.results[i];
            if rec.white == engine {
                match rec.result {
                    GameResult::WhiteWin => wins = wins + 1,
                    GameResult::Draw => draws = draws + 1,
                    GameResult::BlackWin => losses = losses + 1,
                }
            }
            if rec.black == engine {
                match rec.result {
                    GameResult::BlackWin => wins = wins + 1,
                    GameResult::Draw => draws = draws + 1,
                    GameResult::WhiteWin => losses = losses + 1,
                }
            }
            i = i + 1;
        }
        assert(self.results@.subrange(0, i as int) =~= self.results@);
        (wins, draws, losses)
    }

    pub fn new() -> (r: Tournament)
        ensures
            r.records().len() == 0,
    {
        Tournament { results: Vec::new() }
    }

    /// The records of the games played, in order.
    pub closed spec fn records(self) -> Seq<GameRecord> {
        self.results@
    }

    /// The records of the games played, in order.
    pub fn results(&self) -> (r: &Vec<GameRecord>)
        ensures
            r@ == self.records(),
    {
        &self.results
    }

    /// A new game between `white` and `black` from the starting position.
    pub fn start_game(white: EngineType, black: EngineType) -> (g: MatchGame)
        ensures
            g.white == white,
            g.black == black,
            g.position == Position::start_layout(0).rehashed(),
            g.history@.len() == 0,
            g.move_count == 0,
            g.opening_moves@.len() == 0,
    {
        MatchGame {
            white,
            black,
            position: Position::startpos(),
            history: Vec::new(),
            move_count: 0,
            opening_moves: Vec::new(),
        }
    }

    fn record(&mut self, game: &MatchGame, result: GameResult)
        ensures
            final(self).records().len() == old(self).records().len() + 1,
            final(self).records().drop_last() == old(self).records(),
            records_game(final(self).records().last(), *game, result),
    {
        let rec = GameRecord {
            white: game.white,
            black: game.black,
            result,
            moves: game.move_count,
            opening_moves: copy_texts(&game.opening_moves),
        };
        self.results.push(rec);
        assert(self.results@.drop_last() =~= old(self).results@);
    }

    /// Start the turn of a game (see `match_turn`); when the game is over, record it.
    pub fn turn(&mut self, game: &mut MatchGame, max_moves: usize) -> (r: Option<GameResult>)
        requires
            old(game).move_count <= max_moves,
            old(game).move_count < usize::MAX,
            ep_ok(old(game).position),
            old(game).position.halfmove_clock < 65535,
            old(game).position.fullmove_number < 65535,
        ensures
            final(game).white == old(game).white,
            final(game).black == old(game).black,
            final(game).position == old(game).position,
            final(game).opening_moves == old(game).opening_moves,
            final(game).move_count == old(game).move_count + 1,
            final(game).history@ == old(game).history@.push(old(game).position.hash),
            r == match_end(old(game).position, final(game).history@, final(game).move_count as nat, max_moves as nat),
            r is None ==> final(self).records() == old(self).records() && final(game).move_count <= max_moves,
            r matches Some(res) ==> final(self).records().len() == old(self).records().len() + 1
                && final(self).records().drop_last() == old(self).records() && records_game(
                final(self).records().last(),
                *final(game),
                res,
            ),
    {
        let res = match_turn(&game.position, &mut game.history, &mut game.move_count, max_moves);
        if let Some(result) = res {
            self.record(game, result);
        }
        res
    }

    /// Play the move the engine to move answered (see `match_move`), noting it among the
    /// opening moves while at most ten moves have been asked for; when that ends the game,
    /// record it.
    pub fn answer(&mut self, game: &mut MatchGame, found: Option<Move>) -> (r: Option<GameResult>)
        requires
            found matches Some(mv) ==> move_safe(old(game).position, mv),
        ensures
            final(game).white == old(game).white,
            final(game).black == old(game).black,
            final(game).history == old(game).history,
            final(game).move_count == old(game).move_count,
            texts(final(game).opening_moves@) == match found {
                Some(mv) => if old(game).move_count <= 10 {
                    texts(old(game).opening_moves@).push(uci_text(mv))
                } else {
                    texts(old(game).opening_moves@)
                },
                None => texts(old(game).opening_moves@),
            },
            match match_move(old(game).position, found) {
                Ok(np) => r is None && final(game).position == np && final(self).records() == old(
                    self,
                ).records(),
                Err(res) => r == Some(res) && final(game).position == old(game).position
                    && final(self).records().len() == old(self).records().len() + 1
                    && final(self).records().drop_last() == old(self).records() && records_game(
                    final(self).records().last(),
                    *final(game),
                    res,
                ),
            },
    {
        if let Some(mv) = found {
            if game.move_count <= 10 {
                let ghost before = game.opening_moves@;
                game.opening_moves.push(mv.to_uci());
                assert(texts(game.opening_moves@) =~= texts(before).push(uci_text(mv)));
            }
        }
        match match_play(&game.position, found) {
            Ok(next) => {
                game.position = next;
                None
            },
            Err(result) => {
                self.record(game, result);
                Some(result)
            },
        }
    }
}

} // verus!
