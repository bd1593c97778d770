use vstd::prelude::*;
use crate::legal::{legal_moves, gen_ok, legal_after, move_in_range};
use crate::makemove::{move_result, same_but_hash};
use crate::movegen::{Move, MoveGen, MoveList, ep_ok};
use crate::position::{Color, Position};
use crate::search::{Search, SearchLimits};

verus! {

#[derive(Clone, Copy, PartialEq, Eq, Structural, Debug)]
pub enum GameResult {
    WhiteWin,
    BlackWin,
    Draw,
}

/// Engine configuration for test games.
#[derive(Clone)]
pub struct EngineConfig {
    pub name: String,
    pub search_depth: u8,
    /// Time per move in milliseconds.
    pub time_per_move_ms: u64,
    pub tt_size_mb: usize,
}

impl EngineConfig {
    /// A configuration with one second per move and a 64 MB table.
    pub fn new(name: String, search_depth: u8) -> (r: EngineConfig)
        ensures
            r.name == name,
            r.search_depth == search_depth,
            r.time_per_move_ms == 1000,
            r.tt_size_mb == 64,
    {
        EngineConfig { name, search_depth, time_per_move_ms: 1000, tt_size_mb: 64 }
    }
}

/// The table sizes an engine can be created with.
pub open spec fn config_ok(c: EngineConfig) -> bool {
    c.tt_size_mb * 1024 * 1024 <= usize::MAX / 2
}

/// The limits a configuration searches each move with: its depth and its time per move.
pub open spec fn config_limits(c: EngineConfig) -> SearchLimits {
    SearchLimits {
        max_depth: Some(c.search_depth),
        max_time_ms: Some(c.time_per_move_ms),
        max_nodes: None,
        infinite: false,
    }
}

impl EngineConfig {
    /// The limits this configuration searches each move with (see `config_limits`).
    pub fn move_limits(&self) -> (r: SearchLimits)
        ensures
            r == config_limits(*self),
    {
        SearchLimits {
            max_depth: Some(self.search_depth),
            max_time_ms: Some(self.time_per_move_ms),
            max_nodes: None,
            infinite: false,
        }
    }
}

/// A match between two engines.
pub struct EngineMatch {
    pub white_config: EngineConfig,
    pub black_config: EngineConfig,
    pub games: Vec<GameResult>,
}

/// Outcome counts of a match, from the first configuration's white side.
#[derive(Clone)]
pub struct MatchStats {
    pub white_name: String,
    pub black_name: String,
    pub games_played: u32,
    pub white_wins: u32,
    pub black_wins: u32,
    pub draws: u32,
}

/// The result of the `i`-th game of a match seen from the first configuration: in odd games it
/// played black, so the recorded result is turned round.
pub open spec fn first_side_result(g: GameResult, i: int) -> GameResult {
    if i % 2 == 0 {
        g
    } else {
        match g {
            GameResult::WhiteWin => GameResult::BlackWin,
            GameResult::BlackWin => GameResult::WhiteWin,
            GameResult::Draw => GameResult::Draw,
        }
    }
}

/// How many of the `n` games recorded from `start` on end in `which`, from the first
/// configuration's side.
pub open spec fn count_results(games: Seq<GameResult>, start: int, n: nat, which: GameResult) -> nat
    decreases n,
{
    if n == 0 {
        0
    } else {
        count_results(games, start, (n - 1) as nat, which) + (if first_side_result(
            games[start + n - 1],
            n - 1,
        ) == which {
            1nat
        } else {
            0nat
        })
    }
}

/// The count reads only the games it covers.
proof fn lemma_count_prefix(a: Seq<GameResult>, b: Seq<GameResult>, start: int, n: nat, which: GameResult)
    requires
        0 <= start,
        start + n <= a.len() <= b.len(),
        a == b.subrange(0, a.len() as int),
    ensures
        count_results(a, start, n, which) == count_results(b, start, n, which),
    decreases n,
{
    if n > 0 {
        lemma_count_prefix(a, b, start, (n - 1) as nat, which);
        assert(a[start + n - 1] == b[start + n - 1]);
    }
}

/// The side that wins when the side to move loses.
pub open spec fn loss_for(side: Color) -> GameResult {
    if side == Color::White {
        GameResult::BlackWin
    } else {
        GameResult::WhiteWin
    }
}

/// How a game stands at `pos` after `move_count` moves: drawn by the fifty-move rule, at
/// `max_moves` moves or when the move counter has no room left for a search, lost by the side
/// to move when it is mated, drawn on stalemate; `None` while it goes on.
pub open spec fn game_end(pos: Position, move_count: nat, max_moves: nat) -> Option<GameResult> {
    if pos.halfmove_clock >= 100 || move_count >= max_moves || pos.fullmove_number >= 65535 - 64 {
        Some(GameResult::Draw)
    } else if legal_moves(pos).len() == 0 {
        if pos.in_check(pos.side_to_move) {
            Some(loss_for(pos.side_to_move))
        } else {
            Some(GameResult::Draw)
        }
    } else {
        None
    }
}

/// One step of a game: the game ends as `game_end` says, or the engine's answer `found` is
/// played; a missing or illegal answer loses the game for the side to move.
pub open spec fn game_step_spec(pos: Position, move_count: nat, max_moves: nat, found: Option<Move>) -> Result<
    Position,
    GameResult,
> {
    match game_end(pos, move_count, max_moves) {
        Some(r) => Err(r),
        None => match found {
            Some(mv) => if legal_moves(pos).contains(mv) {
                match move_result(pos, mv) {
                    Some(np) => Ok(np.rehashed()),
                    None => Err(loss_for(pos.side_to_move)),
                }
            } else {
                Err(loss_for(pos.side_to_move))
            },
            None => Err(loss_for(pos.side_to_move)),
        },
    }
}

/// A game played from `pos`, `move_count` moves in, with the engines answering `found` in
/// turn: the position reached, or the result once it ends.
pub open spec fn play_from(pos: Position, move_count: nat, max_moves: nat, found: Seq<Option<Move>>) -> Result<
    Position,
    GameResult,
>
    decreases found.len(),
{
    if found.len() == 0 {
        Ok(pos)
    } else {
        match game_step_spec(pos, move_count, max_moves, found[0]) {
            Err(r) => Err(r),
            Ok(np) => play_from(np, move_count + 1, max_moves, found.drop_first()),
        }
    }
}

/// Playing one more answer continues the game from where it stood.
pub proof fn lemma_play_push(pos: Position, c: nat, max_moves: nat, found: Seq<Option<Move>>, f: Option<Move>)
    requires
        play_from(pos, c, max_moves, found) is Ok,
    ensures
        play_from(pos, c, max_moves, found.push(f)) == game_step_spec(
            play_from(pos, c, max_moves, found)->Ok_0,
            c + found.len(),
            max_moves,
            f,
        ),
    decreases found.len(),
{
    let fs = found.push(f);
    if found.len() == 0 {
        assert(fs.drop_first() =~= Seq::<Option<Move>>::empty());
        assert(fs[0] == f);
        match game_step_spec(pos, c, max_moves, f) {
            Err(r) => {},
            Ok(np) => {
                assert(play_from(np, c + 1, max_moves, fs.drop_first()) == Ok::<Position, GameResult>(np));
            },
        }
    } else {
        let np = game_step_spec(pos, c, max_moves, found[0])->Ok_0;
        assert(fs[0] == found[0]);
        assert(fs.drop_first() =~= found.drop_first().push(f));
        lemma_play_push(np, c + 1, max_moves, found.drop_first(), f);
    }
}

/// The step of a game for the engine's answer `found`, as `game_step_spec` says: the next
/// position, or the result.
pub fn game_step(pos: &Position, move_count: u32, max_moves: u32, found: Option<Move>) -> (r: Result<Position, GameResult>)
    requires
        ep_ok(*pos),
        pos.halfmove_clock < 65535,
        pos.fullmove_number < 65535,
    ensures
        r == game_step_spec(*pos, move_count as nat, max_moves as nat, found),
{
    if let Some(res) = game_over(pos, move_count, max_moves) {
        return Err(res);
    }
    let moves = MoveGen::generate_legal_moves(pos);
    let loser = if pos.side_to_move == Color::White {
        GameResult::BlackWin
    } else {
        GameResult::WhiteWin
    };
    match found {
        Some(mv) => {
            if !list_contains(&moves, mv) {
                return Err(loser);
            }
            proof {
                crate::perft::lemma_legal_member(*pos, mv);
                crate::perft::lemma_child_ok(*pos, mv);
            }
            let mut next = *pos;
            if next.make_move(mv).is_err() {
                return Err(loser);
            }
            Ok(next)
        },
        None => Err(loser),
    }
}

/// How a game stands (see `game_end`).
pub fn game_over(pos: &Position, move_count: u32, max_moves: u32) -> (r: Option<GameResult>)
    requires
        ep_ok(*pos),
        pos.halfmove_clock < 65535,
        pos.fullmove_number < 65535,
    ensures
        r == game_end(*pos, move_count as nat, max_moves as nat),
{
    if pos.halfmove_clock >= 100 || move_count >= max_moves || pos.fullmove_number >= 65535 - 64 {
        return Some(GameResult::Draw);
    }
    let moves = MoveGen::generate_legal_moves(pos);
    if moves.is_empty() {
        if pos.is_check() {
            if pos.side_to_move == Color::White {
                Some(GameResult::BlackWin)
            } else {
                Some(GameResult::WhiteWin)
            }
        } else {
            Some(GameResult::Draw)
        }
    } else {
        None
    }
}

/// Whether `m` is in `ms`.
fn list_contains(ms: &MoveList, m: Move) -> (r: bool)
    ensures
        r == ms.moves@.contains(m),
{
    let mut i: usize = 0;
    while i < ms.len()
        invariant
            i <= ms.moves@.len(),
            forall|j: int| 0 <= j < i ==> ms.moves@[j] != m,
        decreases ms.moves@.len() - i,
    {
        if ms.get(i) == m {
            return true;
        }
        i = i + 1;
    }
    false
}

impl EngineMatch {
    pub fn new(white_config: EngineConfig, black_config: EngineConfig) -> (r: EngineMatch)
        ensures
            r.white_config == white_config,
            r.black_config == black_config,
            r.games@.len() == 0,
    {
        EngineMatch { white_config, black_config, games: Vec::new() }
    }

    /// Play one game from the starting position, each side searching with its configuration.
    /// A game is drawn by the fifty-move rule, at `max_moves` moves (or when the move counter
    /// has no room left), or by stalemate; it is lost on checkmate, or when the engine to move
    /// finds no move or a move that is not legal.
    pub fn play_game(&mut self, max_moves: u32) -> (r: GameResult)
        requires
            config_ok(old(self).white_config),
            config_ok(old(self).black_config),
        ensures
            final(self).games@ == old(self).games@.push(r),
            final(self).white_config == old(self).white_config,
            final(self).black_config == old(self).black_config,
            max_moves == 0 ==> r == GameResult::Draw,
            exists|found: Seq<Option<Move>>|
                play_from(Position::start_layout(0).rehashed(), 0, max_moves as nat, found) == Err::<
                    Position,
                    GameResult,
                >(r),
    {
        let mut pos = Position::startpos();
        let mut white_search = Search::new(self.white_config.tt_size_mb);
        let mut black_search = Search::new(self.black_config.tt_size_mb);
        let mut move_count: u32 = 0;
        let ghost start = pos;
        let ghost mut found_seq: Seq<Option<Move>> = Seq::empty();
        loop
            invariant
                self.games@ == old(self).games@,
                self.white_config == old(self).white_config,
                self.black_config == old(self).black_config,
                white_search.wf(),
                black_search.wf(),
                move_count <= max_moves,
                ep_ok(pos),
                pos.halfmove_clock <= 100,
                pos.fullmove_number < 65535 - 63,
                max_moves == 0 ==> move_count == 0,
                start == Position::start_layout(0).rehashed(),
                found_seq.len() == move_count,
                play_from(start, 0, max_moves as nat, found_seq) == Ok::<Position, GameResult>(pos),
            decreases max_moves - move_count,
        {
            if let Some(res) = game_over(&pos, move_count, max_moves) {
                proof {
                    lemma_play_push(start, 0, max_moves as nat, found_seq, None);
                    assert(game_step_spec(pos, move_count as nat, max_moves as nat, None) == Err::<Position, GameResult>(res));
                }
                self.games.push(res);
                return res;
            }
            let found = if pos.side_to_move == Color::White {
                white_search.search(&pos, self.white_config.move_limits())
            } else {
                black_search.search(&pos, self.black_config.move_limits())
            };
            let step = game_step(&pos, move_count, max_moves, found);
            proof {
                lemma_play_push(start, 0, max_moves as nat, found_seq, found);
                found_seq = found_seq.push(found);
            }
            match step {
                Ok(next) => {
                    proof {
                        let mv = found->Some_0;
                        crate::perft::lemma_legal_member(pos, mv);
                        crate::perft::lemma_child_ok(pos, mv);
                    }
                    pos = next;
                },
                Err(res) => {
                    self.games.push(res);
                    return res;
                },
            }
            move_count = move_count + 1;
        }
    }

    /// Play `num_games` games, the configurations changing colours every other game; results
    /// are counted from the first configuration's side (a game it wins as black counts as a
    /// white win).
    pub fn play_match(&mut self, num_games: u32, max_moves: u32) -> (r: MatchStats)
        requires
            config_ok(old(self).white_config),
            config_ok(old(self).black_config),
        ensures
            r.games_played == num_games,
            r.white_wins + r.black_wins + r.draws == num_games,
            r.white_name == old(self).white_config.name,
            r.black_name == old(self).black_config.name,
            final(self).white_config == old(self).white_config,
            final(self).black_config == old(self).black_config,
            final(self).games@.len() == old(self).games@.len() + num_games,
            r.white_wins == count_results(final(self).games@, old(self).games@.len() as int, num_games as nat, GameResult::WhiteWin),
            r.black_wins == count_results(final(self).games@, old(self).games@.len() as int, num_games as nat, GameResult::BlackWin),
            r.draws == count_results(final(self).games@, old(self).games@.len() as int, num_games as nat, GameResult::Draw),
    {
        let mut white_wins: u32 = 0;
        let mut black_wins: u32 = 0;
        let mut draws: u32 = 0;
        let mut game_num: u32 = 0;
        while game_num < num_games
            invariant
                game_num <= num_games,
                white_wins + black_wins + draws == game_num,
                self.white_config == old(self).white_config,
                self.black_config == old(self).black_config,
                self.games@.len() == old(self).games@.len() + game_num,
                self.games@.subrange(0, old(self).games@.len() as int) == old(self).games@,
                white_wins == count_results(self.games@, old(self).games@.len() as int, game_num as nat, GameResult::WhiteWin),
                black_wins == count_results(self.games@, old(self).games@.len() as int, game_num as nat, GameResult::BlackWin),
                draws == count_results(self.games@, old(self).games@.len() as int, game_num as nat, GameResult::Draw),
                config_ok(old(self).white_config),
                config_ok(old(self).black_config),
            decreases num_games - game_num,
        {
            let ghost prev_games = self.games;
            let result = if game_num % 2 == 0 {
                self.play_game(max_moves)
            } else {
                std::mem::swap(&mut self.white_config, &mut self.black_config);
                let result = self.play_game(max_moves);
                std::mem::swap(&mut self.white_config, &mut self.black_config);
                match result {
                    GameResult::WhiteWin => GameResult::BlackWin,
                    GameResult::BlackWin => GameResult::WhiteWin,
                    GameResult::Draw => GameResult::Draw,
                }
            };
            proof {
                let start = old(self).games@.len() as int;
                let prev = self.games@.drop_last();
                assert(prev == prev_games@);
                lemma_count_prefix(prev, self.games@, start, game_num as nat, GameResult::WhiteWin);
                lemma_count_prefix(prev, self.games@, start, game_num as nat, GameResult::BlackWin);
                lemma_count_prefix(prev, self.games@, start, game_num as nat, GameResult::Draw);
                assert(first_side_result(self.games@[start + game_num], game_num as int) == result);
            }
            match result {
                GameResult::WhiteWin => white_wins = white_wins + 1,
                GameResult::BlackWin => black_wins = black_wins + 1,
                GameResult::Draw => draws = draws + 1,
            }
            game_num = game_num + 1;
        }
        MatchStats {
            white_name: self.white_config.name.clone(),
            black_name: self.black_config.name.clone(),
            games_played: num_games,
            white_wins,
            black_wins,
            draws,
        }
    }
}

} // verus!
