use vstd::prelude::*;
use crate::api::handlers::ApiError;
use crate::clock::{clock_now, millis_since};
use crate::evaluation::{Evaluator, eval_score};
use crate::fen::{fen_parse, reads_as, lemma_fen_ep_on_board, fen_position};
use crate::legal::gen_ok;
use crate::movegen::uci_text;
use crate::perft::{Perft, perft_nodes};
use crate::position::Position as EnginePosition;
use crate::search::{Search, SearchLimits, deepening, depth_limit};
use crate::transposition::{TTEntry, entries_for, is_next_pow2};
use crate::movegen::Move;
use crate::text::{push_str_chars, string_from_chars};

verus! {

/// Asks for the engine's move in a FEN position, to a depth and within a time.
pub struct EngineMoveRequest {
    pub fen: String,
    pub depth: Option<u8>,
    pub time_ms: Option<u64>,
}

pub struct EngineMoveResponse {
    pub best_move: String,
    pub score: Option<i32>,
    pub nodes: u64,
    pub time_ms: u128,
    pub nps: u64,
}

pub struct EngineAnalysisRequest {
    pub fen: String,
    pub depth: u8,
}

pub struct EngineAnalysisResponse {
    pub best_move: String,
    pub evaluation: i32,
    pub nodes: u64,
    pub nps: u64,
}

/// Asks for a perft count from a FEN position, or from the start when none is given.
pub struct PerftRequest {
    pub fen: Option<String>,
    pub depth: u8,
}

pub struct PerftResponse {
    pub nodes: u64,
    pub time_ms: u128,
}

pub struct EvaluationRequest {
    pub fen: String,
}

pub struct EvaluationResponse {
    pub evaluation: i32,
    pub description: String,
}

/// The move a search over a fresh table of `size` slots finds in `pos` under `limits`.
pub open spec fn fresh_search_move(size: nat, pos: EnginePosition, limits: SearchLimits) -> Option<Move> {
    deepening(Seq::new(size, |i: int| None::<TTEntry>), size, 1, pos, 1, depth_limit(limits), 0, None)
}

/// Runs a search and answers with its move and counters; `None` when no move was found.
fn search_for(position: &EnginePosition, limits: SearchLimits) -> (r: Option<
    (String, u64, u64, u64),
>)
    requires
        crate::movegen::ep_ok(*position),
    ensures
        r matches Some((text, _, _, _)) ==> exists|m: crate::movegen::Move| text@ == uci_text(m),
        position.fullmove_number >= 65535 - 64 ==> r is None,
        position.fullmove_number < 65535 - 64 && limits.max_time_ms is None && limits.max_nodes is None
            ==> exists|size: nat|
            #![trigger is_next_pow2(size, entries_for(128))]
            is_next_pow2(size, entries_for(128)) && match fresh_search_move(size, *position, limits) {
                None => r is None,
                Some(m) => r matches Some((text, _, _, _)) && text@ == uci_text(m),
            },
{
    if position.fullmove_number >= 65535 - 64 {
        return None;
    }
    let mut search = Search::new(128);
    proof {
        assert(search.table().slots() =~= Seq::new(search.table().size(), |i: int| None::<TTEntry>));
    }
    let best_move = search.search(position, limits);
    match best_move {
        Some(mv) => {
            let stats = search.get_stats();
            let nodes = stats.nodes.wrapping_add(stats.qnodes);
            Some((mv.to_uci(), nodes, stats.time_elapsed_ms, stats.nps()))
        },
        None => None,
    }
}

/// The limits a move request searches with: the given depth (10 by default) and time limit.
pub open spec fn move_limits(depth: Option<u8>, time_ms: Option<u64>) -> SearchLimits {
    SearchLimits {
        max_depth: Some(
            match depth {
                Some(d) => d,
                None => 10u8,
            },
        ),
        max_time_ms: time_ms,
        max_nodes: None,
        infinite: false,
    }
}

/// The limits a move request searches with (see `move_limits`).
pub fn move_request_limits(depth: Option<u8>, time_ms: Option<u64>) -> (r: SearchLimits)
    ensures
        r == move_limits(depth, time_ms),
{
    let mut limits = SearchLimits::default();
    if let Some(d) = depth {
        limits.max_depth = Some(d);
    }
    if let Some(t) = time_ms {
        limits.max_time_ms = Some(t);
    }
    limits
}

/// The engine's move for a FEN position, searched with the given depth (10 by default) and time
/// limit. Refused as a bad request when the FEN is refused, and as a server error when the search
/// finds no move or the move counter has no room left for it.
pub fn get_best_move(request: EngineMoveRequest) -> (r: Result<EngineMoveResponse, ApiError>)
    ensures
        fen_parse(request.fen@) is Err ==> r == Err::<EngineMoveResponse, ApiError>(
            ApiError::BadRequest,
        ),
        fen_parse(request.fen@) is Ok ==> r != Err::<EngineMoveResponse, ApiError>(
            ApiError::BadRequest,
        ),
        r matches Ok(resp) ==> resp.score is None && exists|m: crate::movegen::Move|
            resp.best_move@ == uci_text(m),
        request.time_ms is None ==> (fen_parse(request.fen@) matches Ok(d) ==> {
            let p = fen_position(d);
            &&& p.fullmove_number >= 65535 - 64 ==> r == Err::<EngineMoveResponse, ApiError>(
                ApiError::InternalServerError,
            )
            &&& p.fullmove_number < 65535 - 64 ==> exists|size: nat|
                #![trigger is_next_pow2(size, entries_for(128))]
                is_next_pow2(size, entries_for(128)) && match fresh_search_move(
                    size,
                    p,
                    move_limits(request.depth, request.time_ms),
                ) {
                    None => r == Err::<EngineMoveResponse, ApiError>(ApiError::InternalServerError),
                    Some(m) => r matches Ok(resp) && resp.best_move@ == uci_text(m),
                }
        }),
{
    let position = match EnginePosition::from_fen(request.fen.as_str()) {
        Ok(p) => p,
        Err(_) => return Err(ApiError::BadRequest),
    };
    proof {
        lemma_fen_ep_on_board(request.fen@);
    }
    let limits = move_request_limits(request.depth, request.time_ms);
    match search_for(&position, limits) {
        Some((best_move, nodes, time_ms, nps)) => Ok(
            EngineMoveResponse { best_move, score: None, nodes, time_ms: time_ms as u128, nps },
        ),
        None => Err(ApiError::InternalServerError),
    }
}

/// The static evaluation of a FEN position and the engine's move at the requested depth.
pub fn analyze_position(request: EngineAnalysisRequest) -> (r: Result<EngineAnalysisResponse, ApiError>)
    ensures
        fen_parse(request.fen@) is Err ==> r == Err::<EngineAnalysisResponse, ApiError>(
            ApiError::BadRequest,
        ),
        fen_parse(request.fen@) is Ok ==> r != Err::<EngineAnalysisResponse, ApiError>(
            ApiError::BadRequest,
        ),
        r matches Ok(resp) ==> (exists|p: EnginePosition|
            reads_as(request.fen@, p) && resp.evaluation == eval_score(p)) && (exists|
            m: crate::movegen::Move,
        | resp.best_move@ == uci_text(m)),
        fen_parse(request.fen@) matches Ok(d) ==> {
            let p = fen_position(d);
            &&& p.fullmove_number >= 65535 - 64 ==> r == Err::<EngineAnalysisResponse, ApiError>(
                ApiError::InternalServerError,
            )
            &&& p.fullmove_number < 65535 - 64 ==> exists|size: nat|
                #![trigger is_next_pow2(size, entries_for(128))]
                is_next_pow2(size, entries_for(128)) && match fresh_search_move(
                    size,
                    p,
                    move_limits(Some(request.depth), None),
                ) {
                    None => r == Err::<EngineAnalysisResponse, ApiError>(ApiError::InternalServerError),
                    Some(m) => r matches Ok(resp) && resp.best_move@ == uci_text(m) && resp.evaluation
                        == eval_score(p),
                }
        },
{
    let position = match EnginePosition::from_fen(request.fen.as_str()) {
        Ok(p) => p,
        Err(_) => return Err(ApiError::BadRequest),
    };
    proof {
        lemma_fen_ep_on_board(request.fen@);
    }
    let evaluation = Evaluator::evaluate(&position);
    let limits = move_request_limits(Some(request.depth), None);
    match search_for(&position, limits) {
        Some((best_move, nodes, _, nps)) => {
            assert(reads_as(request.fen@, position));
            Ok(EngineAnalysisResponse { best_move, evaluation, nodes, nps })
        },
        None => Err(ApiError::InternalServerError),
    }
}

/// The position a perft request counts from: the FEN's position, or the starting position when
/// none is given; `None` when the FEN is refused.
pub open spec fn perft_request_position(fen: Option<String>) -> Option<EnginePosition> {
    match fen {
        None => Some(EnginePosition::start_layout(0).rehashed()),
        Some(f) => match fen_parse(f@) {
            Ok(d) => Some(fen_position(d)),
            Err(_) => None,
        },
    }
}

/// Counts the leaf nodes at the requested depth from a FEN position (the starting position when
/// none is given), timing the count. Refused as a bad request when the FEN is refused, and as a
/// server error when the clocks have no room for the depth or the count does not fit in a `u64`.
pub fn perft_test(request: PerftRequest) -> (r: Result<PerftResponse, ApiError>)
    ensures
        (request.fen matches Some(f) && fen_parse(f@) is Err) ==> r == Err::<
            PerftResponse,
            ApiError,
        >(ApiError::BadRequest),
        r matches Ok(resp) ==> match request.fen {
            Some(f) => exists|p: EnginePosition|
                reads_as(f@, p) && resp.nodes == perft_nodes(p, request.depth as nat),
            None => exists|p: EnginePosition|
                p == EnginePosition::start_layout(p.hash) && resp.nodes == perft_nodes(
                    p,
                    request.depth as nat,
                ),
        },
        perft_request_position(request.fen) matches Some(p) ==> if p.halfmove_clock + request.depth
            < 65535 && p.fullmove_number + request.depth < 65535 && perft_nodes(p, request.depth as nat)
            <= u64::MAX {
            r matches Ok(resp) && resp.nodes == perft_nodes(p, request.depth as nat)
        } else {
            r == Err::<PerftResponse, ApiError>(ApiError::InternalServerError)
        },
{
    let position = match &request.fen {
        Some(fen) => {
            match EnginePosition::from_fen(fen.as_str()) {
                Ok(p) => {
                    proof {
                        lemma_fen_ep_on_board(fen@);
                    }
                    p
                },
                Err(_) => return Err(ApiError::BadRequest),
            }
        },
        None => EnginePosition::startpos(),
    };
    proof {
        if request.fen is None {
            reveal(EnginePosition::start_layout);
        }
    }
    if position.halfmove_clock as u32 + request.depth as u32 >= 65535 || position.fullmove_number
        as u32 + request.depth as u32 >= 65535 {
        return Err(ApiError::InternalServerError);
    }
    let start = clock_now();
    let nodes = match Perft::perft_checked(&position, request.depth) {
        Some(n) => n,
        None => return Err(ApiError::InternalServerError),
    };
    let elapsed = millis_since(&start);
    Ok(PerftResponse { nodes, time_ms: elapsed as u128 })
}

/// The words that describe an evaluation (white's advantage in centipawns).
pub open spec fn evaluation_text(evaluation: i32) -> Seq<char> {
    if evaluation > 300 {
        "White has a significant advantage"@
    } else if evaluation > 100 {
        "White has a slight advantage"@
    } else if evaluation > -100 {
        "Position is roughly equal"@
    } else if evaluation > -300 {
        "Black has a slight advantage"@
    } else {
        "Black has a significant advantage"@
    }
}

/// The words that describe an evaluation.
pub fn evaluation_description(evaluation: i32) -> (r: String)
    ensures
        r@ == evaluation_text(evaluation),
{
    let mut v: Vec<char> = Vec::new();
    if evaluation > 300 {
        push_str_chars(&mut v, "White has a significant advantage");
    } else if evaluation > 100 {
        push_str_chars(&mut v, "White has a slight advantage");
    } else if evaluation > -100 {
        push_str_chars(&mut v, "Position is roughly equal");
    } else if evaluation > -300 {
        push_str_chars(&mut v, "Black has a slight advantage");
    } else {
        push_str_chars(&mut v, "Black has a significant advantage");
    }
    assert(v@ =~= evaluation_text(evaluation));
    string_from_chars(&v)
}

/// The static evaluation of a FEN position, with words that describe it.
pub fn evaluate_position(request: EvaluationRequest) -> (r: Result<EvaluationResponse, ApiError>)
    ensures
        fen_parse(request.fen@) is Err ==> r == Err::<EvaluationResponse, ApiError>(
            ApiError::BadRequest,
        ),
        fen_parse(request.fen@) is Ok ==> (r matches Ok(resp) && exists|p: EnginePosition|
            reads_as(request.fen@, p) && resp.evaluation == eval_score(p)
                && resp.description@ == evaluation_text(resp.evaluation)),
{
    let position = match EnginePosition::from_fen(request.fen.as_str()) {
        Ok(p) => p,
        Err(_) => return Err(ApiError::BadRequest),
    };
    let evaluation = Evaluator::evaluate(&position);
    let description = evaluation_description(evaluation);
    assert(reads_as(request.fen@, position));
    Ok(EvaluationResponse { evaluation, description })
}

} // verus!
