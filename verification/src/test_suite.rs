use vstd::prelude::*;
use crate::clock::{clock_now, millis_since};
use crate::fen::{fen_parse, fen_error_text, reads_as, lemma_fen_ep_on_board};
use crate::movegen::{Move, uci_text};
use crate::perft::{Perft, perft_nodes};
use crate::position::Position;
use crate::search::{Search, SearchLimits};
use crate::text::{
    debug_escaped, debug_quote, push_str_chars, push_dec, string_from_chars, str_chars, chars_eq, dec,
};

verus! {

/// The outcome of one suite position.
#[derive(Clone, Debug)]
pub struct TestResult {
    pub passed: bool,
    pub position: String,
    pub description: String,
    pub expected: String,
    pub actual: String,
    pub time_ms: u128,
}

/// Tactical positions (Win At Chess) with their best moves.
pub struct TacticalTestSuite;

/// Perft positions with known node counts.
pub struct PerftTestSuite;

/// Positions of the Bratko-Kopec test.
pub struct BratkoKopecTestSuite;

pub open spec fn wac_positions() -> Seq<(&'static str, &'static str, &'static str)> {
        seq![
            ("2rr3k/pp3pp1/1nnqbN1p/3pN3/2pP4/2P3Q1/PPB4P/R4RK1 w - -", "g3g7", "Queen sacrifice leads to checkmate"),
            ("8/7p/5k2/5p2/p1p2P2/Pr1pPK2/1P1R3P/8 b - -", "b3b2", "Pawn breakthrough"),
            ("r1bqkb1r/pppp1ppp/2n2n2/4p2Q/2B1P3/8/PPPP1PPP/RNB1K1NR w KQkq -", "h5f7", "Scholar's mate pattern"),
            ("r3k2r/p1ppqpb1/bn2pnp1/3PN3/1p2P3/2N2Q1p/PPPBBPPP/R3K2R w KQkq -", "f3h3", "Queen takes hanging pawn with check"),
            ("2kr3r/pppq1ppp/3b1n2/3p4/3P4/2PB1N2/PP1Q1PPP/2KR3R w - -", "d3h7", "Bishop takes pawn, threatens knight"),
            ("3qk3/8/8/8/8/8/5PPP/4R1K1 w - -", "e1e8", "Back rank mate"),
            ("r5k1/5ppp/8/8/8/8/1Q3PPP/6K1 w - -", "b2b8", "Queen delivers mate"),
            ("6k1/5ppp/8/8/8/8/5PPP/4R1K1 w - -", "e1e8", "Rook delivers back rank mate"),
            ("r1bqkb1r/pppp1Qpp/2n2n2/4p3/2B1P3/8/PPPP1PPP/RNB1K1NR b KQkq -", "e8d7", "Defense against scholar's mate fails"),
            ("rnbqkbnr/pppp1ppp/8/4p3/6P1/5P2/PPPPP2P/RNBQKBNR b KQkq -", "d8h4", "Queen fork threat"),
            ("r1bqk2r/pppp1ppp/2n2n2/2b1p3/2B1P3/3P1N2/PPP2PPP/RNBQK2R w KQkq -", "f3e5", "Knight fork"),
            ("r1bqkb1r/pppp1ppp/2n2n2/4p3/2B1P3/5N2/PPPP1PPP/RNBQK2R w KQkq -", "c4f7", "Bishop pins knight"),
            ("4k3/8/8/8/8/8/4R3/4K2R w - -", "e2e8", "Rook skewer"),
            ("r1bqk2r/pppp1ppp/2n2n2/2b1p3/2B1P3/3P1N2/PPP2PPP/RNBQ1RK1 w kq -", "c4f7", "Discovered attack"),
            ("r1bq1rk1/ppp2ppp/2np1n2/2b1p3/2B1P3/2NP1N2/PPP2PPP/R1BQ1RK1 w - -", "c4b5", "Trade to relieve pressure"),
        ]
}

pub open spec fn perft_positions() -> Seq<(&'static str, u8, u64, &'static str)> {
        seq![
            ("rnbqkbnr/pppppppp/8/8/8/8/PPPPPPPP/RNBQKBNR w KQkq - 0 1", 1u8, 20u64, "Start: depth 1"),
            ("rnbqkbnr/pppppppp/8/8/8/8/PPPPPPPP/RNBQKBNR w KQkq - 0 1", 2u8, 400u64, "Start: depth 2"),
            ("rnbqkbnr/pppppppp/8/8/8/8/PPPPPPPP/RNBQKBNR w KQkq - 0 1", 3u8, 8902u64, "Start: depth 3"),
            ("rnbqkbnr/pppppppp/8/8/8/8/PPPPPPPP/RNBQKBNR w KQkq - 0 1", 4u8, 197281u64, "Start: depth 4"),
            ("rnbqkbnr/pppppppp/8/8/8/8/PPPPPPPP/RNBQKBNR w KQkq - 0 1", 5u8, 4865609u64, "Start: depth 5"),
            ("r3k2r/p1ppqpb1/bn2pnp1/3PN3/1p2P3/2N2Q1p/PPPBBPPP/R3K2R w KQkq -", 1u8, 48u64, "Kiwipete: depth 1"),
            ("r3k2r/p1ppqpb1/bn2pnp1/3PN3/1p2P3/2N2Q1p/PPPBBPPP/R3K2R w KQkq -", 2u8, 2039u64, "Kiwipete: depth 2"),
            ("r3k2r/p1ppqpb1/bn2pnp1/3PN3/1p2P3/2N2Q1p/PPPBBPPP/R3K2R w KQkq -", 3u8, 97862u64, "Kiwipete: depth 3"),
            ("8/2p5/3p4/KP5r/1R3p1k/8/4P1P1/8 w - -", 1u8, 14u64, "Endgame: depth 1"),
            ("8/2p5/3p4/KP5r/1R3p1k/8/4P1P1/8 w - -", 2u8, 191u64, "Endgame: depth 2"),
            ("8/2p5/3p4/KP5r/1R3p1k/8/4P1P1/8 w - -", 3u8, 2812u64, "Endgame: depth 3"),
            ("8/2p5/3p4/KP5r/1R3p1k/8/4P1P1/8 w - -", 4u8, 43238u64, "Endgame: depth 4"),
            ("r3k2r/Pppp1ppp/1b3nbN/nP6/BBP1P3/q4N2/Pp1P2PP/R2Q1RK1 w kq - 0 1", 1u8, 6u64, "Promotions: depth 1"),
            ("r3k2r/Pppp1ppp/1b3nbN/nP6/BBP1P3/q4N2/Pp1P2PP/R2Q1RK1 w kq - 0 1", 2u8, 264u64, "Promotions: depth 2"),
            ("r3k2r/Pppp1ppp/1b3nbN/nP6/BBP1P3/q4N2/Pp1P2PP/R2Q1RK1 w kq - 0 1", 3u8, 9467u64, "Promotions: depth 3"),
            ("rnbq1k1r/pp1Pbppp/2p5/8/2B5/8/PPP1NnPP/RNBQK2R w KQ - 1 8", 1u8, 44u64, "Position 5: depth 1"),
            ("rnbq1k1r/pp1Pbppp/2p5/8/2B5/8/PPP1NnPP/RNBQK2R w KQ - 1 8", 2u8, 1486u64, "Position 5: depth 2"),
            ("rnbq1k1r/pp1Pbppp/2p5/8/2B5/8/PPP1NnPP/RNBQK2R w KQ - 1 8", 3u8, 62379u64, "Position 5: depth 3"),
        ]
}

pub open spec fn bratko_kopec_positions() -> Seq<(&'static str, &'static str, &'static str)> {
        seq![
            ("1k1r4/pp1b1R2/3q2pp/4p3/2B5/4Q3/PPP2B2/2K5 b - -", "d6d1", "Queen checkmate"),
            ("3r1k2/4npp1/1ppr3p/p6P/P2PPPP1/1NR5/5K2/2R5 w - -", "d4d5", "Pawn breakthrough"),
            ("2q1rr1k/3bbnnp/p2p1pp1/2pPp3/PpP1P1P1/1P2BNNP/2BQ1PRK/7R b - -", "f6f5", "Pawn break"),
            ("rnbqkb1r/p3pppp/1p6/2ppP3/3N4/2P5/PPP1QPPP/R1B1KB1R w KQkq -", "e5e6", "Pawn breakthrough"),
            ("r1b2rk1/2q1b1pp/p2ppn2/1p6/3QP3/1BN1B3/PPP3PP/R4RK1 w - -", "d4d7", "Queen invades"),
        ]
}

impl TacticalTestSuite {
    /// (FEN, best move in UCI, description) for each tactical position.
    pub fn get_wac_positions() -> (r: Vec<(&'static str, &'static str, &'static str)>)
        ensures
            r@ == wac_positions(),
    {
        let r = vec![
            ("2rr3k/pp3pp1/1nnqbN1p/3pN3/2pP4/2P3Q1/PPB4P/R4RK1 w - -", "g3g7", "Queen sacrifice leads to checkmate"),
            ("8/7p/5k2/5p2/p1p2P2/Pr1pPK2/1P1R3P/8 b - -", "b3b2", "Pawn breakthrough"),
            ("r1bqkb1r/pppp1ppp/2n2n2/4p2Q/2B1P3/8/PPPP1PPP/RNB1K1NR w KQkq -", "h5f7", "Scholar's mate pattern"),
            ("r3k2r/p1ppqpb1/bn2pnp1/3PN3/1p2P3/2N2Q1p/PPPBBPPP/R3K2R w KQkq -", "f3h3", "Queen takes hanging pawn with check"),
            ("2kr3r/pppq1ppp/3b1n2/3p4/3P4/2PB1N2/PP1Q1PPP/2KR3R w - -", "d3h7", "Bishop takes pawn, threatens knight"),
            ("3qk3/8/8/8/8/8/5PPP/4R1K1 w - -", "e1e8", "Back rank mate"),
            ("r5k1/5ppp/8/8/8/8/1Q3PPP/6K1 w - -", "b2b8", "Queen delivers mate"),
            ("6k1/5ppp/8/8/8/8/5PPP/4R1K1 w - -", "e1e8", "Rook delivers back rank mate"),
            ("r1bqkb1r/pppp1Qpp/2n2n2/4p3/2B1P3/8/PPPP1PPP/RNB1K1NR b KQkq -", "e8d7", "Defense against scholar's mate fails"),
            ("rnbqkbnr/pppp1ppp/8/4p3/6P1/5P2/PPPPP2P/RNBQKBNR b KQkq -", "d8h4", "Queen fork threat"),
            ("r1bqk2r/pppp1ppp/2n2n2/2b1p3/2B1P3/3P1N2/PPP2PPP/RNBQK2R w KQkq -", "f3e5", "Knight fork"),
            ("r1bqkb1r/pppp1ppp/2n2n2/4p3/2B1P3/5N2/PPPP1PPP/RNBQK2R w KQkq -", "c4f7", "Bishop pins knight"),
            ("4k3/8/8/8/8/8/4R3/4K2R w - -", "e2e8", "Rook skewer"),
            ("r1bqk2r/pppp1ppp/2n2n2/2b1p3/2B1P3/3P1N2/PPP2PPP/RNBQ1RK1 w kq -", "c4f7", "Discovered attack"),
            ("r1bq1rk1/ppp2ppp/2np1n2/2b1p3/2B1P3/2NP1N2/PPP2PPP/R1BQ1RK1 w - -", "c4b5", "Trade to relieve pressure"),
        ];
        assert(r@ =~= wac_positions());
        r
    }
}

impl PerftTestSuite {
    /// (FEN, depth, node count, description) for each perft position.
    pub fn get_perft_positions() -> (r: Vec<(&'static str, u8, u64, &'static str)>)
        ensures
            r@ == perft_positions(),
    {
        let r = vec![
            ("rnbqkbnr/pppppppp/8/8/8/8/PPPPPPPP/RNBQKBNR w KQkq - 0 1", 1u8, 20u64, "Start: depth 1"),
            ("rnbqkbnr/pppppppp/8/8/8/8/PPPPPPPP/RNBQKBNR w KQkq - 0 1", 2u8, 400u64, "Start: depth 2"),
            ("rnbqkbnr/pppppppp/8/8/8/8/PPPPPPPP/RNBQKBNR w KQkq - 0 1", 3u8, 8902u64, "Start: depth 3"),
            ("rnbqkbnr/pppppppp/8/8/8/8/PPPPPPPP/RNBQKBNR w KQkq - 0 1", 4u8, 197281u64, "Start: depth 4"),
            ("rnbqkbnr/pppppppp/8/8/8/8/PPPPPPPP/RNBQKBNR w KQkq - 0 1", 5u8, 4865609u64, "Start: depth 5"),
            ("r3k2r/p1ppqpb1/bn2pnp1/3PN3/1p2P3/2N2Q1p/PPPBBPPP/R3K2R w KQkq -", 1u8, 48u64, "Kiwipete: depth 1"),
            ("r3k2r/p1ppqpb1/bn2pnp1/3PN3/1p2P3/2N2Q1p/PPPBBPPP/R3K2R w KQkq -", 2u8, 2039u64, "Kiwipete: depth 2"),
            ("r3k2r/p1ppqpb1/bn2pnp1/3PN3/1p2P3/2N2Q1p/PPPBBPPP/R3K2R w KQkq -", 3u8, 97862u64, "Kiwipete: depth 3"),
            ("8/2p5/3p4/KP5r/1R3p1k/8/4P1P1/8 w - -", 1u8, 14u64, "Endgame: depth 1"),
            ("8/2p5/3p4/KP5r/1R3p1k/8/4P1P1/8 w - -", 2u8, 191u64, "Endgame: depth 2"),
            ("8/2p5/3p4/KP5r/1R3p1k/8/4P1P1/8 w - -", 3u8, 2812u64, "Endgame: depth 3"),
            ("8/2p5/3p4/KP5r/1R3p1k/8/4P1P1/8 w - -", 4u8, 43238u64, "Endgame: depth 4"),
            ("r3k2r/Pppp1ppp/1b3nbN/nP6/BBP1P3/q4N2/Pp1P2PP/R2Q1RK1 w kq - 0 1", 1u8, 6u64, "Promotions: depth 1"),
            ("r3k2r/Pppp1ppp/1b3nbN/nP6/BBP1P3/q4N2/Pp1P2PP/R2Q1RK1 w kq - 0 1", 2u8, 264u64, "Promotions: depth 2"),
            ("r3k2r/Pppp1ppp/1b3nbN/nP6/BBP1P3/q4N2/Pp1P2PP/R2Q1RK1 w kq - 0 1", 3u8, 9467u64, "Promotions: depth 3"),
            ("rnbq1k1r/pp1Pbppp/2p5/8/2B5/8/PPP1NnPP/RNBQK2R w KQ - 1 8", 1u8, 44u64, "Position 5: depth 1"),
            ("rnbq1k1r/pp1Pbppp/2p5/8/2B5/8/PPP1NnPP/RNBQK2R w KQ - 1 8", 2u8, 1486u64, "Position 5: depth 2"),
            ("rnbq1k1r/pp1Pbppp/2p5/8/2B5/8/PPP1NnPP/RNBQK2R w KQ - 1 8", 3u8, 62379u64, "Position 5: depth 3"),
        ];
        assert(r@ =~= perft_positions());
        r
    }
}

impl BratkoKopecTestSuite {
    /// (FEN, best move in UCI, description) for each Bratko-Kopec position.
    pub fn get_positions() -> (r: Vec<(&'static str, &'static str, &'static str)>)
        ensures
            r@ == bratko_kopec_positions(),
    {
        let r = vec![
            ("1k1r4/pp1b1R2/3q2pp/4p3/2B5/4Q3/PPP2B2/2K5 b - -", "d6d1", "Queen checkmate"),
            ("3r1k2/4npp1/1ppr3p/p6P/P2PPPP1/1NR5/5K2/2R5 w - -", "d4d5", "Pawn breakthrough"),
            ("2q1rr1k/3bbnnp/p2p1pp1/2pPp3/PpP1P1P1/1P2BNNP/2BQ1PRK/7R b - -", "f6f5", "Pawn break"),
            ("rnbqkb1r/p3pppp/1p6/2ppP3/3N4/2P5/PPP1QPPP/R1B1KB1R w KQkq -", "e5e6", "Pawn breakthrough"),
            ("r1b2rk1/2q1b1pp/p2ppn2/1p6/3QP3/1BN1B3/PPP3PP/R4RK1 w - -", "d4d7", "Queen invades"),
        ];
        assert(r@ =~= bratko_kopec_positions());
        r
    }
}

/// The text a suite test reports when its FEN is refused.
pub open spec fn fen_failure_text(e: Seq<char>) -> Seq<char> {
    "FEN parse error: "@ + debug_escaped(e)
}

/// A refused-FEN result: not passed, the FEN, description and expectation copied, the reason.
fn refused(fen: &str, description: &str, expected: String, message: &str, elapsed: u64) -> (r: TestResult)
    ensures
        !r.passed,
        r.position@ == fen@,
        r.description@ == description@,
        r.expected@ == expected@,
        r.actual@ == fen_failure_text(message@),
        r.time_ms == elapsed as u128,
{
    let mut v: Vec<char> = Vec::new();
    push_str_chars(&mut v, "FEN parse error: ");
    let q = debug_quote(message);
    push_str_chars(&mut v, q.as_str());
    TestResult {
        passed: false,
        position: string_from_chars(&str_chars(fen)),
        description: string_from_chars(&str_chars(description)),
        expected,
        actual: string_from_chars(&v),
        time_ms: elapsed as u128,
    }
}

/// What a best-move suite test reports for a FEN: the refusal, or the move the search found
/// ("none" when it found none).
pub open spec fn search_test_ok(fen: Seq<char>, expected: Seq<char>, r: TestResult) -> bool {
    &&& r.position@ == fen
    &&& r.expected@ == expected
    &&& match fen_parse(fen) {
        Err(e) => !r.passed && r.actual@ == fen_failure_text(fen_error_text(e)),
        Ok(_) => {
            &&& (r.actual@ == "none"@ || exists|m: Move| r.actual@ == uci_text(m))
            &&& r.passed == (r.actual@ == expected)
        },
    }
}

/// The limits a best-move suite position is searched with: `depth` plies and ten seconds.
pub open spec fn suite_limits(depth: u8) -> SearchLimits {
    SearchLimits { max_depth: Some(depth), max_time_ms: Some(10_000u64), max_nodes: None, infinite: false }
}

/// The limits a best-move suite position is searched with (see `suite_limits`).
pub fn suite_search_limits(depth: u8) -> (r: SearchLimits)
    ensures
        r == suite_limits(depth),
{
    let mut limits = SearchLimits::default();
    limits.max_depth = Some(depth);
    limits.max_time_ms = Some(10_000);
    limits
}

/// Searches a suite position to `depth` (at most ten seconds) and compares the move found with
/// the expected one.
fn search_test(fen: &str, expected_move: &str, description: &str, depth: u8) -> (r: TestResult)
    ensures
        search_test_ok(fen@, expected_move@, r),
        r.description@ == description@,
{
    let start = clock_now();
    let expected = string_from_chars(&str_chars(expected_move));
    let position = match Position::from_fen(fen) {
        Ok(p) => p,
        Err(e) => {
            let elapsed = millis_since(&start);
            return refused(fen, description, expected, e.as_str(), elapsed);
        },
    };
    proof {
        lemma_fen_ep_on_board(fen@);
    }
    let mut actual: Vec<char> = Vec::new();
    if position.fullmove_number < 65535 - 64 {
        let mut search = Search::new(128);
        let limits = suite_search_limits(depth);
        match search.search(&position, limits) {
            Some(m) => {
                let u = m.to_uci();
                push_str_chars(&mut actual, u.as_str());
            },
            None => push_str_chars(&mut actual, "none"),
        }
    } else {
        push_str_chars(&mut actual, "none");
    }
    let elapsed = millis_since(&start);
    let passed = chars_eq(&actual, &str_chars(expected_move));
    TestResult {
        passed,
        position: string_from_chars(&str_chars(fen)),
        description: string_from_chars(&str_chars(description)),
        expected,
        actual: string_from_chars(&actual),
        time_ms: elapsed as u128,
    }
}

impl TacticalTestSuite {
    /// Searches one tactical position and compares the move found with the expected one.
    pub fn test_position(fen: &str, expected_move: &str, description: &str, depth: u8) -> (r: TestResult)
        ensures
            search_test_ok(fen@, expected_move@, r),
            r.description@ == description@,
    {
        search_test(fen, expected_move, description, depth)
    }
}

impl BratkoKopecTestSuite {
    /// Searches one Bratko-Kopec position and compares the move found with the expected one.
    pub fn test_position(fen: &str, expected_move: &str, description: &str, depth: u8) -> (r: TestResult)
        ensures
            search_test_ok(fen@, expected_move@, r),
            r.description@ == description@,
    {
        search_test(fen, expected_move, description, depth)
    }
}

/// What a perft suite test reports: the refusal, "too large" when the count does not fit or the
/// clocks have no room, or the count, passed when it is the expected one.
pub open spec fn perft_test_ok(fen: Seq<char>, depth: u8, expected: u64, r: TestResult) -> bool {
    &&& r.position@ == fen
    &&& r.expected@ == dec(expected as nat)
    &&& match fen_parse(fen) {
        Err(e) => !r.passed && r.actual@ == fen_failure_text(fen_error_text(e)),
        Ok(d) => {
            let p = crate::fen::fen_position(d);
            if crate::perft::perft_fits(p, depth as nat) {
                r.actual@ == dec(perft_nodes(p, depth as nat)) && r.passed == (perft_nodes(p, depth as nat) == expected)
            } else {
                !r.passed && r.actual@ == "too large"@
            }
        },
    }
}

impl PerftTestSuite {
    /// Counts one perft position to `depth` and compares with the expected count.
    pub fn test_position(fen: &str, depth: u8, expected: u64, description: &str) -> (r: TestResult)
        ensures
            perft_test_ok(fen@, depth, expected, r),
            r.description@ == description@,
    {
        let start = clock_now();
        let mut ev: Vec<char> = Vec::new();
        push_dec(&mut ev, expected);
        let expected_text = string_from_chars(&ev);
        let position = match Position::from_fen(fen) {
            Ok(p) => p,
            Err(e) => {
                let elapsed = millis_since(&start);
                return refused(fen, description, expected_text, e.as_str(), elapsed);
            },
        };
        proof {
            lemma_fen_ep_on_board(fen@);
        }
        let mut actual: Vec<char> = Vec::new();
        let mut passed = false;
        let fits = position.halfmove_clock as u32 + depth as u32 <= 65534
            && position.fullmove_number as u32 + depth as u32 <= 65534;
        let counted = if fits {
            Perft::perft_checked(&position, depth)
        } else {
            None
        };
        match counted {
            Some(nodes) => {
                push_dec(&mut actual, nodes);
                passed = nodes == expected;
                assert(reads_as(fen@, position));
            },
            None => {
                push_str_chars(&mut actual, "too large");
            },
        }
        let elapsed = millis_since(&start);
        TestResult {
            passed,
            position: string_from_chars(&str_chars(fen)),
            description: string_from_chars(&str_chars(description)),
            expected: expected_text,
            actual: string_from_chars(&actual),
            time_ms: elapsed as u128,
        }
    }
}

/// Counts of a list of suite results.
pub struct TestSummary {
    pub passed: usize,
    pub total: usize,
    /// Milliseconds of all results together (at most `u128::MAX`).
    pub total_time_ms: u128,
}

/// The number of passed results among the first `n`.
pub open spec fn passed_count(results: Seq<TestResult>, n: int) -> nat
    decreases n,
{
    if n <= 0 {
        0
    } else {
        passed_count(results, n - 1) + (if results[n - 1].passed {
            1nat
        } else {
            0nat
        })
    }
}

impl TacticalTestSuite {
    /// How many results passed, how many there are, and their total time.
    pub fn summarize(results: &Vec<TestResult>) -> (r: TestSummary)
        ensures
            r.total == results@.len(),
            r.passed == passed_count(results@, results@.len() as int),
    {
        let mut passed: usize = 0;
        let mut total_time: u128 = 0;
        let mut i: usize = 0;
        while i < results.len()
            invariant
                i <= results@.len(),
                passed == passed_count(results@, i as int),
                passed <= i,
            decreases results@.len() - i,
        {
            if results[i].passed {
                passed = passed + 1;
            }
            total_time = total_time.saturating_add(results[i].time_ms);
            i = i + 1;
        }
        TestSummary { passed, total: results.len(), total_time_ms: total_time }
    }
}

} // verus!
