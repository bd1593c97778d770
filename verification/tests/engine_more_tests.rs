use chess_engine_api::analysis::{MoveClassification, MoveQuality};
use chess_engine_api::architecture::board::Board as ByteBoard;
use chess_engine_api::architecture::moves::DirectionOffsets;
use chess_engine_api::architecture::piece::Piece as BytePiece;
use chess_engine_api::evaluation::Evaluator;
use chess_engine_api::evaluation_v3::EvaluatorV3;
use chess_engine_api::movegen::{Move, MoveGen, MoveType};
use chess_engine_api::move_ordering::MoveOrdering;
use chess_engine_api::opening_book::OpeningBook;
use chess_engine_api::perft::{Perft, PerftOutcome};
use chess_engine_api::pgn::{PGNGame, PGNParser};
use chess_engine_api::position::Position;
use chess_engine_api::search::{Search, SearchLimits};
use chess_engine_api::test_suite::{BratkoKopecTestSuite, PerftTestSuite, TacticalTestSuite};
use chess_engine_api::time_manager::TimeManager;
use chess_engine_api::tournament::EngineType;
use chess_engine_api::transposition::TranspositionTable;
use chess_engine_api::uci::{UciEngine, UciOutput};

const KIWIPETE: &str = "r3k2r/p1ppqpb1/bn2pnp1/3PN3/1p2P3/2N2Q1p/PPPBBPPP/R3K2R w KQkq - 0 1";

fn lines(out: &[UciOutput]) -> Vec<String> {
    out.iter().map(|o| match o { UciOutput::Line(s) => s.clone() }).collect()
}

#[test]
fn perft_counts_from_the_start() {
    let pos = Position::startpos();
    assert_eq!(Perft::perft(&pos, 0), 1);
    assert_eq!(Perft::perft(&pos, 1), 20);
    assert_eq!(Perft::perft(&pos, 2), 400);
    assert_eq!(Perft::perft_checked(&pos, 3), Some(8902));
}

#[test]
fn perft_counts_kiwipete() {
    let pos = Position::from_fen(KIWIPETE).unwrap();
    assert_eq!(Perft::perft(&pos, 1), 48);
    assert_eq!(Perft::perft(&pos, 2), 2039);
}

#[test]
fn divide_adds_up_to_perft() {
    let pos = Position::startpos();
    let (per_move, total) = Perft::divide(&pos, 2).unwrap();
    assert_eq!(per_move.len(), 20);
    assert!(per_move.iter().all(|(_, n)| *n == 20));
    assert_eq!(total, 400);
    let (per_move, total) = Perft::divide(&pos, 1).unwrap();
    assert_eq!(per_move.len(), 20);
    assert_eq!(total, 20);
}

#[test]
fn perft_suite_case_results() {
    let r = PerftTestSuite::test_position("8/2p5/3p4/KP5r/1R3p1k/8/4P1P1/8 w - - 0 1", 2, 191, "Endgame: depth 2");
    assert!(r.passed);
    assert_eq!(r.actual, "191");
    assert_eq!(r.expected, "191");
    let r = PerftTestSuite::test_position("8/2p5/3p4/KP5r/1R3p1k/8/4P1P1/8 w - - 0 1", 1, 15, "wrong");
    assert!(!r.passed);
    assert_eq!(r.actual, "14");
    let r = PerftTestSuite::test_position("bad fen", 1, 15, "refused");
    assert!(!r.passed);
    assert_eq!(r.actual, "FEN parse error: \"Invalid FEN: not enough parts\"");
    let summary = TacticalTestSuite::summarize(&vec![r]);
    assert_eq!(summary.passed, 0);
    assert_eq!(summary.total, 1);
}

#[test]
fn search_suite_case_results() {
    let r = TacticalTestSuite::test_position("6k1/5ppp/8/8/8/8/5PPP/4R1K1 w - -", "e1e8", "Rook delivers back rank mate", 2);
    assert_eq!(r.actual, "e1e8");
    assert!(r.passed);
    let r = BratkoKopecTestSuite::test_position("x", "e1e8", "bad", 1);
    assert!(!r.passed);
}

#[test]
fn suite_position_lists() {
    assert_eq!(TacticalTestSuite::get_wac_positions().len(), 15);
    assert_eq!(PerftTestSuite::get_perft_positions()[0].2, 20);
    assert_eq!(BratkoKopecTestSuite::get_positions().len(), 5);
}

#[test]
fn perft_suite_first_cases() {
    let results = Perft::test_suite();
    assert_eq!(results.len(), 10);
    assert!(results[0].passed());
    assert!(matches!(results[1].outcome, PerftOutcome::Counted { nodes: 400, .. }));
}

#[test]
fn start_position_is_balanced() {
    let pos = Position::startpos();
    assert_eq!(Evaluator::evaluate(&pos), 0);
    assert_eq!(EvaluatorV3::evaluate(&pos), 0);
}

#[test]
fn search_finds_mate_in_one() {
    let pos = Position::from_fen("6k1/5ppp/8/8/8/8/5PPP/4R1K1 w - - 0 1").unwrap();
    let mut search = Search::new(1);
    let mut limits = SearchLimits::default();
    limits.max_depth = Some(2);
    let mv = search.search(&pos, limits).unwrap();
    assert_eq!(mv.to_uci(), "e1e8");
}

#[test]
fn legal_moves_from_uci() {
    let pos = Position::startpos();
    let mv = Move::from_uci("e2e4", &pos).unwrap();
    assert_eq!(mv.move_type, MoveType::DoublePawnPush);
    assert!(Move::from_uci("e2e5", &pos).is_none());
    assert_eq!(MoveGen::generate_legal_moves(&pos).moves.len(), 20);
}

#[test]
fn make_move_updates_position() {
    let mut pos = Position::startpos();
    let mv = Move::from_uci("e2e4", &pos).unwrap();
    pos.make_move(mv).unwrap();
    assert_eq!(pos.to_fen(), "rnbqkbnr/pppppppp/8/8/4P3/8/PPPP1PPP/RNBQKBNR b KQkq e3 0 1");
}

#[test]
fn see_of_undefended_captures() {
    let pos = Position::from_fen("4k3/8/8/4p3/3P4/8/8/4K3 w - - 0 1").unwrap();
    let mv = Move::from_uci("d4e5", &pos).unwrap();
    assert_eq!(pos.see(&mv), 100);
    let pos = Position::from_fen("4k3/8/8/4b3/8/5N2/8/4K3 w - - 0 1").unwrap();
    let mv = Move::from_uci("f3e5", &pos).unwrap();
    assert_eq!(pos.see(&mv), 330);
    let quiet = Move::from_uci("e1d1", &pos).unwrap();
    assert_eq!(pos.see(&quiet), 0);
}

#[test]
fn captures_are_ordered_first() {
    let pos = Position::from_fen(KIWIPETE).unwrap();
    let mut moves = MoveGen::generate_legal_moves(&pos).moves;
    let history = [[0i32; 64]; 64];
    let killers: [Option<Move>; 2] = [None, None];
    MoveOrdering::order_moves(&pos, &mut moves, None, &killers, &history);
    assert!(moves[0].is_capture());
    let scores: Vec<i32> = moves.iter().map(|m| MoveOrdering::score_move(&pos, *m, None, &killers, &history)).collect();
    assert!(scores.windows(2).all(|w| w[0] >= w[1]));
}

#[test]
fn time_allocation() {
    let tm = TimeManager::new();
    assert_eq!(tm.calculate_time_for_move(true), 7500);
    let tm = TimeManager { white_time_ms: 200, black_time_ms: 60000, white_inc_ms: 0, black_inc_ms: 1000, moves_to_go: Some(10) };
    assert_eq!(tm.calculate_time_for_move(true), 100);
    assert_eq!(tm.calculate_time_for_move(false), 7000);
}

#[test]
fn opening_book_single_move() {
    let pos = Position::startpos();
    let mv = Move::from_uci("e2e4", &pos).unwrap();
    let mut book = OpeningBook::new();
    assert!(book.get_move(&pos).is_none());
    book.add_move(&pos, mv, 7);
    assert_eq!(book.get_move(&pos), Some(mv));
    book.clear();
    assert!(book.get_move(&pos).is_none());
}

#[test]
fn opening_book_weighted_pick() {
    let pos = Position::startpos();
    let a = Move::from_uci("e2e4", &pos).unwrap();
    let b = Move::from_uci("d2d4", &pos).unwrap();
    let mut book = OpeningBook::new();
    book.add_move(&pos, a, 3);
    book.add_move(&pos, b, 4);
    assert_eq!(book.get_move(&pos), Some(a));
    let mut book = OpeningBook::new();
    book.add_move(&pos, a, 1);
    book.add_move(&pos, b, 150);
    assert_eq!(book.get_move(&pos), Some(b));
}

#[test]
fn uci_session() {
    let mut engine = UciEngine::new();
    let mut out = Vec::new();
    assert!(engine.handle_command("isready", &mut out));
    assert_eq!(lines(&out), vec!["readyok"]);
    out.clear();
    assert!(engine.handle_command("uci", &mut out));
    assert_eq!(lines(&out).last().unwrap(), "uciok");
    out.clear();
    assert!(engine.handle_command("position startpos moves e2e4 e7e5", &mut out));
    assert!(out.is_empty());
    assert_eq!(engine.position().to_fen(), "rnbqkbnr/pppp1ppp/8/4p3/4P3/8/PPPP1PPP/RNBQKBNR w KQkq e6 0 2");
    assert!(engine.handle_command("eval", &mut out));
    assert!(lines(&out)[0].starts_with("Evaluation: "));
    out.clear();
    assert!(engine.handle_command("d", &mut out));
    let shown = &lines(&out)[0];
    assert!(shown.starts_with("\n  a b c d e f g h\n8 r n b q k b n r \n"));
    assert!(shown.contains("\nFEN: rnbqkbnr/pppp1ppp/8/4p3/4P3/8/PPPP1PPP/RNBQKBNR w KQkq e6 0 2\nHash: "));
    out.clear();
    assert!(engine.handle_command("go depth 1", &mut out));
    assert!(lines(&out).last().unwrap().starts_with("bestmove "));
    out.clear();
    assert!(engine.handle_command("frobnicate", &mut out));
    assert_eq!(lines(&out), vec!["Unknown command: frobnicate"]);
    assert!(!engine.handle_command("quit", &mut out));
}

#[test]
fn pgn_parse_and_san() {
    let games = PGNParser::parse("[Event \"Casual\"]\n[Result \"1-0\"]\n\n1. e4 e5 2. Nf3 1-0\n");
    assert_eq!(games.len(), 1);
    assert_eq!(games[0].moves, vec!["e4", "e5", "Nf3"]);
    assert_eq!(games[0].result, "1-0");
    assert_eq!(games[0].get_header("Event").unwrap(), "Casual");
    let pos = Position::startpos();
    assert_eq!(PGNGame::uci_to_san("g1f3", &pos).unwrap(), "Nf3");
    assert_eq!(PGNGame::uci_to_san("e2e4", &pos).unwrap(), "e4");
}

#[test]
fn header_set_twice_keeps_last() {
    let mut game = PGNGame::new();
    game.set_header("Event".to_string(), "A".to_string());
    game.set_header("Event".to_string(), "B".to_string());
    assert_eq!(game.get_header("Event").unwrap(), "B");
}

#[test]
fn table_usage_counts() {
    let mut tt = TranspositionTable::new(1);
    assert_eq!(tt.usage_counts(), (0, 1000));
    tt.store(3, 1, 1, chess_engine_api::transposition::NodeType::Exact, None);
    assert_eq!(tt.usage_counts(), (1, 1000));
}

#[test]
fn names_and_reports() {
    assert_eq!(EngineType::V2.name(), "V2.0 (Null Move + LMR)");
    let pos = Position::startpos();
    let mv = Move::from_uci("e2e4", &pos).unwrap();
    let q = MoveQuality { chosen_move: mv, chosen_eval: -5, best_move: None, best_eval: 0, eval_loss: 5, classification: MoveClassification::Excellent };
    assert_eq!(q.to_string(), "Move: e2e4\nClassification: Excellent\nEval: -5 cp (loss: 5 cp)\n");
}

#[test]
fn byte_board_layout() {
    let b = ByteBoard::new();
    assert_eq!(b.pieces[0], BytePiece::ROOK | BytePiece::WHITE);
    assert_eq!(b.pieces[4], BytePiece::KING | BytePiece::WHITE);
    assert_eq!(b.pieces[20], BytePiece::NONE);
    assert_eq!(b.pieces[59], BytePiece::QUEEN | BytePiece::BLACK);
    let d = b.get_edge_distances();
    assert_eq!(d[0][63], 14);
    assert_eq!(d[9][18], 2);
    assert_eq!(d[5][5], 0);
    assert_eq!(DirectionOffsets::UP_LEFT.offset(), 7);
    assert_eq!(DirectionOffsets::DOWN_RIGHT.offset(), -7);
}

#[test]
fn transposed_move_orders_give_the_same_hash() {
    let mut a = UciEngine::new();
    let mut b = UciEngine::new();
    let mut out = Vec::new();
    a.handle_command("position startpos moves g1f3 g8f6 b1c3", &mut out);
    b.handle_command("position startpos moves b1c3 g8f6 g1f3", &mut out);
    assert!(out.is_empty());
    assert_eq!(a.position().hash, b.position().hash);
    assert_eq!(a.position().to_fen(), b.position().to_fen());
    let fen = Position::from_fen(&a.position().to_fen()).unwrap();
    assert_eq!(fen.hash, a.position().hash);
    assert_ne!(Position::startpos().hash, a.position().hash);
}

#[test]
fn position_command_lines() {
    let mut e = UciEngine::new();
    let mut out = Vec::new();
    e.handle_command("position somewhere", &mut out);
    assert_eq!(lines(&out), vec!["Invalid position command".to_string()]);
    let mut out = Vec::new();
    e.handle_command("position startpos moves e2e4 e2e5 d2d4", &mut out);
    assert_eq!(lines(&out), vec!["Invalid move: e2e5".to_string()]);
    assert_eq!(e.position().to_fen(), "rnbqkbnr/pppppppp/8/8/4P3/8/PPPP1PPP/RNBQKBNR b KQkq e3 0 1");
    let mut out = Vec::new();
    e.handle_command("position fen 8/8/8/8 w - - 0 1 moves e2e4", &mut out);
    assert_eq!(out.len(), 2);
}

#[test]
fn unlimited_search_finds_a_legal_move() {
    let pos = Position::startpos();
    let mut search = Search::new(1);
    let mut limits = SearchLimits::default();
    limits.max_depth = Some(2);
    let mv = search.search(&pos, limits).unwrap();
    let legal = MoveGen::generate_legal_moves(&pos);
    assert!(legal.iter().iter().any(|m| *m == mv));
}

#[test]
fn pgn_move_numbers_without_space() {
    let games = PGNParser::parse("1.e4 c5 2.Nf3 d6 3...Nc6 O-O 0-1\n");
    assert_eq!(games.len(), 1);
    assert_eq!(games[0].moves, vec!["e4", "c5", "Nf3", "d6", "Nc6", "O-O"]);
    assert_eq!(games[0].result, "0-1");
}

#[test]
fn capturing_a_corner_rook_drops_its_castling_right() {
    let mut pos = Position::from_fen("r3k2r/8/1N6/8/8/8/8/4K3 w kq - 0 1").unwrap();
    let mv = Move::from_uci("b6a8", &pos).unwrap();
    pos.make_move(mv).unwrap();
    assert!(Move::from_uci("e8c8", &pos).is_none());
    assert!(Move::from_uci("e8g8", &pos).is_some());
    assert_eq!(pos.to_fen(), "N3k2r/8/8/8/8/8/8/4K3 b k - 0 1");
}

#[test]
fn both_pawns_can_capture_the_same_square() {
    let pos = Position::from_fen("4k3/8/8/3p4/2P1P3/8/8/4K3 w - - 0 1").unwrap();
    let legal = MoveGen::generate_legal_moves(&pos);
    let ucis: Vec<String> = legal.iter().iter().map(|m| m.to_uci()).collect();
    assert_eq!(ucis.iter().filter(|u| u.as_str() == "c4d5").count(), 1);
    assert_eq!(ucis.iter().filter(|u| u.as_str() == "e4d5").count(), 1);
    let black = Position::from_fen("4k3/8/8/2p1p3/3P4/8/8/4K3 b - - 0 1").unwrap();
    let ucis: Vec<String> = MoveGen::generate_legal_moves(&black).iter().iter().map(|m| m.to_uci()).collect();
    assert!(ucis.contains(&"c5d4".to_string()));
    assert!(ucis.contains(&"e5d4".to_string()));
}

#[test]
fn uci_promotion_letter_selects_the_piece() {
    let pos = Position::from_fen("8/4P3/8/8/8/8/k7/4K3 w - - 0 1").unwrap();
    for s in ["e7e8q", "e7e8r", "e7e8b", "e7e8n"] {
        let mv = Move::from_uci(s, &pos).unwrap();
        assert_eq!(mv.to_uci(), s);
    }
    let legal = MoveGen::generate_legal_moves(&pos);
    for m in legal.iter().iter() {
        assert_eq!(Move::from_uci(&m.to_uci(), &pos), Some(*m));
    }
}

#[test]
fn see_of_a_defended_capture() {
    let pos = Position::from_fen("4k3/8/2p5/3n4/4P3/8/8/4K3 w - - 0 1").unwrap();
    let mv = Move::from_uci("e4d5", &pos).unwrap();
    assert_eq!(pos.see(&mv), 220);
    let pos = Position::from_fen("4k3/8/2p5/3p4/4N3/8/8/4K3 w - - 0 1").unwrap();
    let mv = Move::new(28, 35, MoveType::Capture);
    assert_eq!(pos.see(&mv), 100 - 320);
}

#[test]
fn game_steps_follow_the_rules() {
    use_game_step();
}

fn use_game_step() {
    let start = Position::startpos();
    assert_eq!(chess_engine_api::testing::game_over(&start, 0, 10), None);
    assert_eq!(chess_engine_api::testing::game_over(&start, 10, 10), Some(chess_engine_api::testing::GameResult::Draw));
    let mated = Position::from_fen("rnb1kbnr/pppp1ppp/8/4p3/6Pq/5P2/PPPPP2P/RNBQKBNR w KQkq - 1 3").unwrap();
    assert_eq!(chess_engine_api::testing::game_over(&mated, 4, 100), Some(chess_engine_api::testing::GameResult::BlackWin));
    let e4 = Move::from_uci("e2e4", &start).unwrap();
    let next = chess_engine_api::testing::game_step(&start, 0, 10, Some(e4)).unwrap();
    assert_eq!(next.to_fen(), "rnbqkbnr/pppppppp/8/8/4P3/8/PPPP1PPP/RNBQKBNR b KQkq e3 0 1");
    let bad = Move::new(12, 36, MoveType::Normal);
    assert_eq!(chess_engine_api::testing::game_step(&start, 0, 10, Some(bad)).err(), Some(chess_engine_api::testing::GameResult::BlackWin));
    assert_eq!(chess_engine_api::testing::game_step(&start, 0, 10, None).err(), Some(chess_engine_api::testing::GameResult::BlackWin));
}

#[test]
fn tournament_turns_follow_the_rules() {
    use_match_turn();
}

fn use_match_turn() {
    let start = Position::startpos();
    let mut history: Vec<u64> = Vec::new();
    let mut count: usize = 0;
    assert_eq!(chess_engine_api::tournament::match_turn(&start, &mut history, &mut count, 100), None);
    assert_eq!(count, 1);
    assert_eq!(history, vec![start.hash]);
    assert_eq!(chess_engine_api::tournament::match_turn(&start, &mut history, &mut count, 100), None);
    assert_eq!(
        chess_engine_api::tournament::match_turn(&start, &mut history, &mut count, 100),
        Some(chess_engine_api::tournament::GameResult::Draw)
    );
    let mut history2: Vec<u64> = Vec::new();
    let mut count2: usize = 5;
    assert_eq!(
        chess_engine_api::tournament::match_turn(&start, &mut history2, &mut count2, 5),
        Some(chess_engine_api::tournament::GameResult::Draw)
    );
    let e4 = Move::from_uci("e2e4", &start).unwrap();
    let next = chess_engine_api::tournament::match_play(&start, Some(e4)).unwrap();
    assert_eq!(next.to_fen(), "rnbqkbnr/pppppppp/8/8/4P3/8/PPPP1PPP/RNBQKBNR b KQkq e3 0 1");
    assert_eq!(
        chess_engine_api::tournament::match_play(&start, None).err(),
        Some(chess_engine_api::tournament::GameResult::BlackWin)
    );
}
