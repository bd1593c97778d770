use chess_engine_api::api::engine_handlers::move_request_limits;
use chess_engine_api::makemove::move_is_safe;
use chess_engine_api::movegen::{Move, MoveGen};
use chess_engine_api::pgn::PGNParser;
use chess_engine_api::position::{Color, Position};
use chess_engine_api::test_suite::suite_search_limits;
use chess_engine_api::testing::EngineConfig;
use chess_engine_api::tournament::{
    match_search_limits, v1_move, EngineType, GameResult, Tournament,
};

fn legal_uci(pos: &Position, uci: &str) -> Move {
    Move::from_uci(uci, pos).expect("legal move")
}

#[test]
fn tournament_starts_empty() {
    let t = Tournament::new();
    assert!(t.results().is_empty());
}

#[test]
fn tournament_game_drawn_at_move_limit_zero() {
    let mut t = Tournament::new();
    let mut game = Tournament::start_game(EngineType::V1, EngineType::V2);
    assert_eq!(game.move_count, 0);
    let r = t.turn(&mut game, 0);
    assert_eq!(r, Some(GameResult::Draw));
    assert_eq!(t.results().len(), 1);
    let rec = &t.results()[0];
    assert_eq!(rec.white, EngineType::V1);
    assert_eq!(rec.black, EngineType::V2);
    assert_eq!(rec.result, GameResult::Draw);
    assert_eq!(rec.moves, 1);
    assert!(rec.opening_moves.is_empty());
}

#[test]
fn tournament_moves_are_played_and_noted() {
    let mut t = Tournament::new();
    let mut game = Tournament::start_game(EngineType::V1, EngineType::V1);
    assert_eq!(t.turn(&mut game, 100), None);
    assert_eq!(game.history.len(), 1);
    let e4 = legal_uci(&game.position, "e2e4");
    assert!(move_is_safe(&game.position, e4));
    assert_eq!(t.answer(&mut game, Some(e4)), None);
    assert_eq!(game.opening_moves, vec!["e2e4".to_string()]);
    assert_eq!(game.position.side_to_move, Color::Black);
    assert!(t.results().is_empty());
    assert_eq!(t.turn(&mut game, 100), None);
    assert_eq!(game.move_count, 2);
    // Black answers nothing and loses.
    assert_eq!(t.answer(&mut game, None), Some(GameResult::WhiteWin));
    assert_eq!(t.results().len(), 1);
    let rec = &t.results()[0];
    assert_eq!(rec.result, GameResult::WhiteWin);
    assert_eq!(rec.moves, 2);
    assert_eq!(rec.opening_moves, vec!["e2e4".to_string()]);
}

#[test]
fn tournament_mate_is_recorded_as_a_loss() {
    let mut t = Tournament::new();
    let mut game = Tournament::start_game(EngineType::V1, EngineType::V1);
    for uci in ["f2f3", "e7e5", "g2g4", "d8h4"] {
        assert_eq!(t.turn(&mut game, 100), None);
        let mv = legal_uci(&game.position, uci);
        assert_eq!(t.answer(&mut game, Some(mv)), None);
    }
    assert_eq!(t.turn(&mut game, 100), Some(GameResult::BlackWin));
    let rec = &t.results()[0];
    assert_eq!(rec.moves, 5);
    assert_eq!(rec.opening_moves.len(), 4);
    assert_eq!(rec.opening_moves[3], "d8h4");
}

#[test]
fn move_from_off_the_board_is_not_safe() {
    let pos = Position::startpos();
    let mut mv = legal_uci(&pos, "e2e4");
    mv.from = 64;
    assert!(!move_is_safe(&pos, mv));
}

#[test]
fn v1_answers_a_legal_move() {
    let pos = Position::startpos();
    let mv = v1_move(&pos, 2, 5000).expect("a move");
    assert!(MoveGen::generate_legal_moves(&pos).moves.contains(&mv));
}

#[test]
fn search_limits_of_each_caller() {
    let l = match_search_limits(5, 2000);
    assert_eq!(l.max_depth, Some(5));
    assert_eq!(l.max_time_ms, Some(2000));
    assert_eq!(l.max_nodes, None);
    assert!(!l.infinite);
    let s = suite_search_limits(7);
    assert_eq!(s.max_depth, Some(7));
    assert_eq!(s.max_time_ms, Some(10_000));
    assert_eq!(s.max_nodes, None);
    let m = move_request_limits(None, Some(250));
    assert_eq!(m.max_depth, Some(10));
    assert_eq!(m.max_time_ms, Some(250));
    let m2 = move_request_limits(Some(3), None);
    assert_eq!(m2.max_depth, Some(3));
    assert_eq!(m2.max_time_ms, None);
    let mut c = EngineConfig::new("c".to_string(), 4);
    c.time_per_move_ms = 300;
    let cl = c.move_limits();
    assert_eq!(cl.max_depth, Some(4));
    assert_eq!(cl.max_time_ms, Some(300));
    assert_eq!(cl.max_nodes, None);
}

#[test]
fn pgn_from_no_positions_has_tags_only() {
    let game = PGNParser::from_positions(&[]);
    assert!(game.moves.is_empty());
    assert_eq!(game.result, "*");
    assert_eq!(game.get_header("Event"), Some(&"Computer Game".to_string()));
}

#[test]
fn v1_searches_while_the_move_counter_has_room() {
    let mut pos = Position::startpos();
    pos.fullmove_number = 65470;
    assert!(v1_move(&pos, 1, 5000).is_some());
    pos.fullmove_number = 65471;
    assert!(v1_move(&pos, 1, 5000).is_none());
}

#[test]
fn standings_count_each_side() {
    let mut t = Tournament::new();
    let mut game = Tournament::start_game(EngineType::V1, EngineType::V2);
    assert_eq!(t.turn(&mut game, 0), Some(GameResult::Draw));
    let mut game = Tournament::start_game(EngineType::V2, EngineType::V1);
    assert_eq!(t.turn(&mut game, 5), None);
    assert_eq!(t.answer(&mut game, None), Some(GameResult::BlackWin));
    assert_eq!(t.standing(EngineType::V1), (1, 1, 0));
    assert_eq!(t.standing(EngineType::V2), (0, 1, 1));
    assert_eq!(t.standing(EngineType::V3), (0, 0, 0));
}
