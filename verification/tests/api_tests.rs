use chess_engine_api::api::engine_handlers::{
    analyze_position, evaluate_position, evaluation_description, get_best_move, perft_test,
    EngineAnalysisRequest, EngineMoveRequest, EvaluationRequest, PerftRequest,
};
use chess_engine_api::api::handlers::{
    game_status_to_string, legal_moves, make_move, new_game, parse_color, undo_move, ApiError,
};
use chess_engine_api::api::models::{LegalMovesRequest, MakeMoveRequest, UndoMoveRequest};
use chess_engine_api::chess::board::Board;
use chess_engine_api::chess::game::{Game, GameStatus};
use chess_engine_api::chess::piece::Color;

const START: &str = "rnbqkbnr/pppppppp/8/8/8/8/PPPPPPPP/RNBQKBNR w KQkq - 0 1";

#[test]
fn colors_parse_in_any_case() {
    assert_eq!(parse_color("black"), Color::Black);
    assert_eq!(parse_color("BLACK"), Color::Black);
    assert_eq!(parse_color("White"), Color::White);
    assert_eq!(parse_color("purple"), Color::White);
}

#[test]
fn status_words() {
    assert_eq!(game_status_to_string(&GameStatus::Active), "active");
    assert_eq!(game_status_to_string(&GameStatus::Checkmate), "checkmate");
    assert_eq!(game_status_to_string(&GameStatus::Draw), "draw");
}

#[test]
fn legal_moves_for_a_square() {
    let request = LegalMovesRequest {
        position: Board::new_standard().to_array(),
        square: "b1".to_string(),
        current_player: "white".to_string(),
    };
    let response = legal_moves(request).unwrap();
    assert_eq!(response.moves, vec!["a3".to_string(), "c3".to_string()]);
}

#[test]
fn legal_moves_bad_square() {
    let request = LegalMovesRequest {
        position: Board::new_standard().to_array(),
        square: "z9".to_string(),
        current_player: "white".to_string(),
    };
    assert!(matches!(legal_moves(request), Err(ApiError::BadRequest)));
}

fn move_request(from: &str, to: &str, promotion: Option<&str>) -> MakeMoveRequest {
    MakeMoveRequest {
        position: Board::new_standard().to_array(),
        from: from.to_string(),
        to: to.to_string(),
        current_player: "white".to_string(),
        promotion: promotion.map(|p| p.to_string()),
    }
}

#[test]
fn make_move_through_the_api() {
    let mut game = Game::new();
    let response = make_move(&mut game, move_request("e2", "e4", None)).unwrap();
    assert_eq!(response.move_notation, "e2e4");
    assert_eq!(response.game_status, "active");
    assert!(!response.is_check && !response.is_checkmate && !response.is_draw);
    assert_eq!(response.new_position[4][4], Some('P'));
    assert_eq!(response.new_position[6][4], None);
    assert_eq!(game.current_player, Color::Black);
}

#[test]
fn make_move_refusals_leave_the_game() {
    let mut game = Game::new();
    assert!(matches!(make_move(&mut game, move_request("e3", "e4", None)), Err(ApiError::BadRequest)));
    assert!(matches!(make_move(&mut game, move_request("e2", "e9", None)), Err(ApiError::BadRequest)));
    assert!(matches!(make_move(&mut game, move_request("e2", "e4", Some("k"))), Err(ApiError::BadRequest)));
    assert_eq!(game.move_history.len(), 0);
    assert_eq!(game.current_player, Color::White);
    let response = make_move(&mut game, move_request("e2", "e4", Some("Q"))).unwrap();
    assert_eq!(response.move_notation, "e2e4=q");
}

#[test]
fn new_game_and_undo() {
    let mut game = Game::new();
    make_move(&mut game, move_request("g1", "f3", None)).unwrap();
    make_move(&mut game, move_request("g8", "f6", None)).unwrap();
    let request = UndoMoveRequest { position: game.board.to_array(), move_history: Vec::new() };
    let response = undo_move(&mut game, request).unwrap();
    assert_eq!(response.current_player, "black");
    assert_eq!(response.game_status, "active");
    assert_eq!(response.new_move_history.len(), 1);
    let entry = &response.new_move_history[0];
    assert_eq!(entry.from, "g1");
    assert_eq!(entry.to, "f3");
    assert_eq!(entry.piece, "");
    assert_eq!(entry.notation, "g1f3");
    assert!(entry.capture.is_none() && entry.promotion.is_none());
    assert_eq!(response.new_position[0][6], Some('n'));

    let fresh = new_game(&mut game);
    assert_eq!(fresh.current_player, "white");
    assert_eq!(fresh.game_status, "active");
    assert_eq!(fresh.position, Board::new_standard().to_array());
    let request = UndoMoveRequest { position: fresh.position, move_history: Vec::new() };
    assert!(matches!(undo_move(&mut game, request), Err(ApiError::BadRequest)));
}

#[test]
fn evaluation_words() {
    assert_eq!(evaluation_description(301), "White has a significant advantage");
    assert_eq!(evaluation_description(300), "White has a slight advantage");
    assert_eq!(evaluation_description(0), "Position is roughly equal");
    assert_eq!(evaluation_description(-100), "Black has a slight advantage");
    assert_eq!(evaluation_description(-300), "Black has a significant advantage");
}

#[test]
fn evaluate_the_start() {
    let response = evaluate_position(EvaluationRequest { fen: START.to_string() }).unwrap();
    assert_eq!(response.evaluation, 0);
    assert_eq!(response.description, "Position is roughly equal");
    assert!(matches!(
        evaluate_position(EvaluationRequest { fen: "nonsense".to_string() }),
        Err(ApiError::BadRequest)
    ));
}

#[test]
fn perft_through_the_api() {
    let response = perft_test(PerftRequest { fen: None, depth: 2 }).unwrap();
    assert_eq!(response.nodes, 400);
    let response = perft_test(PerftRequest { fen: Some(START.to_string()), depth: 1 }).unwrap();
    assert_eq!(response.nodes, 20);
    assert!(matches!(perft_test(PerftRequest { fen: Some("x".to_string()), depth: 1 }), Err(ApiError::BadRequest)));
}

#[test]
fn engine_move_and_analysis() {
    let response = get_best_move(EngineMoveRequest { fen: START.to_string(), depth: Some(2), time_ms: None }).unwrap();
    assert_eq!(response.best_move.len(), 4);
    assert!(response.score.is_none());
    let analysis = analyze_position(EngineAnalysisRequest { fen: START.to_string(), depth: 1 }).unwrap();
    assert_eq!(analysis.evaluation, 0);
    assert_eq!(analysis.best_move.len(), 4);
    assert!(matches!(
        get_best_move(EngineMoveRequest { fen: "bad".to_string(), depth: Some(1), time_ms: None }),
        Err(ApiError::BadRequest)
    ));
}
