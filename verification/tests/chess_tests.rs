use chess_engine_api::chess::board::{Board, Position};
use chess_engine_api::chess::fen::{from_fen, to_fen};
use chess_engine_api::chess::game::{Game, GameStatus};
use chess_engine_api::chess::moves::{generate_legal_moves, Move, MoveResult};
use chess_engine_api::chess::piece::{Color, Piece, PieceType};

const START_PLACEMENT: &str = "rnbqkbnr/pppppppp/8/8/8/8/PPPPPPPP/RNBQKBNR";

fn names(v: &[Position]) -> Vec<String> {
    v.iter().map(|p| p.to_algebraic()).collect()
}

#[test]
fn algebraic_names_round_trip() {
    let e4 = Position::from_algebraic("e4").unwrap();
    assert_eq!(e4, Position::new(4, 4));
    assert_eq!(e4.to_algebraic(), "e4");
    assert_eq!(Position::from_algebraic("a8"), Some(Position::new(0, 0)));
    assert_eq!(Position::from_algebraic("h1"), Some(Position::new(7, 7)));
    for rank in 0..8 {
        for file in 0..8 {
            let p = Position::new(file, rank);
            assert_eq!(Position::from_algebraic(&p.to_algebraic()), Some(p));
        }
    }
}

#[test]
fn algebraic_names_refused() {
    assert_eq!(Position::from_algebraic("i4"), None);
    assert_eq!(Position::from_algebraic("e9"), None);
    assert_eq!(Position::from_algebraic("e0"), None);
    assert_eq!(Position::from_algebraic("e44"), None);
    assert_eq!(Position::from_algebraic(""), None);
    assert_eq!(Position::from_algebraic("A4"), None);
}

#[test]
fn algebraic_name_off_board_wraps() {
    assert_eq!(Position::new(8, 0).to_algebraic(), "i8");
    assert_eq!(Position::new(0, 9).to_algebraic(), "a255");
}

#[test]
fn standard_board_pieces() {
    let b = Board::new_standard();
    assert_eq!(b.get_piece(Position::new(4, 7)), Some(Piece::new(PieceType::King, Color::White)));
    assert_eq!(b.get_piece(Position::new(3, 0)), Some(Piece::new(PieceType::Queen, Color::Black)));
    assert_eq!(b.get_piece(Position::new(0, 6)), Some(Piece::new(PieceType::Pawn, Color::White)));
    assert_eq!(b.get_piece(Position::new(4, 4)), None);
    assert_eq!(b.get_piece(Position::new(9, 0)), None);
}

#[test]
fn board_fen_written_and_read() {
    let b = Board::new_standard();
    let fen = b.to_fen();
    assert_eq!(fen, format!("{} w KQkq - 0 1", START_PLACEMENT));
    let back = Board::from_fen(&fen).unwrap();
    assert_eq!(back.to_array(), b.to_array());
    assert_eq!(to_fen(&from_fen(&fen).unwrap()), fen);
    let empty = Board::new_empty();
    assert_eq!(empty.to_fen(), "8/8/8/8/8/8/8/8 w KQkq - 0 1");
}

#[test]
fn board_fen_refusals() {
    assert!(Board::from_fen("").is_none());
    assert!(Board::from_fen("8/8/8/8/8/8/8").is_none());
    assert!(Board::from_fen("8/8/8/8/8/8/8/7").is_none());
    assert!(Board::from_fen("8/8/8/8/8/8/8/9").is_none());
    assert!(Board::from_fen("8/8/8/8/8/8/8/ppppppppp").is_none());
    assert!(Board::from_fen("8/8/8/8/8/8/8/7x").is_none());
    assert!(Board::from_fen("8/8/8/8/8/8/8/4k3").is_some());
}

#[test]
fn set_and_clear_pieces() {
    let mut b = Board::new_empty();
    let q = Piece::new(PieceType::Queen, Color::White);
    b.set_piece(Position::new(3, 4), Some(q));
    assert_eq!(b.get_piece(Position::new(3, 4)), Some(q));
    b.set_piece(Position::new(20, 4), Some(q));
    assert_eq!(b.to_fen(), "8/8/8/8/3Q4/8/8/8 w KQkq - 0 1");
    b.set_piece(Position::new(3, 4), None);
    assert_eq!(b.get_piece(Position::new(3, 4)), None);
}

#[test]
fn array_view_both_ways() {
    let b = Board::new_standard();
    let a = b.to_array();
    assert_eq!(a[0][4], Some('k'));
    assert_eq!(a[7][3], Some('Q'));
    assert_eq!(a[3][3], None);
    let mut a2 = a;
    a2[3][3] = Some('x');
    let b2 = Board::from_array(a2);
    assert_eq!(b2.get_piece(Position::new(3, 3)), None);
    assert_eq!(b2.to_array(), a);
}

#[test]
fn pawn_moves_from_start() {
    let b = Board::new_standard();
    let moves = generate_legal_moves(&b, Position::from_algebraic("e2").unwrap(), Color::White);
    assert_eq!(names(&moves), vec!["e3", "e4"]);
    let moves = generate_legal_moves(&b, Position::from_algebraic("d7").unwrap(), Color::Black);
    assert_eq!(names(&moves), vec!["d6", "d5"]);
}

#[test]
fn pawn_captures_and_blocks() {
    let b = Board::from_fen("8/8/8/3p1n2/4P3/8/8/8").unwrap();
    let moves = generate_legal_moves(&b, Position::from_algebraic("e4").unwrap(), Color::White);
    assert_eq!(names(&moves), vec!["e5", "d5", "f5"]);
    let b = Board::from_fen("8/8/8/8/8/4n3/4P3/8").unwrap();
    let moves = generate_legal_moves(&b, Position::from_algebraic("e2").unwrap(), Color::White);
    assert!(moves.is_empty());
}

#[test]
fn knight_and_king_steps() {
    let b = Board::new_standard();
    let moves = generate_legal_moves(&b, Position::from_algebraic("g1").unwrap(), Color::White);
    assert_eq!(names(&moves), vec!["f3", "h3"]);
    let moves = generate_legal_moves(&b, Position::from_algebraic("e1").unwrap(), Color::White);
    assert!(moves.is_empty());
    let b = Board::from_fen("8/8/8/8/8/8/8/K7").unwrap();
    let moves = generate_legal_moves(&b, Position::from_algebraic("a1").unwrap(), Color::White);
    assert_eq!(names(&moves), vec!["a2", "b2", "b1"]);
}

#[test]
fn sliding_pieces() {
    let b = Board::from_fen("8/8/8/8/8/8/1p6/R1B4q").unwrap();
    let rook = generate_legal_moves(&b, Position::from_algebraic("a1").unwrap(), Color::White);
    assert_eq!(names(&rook), vec!["b1", "a2", "a3", "a4", "a5", "a6", "a7", "a8"]);
    let bishop = generate_legal_moves(&b, Position::from_algebraic("c1").unwrap(), Color::White);
    assert_eq!(names(&bishop), vec!["b2", "d2", "e3", "f4", "g5", "h6"]);
    let queen = generate_legal_moves(&b, Position::from_algebraic("h1").unwrap(), Color::Black);
    assert_eq!(queen.len(), 7 + 5 + 7);
    assert!(names(&queen).contains(&"c1".to_string()));
}

#[test]
fn empty_square_has_no_moves() {
    let b = Board::new_standard();
    assert!(generate_legal_moves(&b, Position::new(4, 4), Color::White).is_empty());
}

#[test]
fn move_notation() {
    let m = Move::new(Position::new(4, 6), Position::new(4, 4));
    assert_eq!(m.to_algebraic(), "e2e4");
    let p = Move::with_promotion(Position::new(0, 1), Position::new(0, 0), PieceType::Knight);
    assert_eq!(p.to_algebraic(), "a7a8=n");
    let q = Move::with_promotion(Position::new(0, 1), Position::new(0, 0), PieceType::Queen);
    assert_eq!(q.to_algebraic(), "a7a8=q");
}

#[test]
fn game_moves_and_refusals() {
    let mut g = Game::new();
    assert_eq!(g.current_player, Color::White);
    let e2e4 = Move::new(Position::new(4, 6), Position::new(4, 4));
    assert_eq!(g.make_move(&e2e4), Ok(MoveResult::Normal));
    assert_eq!(g.current_player, Color::Black);
    assert_eq!(g.move_history.len(), 1);
    assert_eq!(g.make_move(&e2e4), Err("No piece at source position"));
    let white_again = Move::new(Position::new(3, 6), Position::new(3, 4));
    assert_eq!(g.make_move(&white_again), Err("Not your turn"));
    let own = Move::new(Position::new(0, 0), Position::new(1, 0));
    assert_eq!(g.make_move(&own), Err("Cannot capture your own piece"));
    assert_eq!(g.move_history.len(), 1);
    let d7d5 = Move::new(Position::new(3, 1), Position::new(3, 3));
    assert_eq!(g.make_move(&d7d5), Ok(MoveResult::Normal));
    let exd5 = Move::new(Position::new(4, 4), Position::new(3, 3));
    assert_eq!(g.make_move(&exd5), Ok(MoveResult::Capture(Piece::new(PieceType::Pawn, Color::Black))));
}

#[test]
fn game_promotion_places_new_piece() {
    let mut g = Game::new();
    g.board = Board::from_fen("8/P7/8/8/8/8/8/8").unwrap();
    let m = Move::with_promotion(Position::new(0, 1), Position::new(0, 0), PieceType::Queen);
    assert_eq!(g.make_move(&m), Ok(MoveResult::Normal));
    assert_eq!(g.board.get_piece(Position::new(0, 0)), Some(Piece::new(PieceType::Queen, Color::White)));
}

#[test]
fn undo_quiet_move_restores_board() {
    let mut g = Game::new();
    g.make_move(&Move::new(Position::new(6, 7), Position::new(5, 5))).unwrap();
    let before = g.board.to_array();
    let player = g.current_player;
    g.make_move(&Move::new(Position::new(6, 0), Position::new(5, 2))).unwrap();
    assert_eq!(g.undo_move(), Ok(()));
    assert_eq!(g.board.to_array(), before);
    assert_eq!(g.current_player, player);
    assert_eq!(g.move_history.len(), 1);
    assert_eq!(g.status, GameStatus::Active);
}

#[test]
fn undo_first_move_resets_board_and_empty_history_refused() {
    let mut g = Game::new();
    assert_eq!(g.undo_move(), Err("No moves to undo"));
    g.make_move(&Move::new(Position::new(4, 6), Position::new(4, 4))).unwrap();
    assert_eq!(g.undo_move(), Ok(()));
    assert_eq!(g.board.to_array(), Board::new_standard().to_array());
    assert_eq!(g.current_player, Color::White);
}

#[test]
fn undo_with_empty_target_is_refused_after_turn_passes() {
    let mut g = Game::new();
    g.make_move(&Move::new(Position::new(4, 6), Position::new(4, 4))).unwrap();
    g.make_move(&Move::new(Position::new(4, 1), Position::new(4, 3))).unwrap();
    g.board.set_piece(Position::new(4, 3), None);
    assert_eq!(g.undo_move(), Err("No piece at destination"));
    assert_eq!(g.move_history.len(), 1);
    assert_eq!(g.current_player, Color::Black);
}

#[test]
fn fen_letters_round_trip() {
    for t in [PieceType::Pawn, PieceType::Knight, PieceType::Bishop, PieceType::Rook, PieceType::Queen, PieceType::King] {
        for c in [Color::White, Color::Black] {
            let p = Piece::new(t, c);
            assert_eq!(Piece::from_fen_char(p.to_fen_char()), Some(p));
        }
    }
    assert_eq!(Piece::from_fen_char('x'), None);
    assert_eq!(Color::White.opposite(), Color::Black);
}
