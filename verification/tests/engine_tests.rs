use chess_engine_api::bitboard::Bitboard;
use chess_engine_api::movegen::{Move, MoveType};
use chess_engine_api::pgn::PGNGame;
use chess_engine_api::position::{Color, PieceType, Position};
use chess_engine_api::transposition::{NodeType, TranspositionTable};

#[test]
fn test_bitboard_basics() {
    let bb = Bitboard::from_square(0);
    assert_eq!(bb.0, 1);
    assert_eq!(bb.count(), 1);
    assert_eq!(bb.lsb(), 0);

    let bb = Bitboard::from_square(63);
    assert_eq!(bb.count(), 1);
    assert_eq!(bb.lsb(), 63);
}

#[test]
fn test_square_conversion() {
    assert_eq!(Bitboard::square_from_name("e4"), Some(28));
    assert_eq!(Bitboard::square_to_name(28), "e4");
    assert_eq!(Bitboard::square_from_name("a1"), Some(0));
    assert_eq!(Bitboard::square_to_name(0), "a1");
    assert_eq!(Bitboard::square_from_name("h8"), Some(63));
    assert_eq!(Bitboard::square_to_name(63), "h8");
}

#[test]
fn test_shifts() {
    let e4 = Bitboard::from_square(28);
    let e5 = e4.north();
    assert_eq!(e5, Bitboard::from_square(36));

    let e3 = e4.south();
    assert_eq!(e3, Bitboard::from_square(20));

    let f4 = e4.east();
    assert_eq!(f4, Bitboard::from_square(29));

    let d4 = e4.west();
    assert_eq!(d4, Bitboard::from_square(27));
}

#[test]
fn test_mvv_lva_ordering() {
    let pos = Position::from_fen("r3k2r/p1ppqpb1/bn2pnp1/3PN3/1p2P3/2N2Q1p/PPPBBPPP/R3K2R w KQkq - 0 1").unwrap();
    let history = [[0i32; 64]; 64];
    let killers: [Option<Move>; 2] = [None, None];
    let _ = (&pos, &history, &killers);
}

#[test]
fn test_pgn_creation() {
    let mut game = PGNGame::new();
    game.set_header("Event".to_string(), "Test Game".to_string());
    game.set_header("White".to_string(), "Player 1".to_string());
    game.set_header("Black".to_string(), "Player 2".to_string());
    game.add_move("e4".to_string());
    game.add_move("e5".to_string());
    game.result = "1-0".to_string();

    let pgn = game.to_pgn();
    assert!(pgn.contains("[Event \"Test Game\"]"));
    assert!(pgn.contains("e4 e5"));
}

#[test]
fn test_startpos() {
    let pos = Position::startpos();
    assert_eq!(pos.side_to_move, Color::White);
    assert_eq!(pos.piece_bb(PieceType::Pawn, Color::White).count(), 8);
    assert_eq!(pos.piece_bb(PieceType::Pawn, Color::Black).count(), 8);
}

#[test]
fn test_fen_roundtrip() {
    let fen = "rnbqkbnr/pppppppp/8/8/8/8/PPPPPPPP/RNBQKBNR w KQkq - 0 1";
    let pos = Position::from_fen(fen).unwrap();
    assert_eq!(pos.to_fen(), fen);
}

#[test]
fn test_see_simple_capture() {
}

#[test]
fn test_see_exchange() {
}

#[test]
fn test_transposition_table() {
    let mut tt = TranspositionTable::new(1);

    tt.store(0x123456, 10, 100, NodeType::Exact, None);

    let entry = tt.probe(0x123456);
    assert!(entry.is_some());

    let entry = entry.unwrap();
    assert_eq!(entry.depth, 10);
    assert_eq!(entry.score, 100);
    assert_eq!(entry.node_type, NodeType::Exact);
}

#[test]
fn test_replacement_scheme() {
    let mut tt = TranspositionTable::new(1);

    tt.store(0x123456, 5, 50, NodeType::Exact, None);
    tt.store(0x123456, 10, 100, NodeType::Exact, None);

    let entry = tt.probe(0x123456).unwrap();
    assert_eq!(entry.depth, 10);
    assert_eq!(entry.score, 100);
}

#[test]
fn capture_move_type_is_reported() {
    let mv = Move::new(12, 28, MoveType::Normal);
    assert!(!mv.is_capture());
    let cap = Move::new(12, 28, MoveType::Capture);
    assert!(cap.is_capture());
    assert_eq!(Move::new(52, 60, MoveType::PromotionQueen).to_uci(), "e7e8q");
}
