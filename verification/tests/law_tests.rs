use chess_engine_api::bitboard::Bitboard;
use chess_engine_api::evaluation::Evaluator;
use chess_engine_api::evaluation_v3::EvaluatorV3;
use chess_engine_api::movegen::{Move, MoveGen, MoveType};
use chess_engine_api::opening_book::OpeningBook;
use chess_engine_api::chess::board::{Board, Position as Square};
use chess_engine_api::chess::piece::{Color as PieceColor, Piece, PieceType as Kind};
use chess_engine_api::perft::Perft;
use chess_engine_api::position::{Color, Position};
use chess_engine_api::transposition::{NodeType, TranspositionTable, ZobristKeys};

const KIWIPETE: &str = "r3k2r/p1ppqpb1/bn2pnp1/3PN3/1p2P3/2N2Q1p/PPPBBPPP/R3K2R w KQkq - 0 1";

#[test]
fn engine_fen_read_back() {
    for fen in [
        KIWIPETE,
        "8/2p5/3p4/KP5r/1R3p1k/8/4P1P1/8 w - - 0 1",
        "rnbq1k1r/pp1Pbppp/2p5/8/2B5/8/PPP1NnPP/RNBQK2R w KQ - 1 8",
        "rnbqkbnr/pppp1ppp/8/4p3/4P3/8/PPPP1PPP/RNBQKBNR w KQkq e6 17 2",
    ] {
        let pos = Position::from_fen(fen).unwrap();
        let text = pos.to_fen();
        assert_eq!(text, fen);
        let again = Position::from_fen(&text).unwrap();
        assert_eq!(again.to_fen(), text);
        assert_eq!(again.side_to_move, pos.side_to_move);
        assert_eq!(again.en_passant_square, pos.en_passant_square);
    }
}

#[test]
fn chess_board_fen_read_back() {
    let mut b = Board::new_empty();
    b.set_piece(Square::new(0, 0), Some(Piece::new(Kind::Rook, PieceColor::Black)));
    b.set_piece(Square::new(7, 7), Some(Piece::new(Kind::King, PieceColor::White)));
    b.set_piece(Square::new(3, 4), Some(Piece::new(Kind::Knight, PieceColor::White)));
    let text = b.to_fen();
    assert_eq!(text, "r7/8/8/8/3N4/8/8/7K w KQkq - 0 1");
    assert_eq!(Board::from_fen(&text).unwrap().to_array(), b.to_array());
}

#[test]
fn divide_total_is_perft() {
    let pos = Position::from_fen(KIWIPETE).unwrap();
    let (per_move, total) = Perft::divide(&pos, 2).unwrap();
    assert_eq!(per_move.len(), 48);
    assert_eq!(total, Perft::perft(&pos, 2));
    assert_eq!(total, 2039);
}

#[test]
fn table_read_after_write_and_other_slots() {
    let mut tt = TranspositionTable::new(1);
    tt.store(77, 3, -40, NodeType::LowerBound, None);
    tt.store(78, 2, 10, NodeType::UpperBound, None);
    let e = tt.probe(77).unwrap();
    assert_eq!((e.depth, e.score, e.node_type), (3, -40, NodeType::LowerBound));
    assert!(tt.probe(79).is_none());
    tt.clear();
    assert!(tt.probe(77).is_none());
}

#[test]
fn zobrist_keys_are_reproducible() {
    let a = ZobristKeys::new();
    let b = ZobristKeys::new();
    assert_eq!(a.pieces, b.pieces);
    assert_eq!(a.castling, b.castling);
    assert_eq!(a.side_to_move, b.side_to_move);
    assert_ne!(a.pieces[0][0][0], a.pieces[0][0][1]);
}

#[test]
fn debug_text_of_start() {
    let pos = Position::startpos();
    let text = pos.debug_string();
    assert!(text.starts_with("\n  a b c d e f g h\n8 r n b q k b n r \n7 p p p p p p p p \n6 . . . . . . . . \n"));
    assert!(text.contains("1 R N B Q K B N R \n\nFEN: rnbqkbnr/pppppppp/8/8/8/8/PPPPPPPP/RNBQKBNR w KQkq - 0 1\nHash: "));
    let hash_line = text.lines().last().unwrap();
    assert_eq!(hash_line, format!("Hash: {:016x}", pos.hash));
}

#[test]
fn bitboard_operators_and_picture() {
    let a = Bitboard::from_square(0) | Bitboard::from_square(9);
    assert_eq!(a.0, 0b10_0000_0001);
    assert_eq!((a & Bitboard::from_square(9)).0, 1 << 9);
    assert_eq!((a ^ Bitboard::from_square(0)).0, 1 << 9);
    assert_eq!((!Bitboard(0)).0, u64::MAX);
    assert_eq!((Bitboard::from_square(0) << 8u8).0, 1 << 8);
    assert_eq!((Bitboard::from_square(8) >> 8u8).0, 1);
    assert_eq!(!Color::White, Color::Black);
    let pic = Bitboard::from_square(0).to_string();
    assert_eq!(pic, "\n. . . . . . . . \n. . . . . . . . \n. . . . . . . . \n. . . . . . . . \n. . . . . . . . \n. . . . . . . . \n. . . . . . . . \n1 . . . . . . . \n");
}

#[test]
fn table_move_is_ordered_first() {
    use_table_move_first();
}

fn use_table_move_first() {
    let pos = Position::from_fen(KIWIPETE).unwrap();
    let mut moves = chess_engine_api::movegen::MoveGen::generate_legal_moves(&pos).moves;
    let tt = moves[17];
    let history = [[0i32; 64]; 64];
    let killers: [Option<chess_engine_api::movegen::Move>; 2] = [None, None];
    chess_engine_api::move_ordering::MoveOrdering::order_moves(&pos, &mut moves, Some(tt), &killers, &history);
    assert_eq!(moves[0], tt);
}

#[test]
fn put_piece_is_found_and_others_kept() {
    let mut pos = Position::from_fen("4k3/8/8/8/8/8/8/4K3 w - - 0 1").unwrap();
    assert_eq!(pos.piece_at(27), None);
    pos.put_piece(27, chess_engine_api::position::PieceType::Queen, Color::White);
    assert_eq!(pos.piece_at(27), Some((chess_engine_api::position::PieceType::Queen, Color::White)));
    assert_eq!(pos.piece_at(4), Some((chess_engine_api::position::PieceType::King, Color::White)));
    assert_eq!(pos.piece_at(60), Some((chess_engine_api::position::PieceType::King, Color::Black)));
    assert_eq!(pos.piece_at(28), None);
}

#[test]
fn put_then_remove_restores_the_position() {
    let start = Position::startpos();
    let mut pos = Position::startpos();
    pos.put_piece(27, chess_engine_api::position::PieceType::Queen, Color::White);
    assert_ne!(pos.to_fen(), start.to_fen());
    pos.remove_piece(27, chess_engine_api::position::PieceType::Queen, Color::White);
    assert_eq!(pos.to_fen(), start.to_fen());
    assert_eq!(pos.hash, start.hash);
    assert_eq!(pos.piece_at(27), None);
}

#[test]
fn evaluation_flips_with_the_side_to_move() {
    let w = Position::from_fen("r1bqkbnr/pppp1ppp/2n5/4p3/4P3/5N2/PPPP1PPP/RNBQKB1R w KQkq - 2 3").unwrap();
    let b = Position::from_fen("r1bqkbnr/pppp1ppp/2n5/4p3/4P3/5N2/PPPP1PPP/RNBQKB1R b KQkq - 2 3").unwrap();
    assert_eq!(Evaluator::evaluate(&w), -Evaluator::evaluate(&b));
    assert_eq!(Evaluator::evaluate(&Position::startpos()), 0);
}

#[test]
fn v3_evaluation_of_a_mirrored_position() {
    let p = Position::from_fen("4k3/8/8/8/3PP3/2N5/8/4K3 w - - 0 1").unwrap();
    let m = Position::from_fen("4k3/8/2n5/3pp3/8/8/8/4K3 b - - 0 1").unwrap();
    assert_eq!(EvaluatorV3::evaluate(&p), EvaluatorV3::evaluate(&m));
    assert_ne!(EvaluatorV3::evaluate(&p), 0);
}

#[test]
fn book_answers_from_its_history() {
    let start = Position::startpos();
    let other = Position::from_fen("4k3/8/8/8/8/8/8/4K3 w - - 0 1").unwrap();
    let e4 = Move::new(12, 28, MoveType::DoublePawnPush);
    let d4 = Move::new(11, 27, MoveType::DoublePawnPush);
    let mut book = OpeningBook::new();
    assert_eq!(book.get_move(&start), None);
    book.add_move(&start, e4, 7);
    assert_eq!(book.get_move(&start), Some(e4));
    assert_eq!(book.get_move(&other), None);
    book.add_move(&start, d4, 3);
    let got = book.get_move(&start).unwrap();
    assert!(got == e4 || got == d4);
    book.clear();
    assert_eq!(book.get_move(&start), None);
    book.add_move(&start, d4, 0);
    assert_eq!(book.get_move(&start), Some(d4));
}

#[test]
fn perft_is_the_sum_over_children() {
    let pos = Position::startpos();
    let mut total = 0u64;
    for m in MoveGen::generate_legal_moves(&pos).iter().iter() {
        let mut child = pos;
        child.make_move(*m).unwrap();
        total += Perft::perft(&child, 2);
    }
    assert_eq!(total, Perft::perft(&pos, 3));
    assert_eq!(Perft::perft(&pos, 0), 1);
    assert_eq!(Perft::perft(&pos, 1), MoveGen::generate_legal_moves(&pos).len() as u64);
}
