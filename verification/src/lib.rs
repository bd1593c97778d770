pub mod analysis;
pub mod api;
pub mod architecture;
pub mod attacks;
pub mod bitboard;
pub mod chess;
pub mod clock;
pub mod evaluation;
pub mod evaluation_v3;
pub mod fen;
pub mod fen_roundtrip;
pub mod hashing;
pub mod legal;
pub mod makemove;
pub mod move_ordering;
pub mod movegen;
pub mod opening_book;
pub mod perft;
pub mod pgn;
pub mod position;
pub mod search;
pub mod search_mcts;
pub mod see;
pub mod test_suite;
pub mod testing;
pub mod text;
pub mod time_manager;
pub mod tournament;
pub mod transposition;
pub mod uci;
