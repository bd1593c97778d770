use vstd::prelude::*;
use crate::bitboard::{Bitboard, name_square, square_name, bit_at, lemma_set_bit, lemma_zero_bits};
use crate::position::{
    Color, PieceType, Position, CastlingRights, piece_of_char, piece_char, color_index,
    piece_index, WHITE_KINGSIDE, WHITE_QUEENSIDE, BLACK_KINGSIDE, BLACK_QUEENSIDE,
};
use crate::text::{
    is_digit, digit_value, ws_fields, sep_split, vecs_hold, parse_u16, dec, str_chars,
    split_whitespace, split_at_char, parse_u16_chars, push_dec, push_str_chars, push_all,
    string_from_chars,
};

verus! {

/// Why a FEN string was refused.
#[derive(Clone, Copy, PartialEq, Eq, Structural, Debug)]
pub enum FenError {
    NotEnoughParts,
    RankCount,
    InvalidPiece(char),
    TooManyFiles,
    /// A rank (counted from the top, from 0) that does not add up to 8 files, and its count.
    RankFiles(u64, u64),
    SideToMove,
    CastlingRight(char),
    EnPassant,
    Halfmove,
    Fullmove,
}

/// A piece placed by a FEN string: square, type, colour.
pub type Placement = (u8, PieceType, Color);

/// The parsed content of a FEN string.
pub type FenData = (Seq<Placement>, Color, u8, Option<u8>, u16, u16);

pub open spec fn sat_add(a: u64, b: int) -> u64 {
    if a + b > u64::MAX {
        u64::MAX
    } else {
        (a + b) as u64
    }
}

/// Upper-case letters are white pieces, anything else black.
pub open spec fn case_color(c: char) -> Color {
    if 'A' <= c <= 'Z' {
        Color::White
    } else {
        Color::Black
    }
}

/// Scan of one rank's text, left to right: the pieces placed so far and the file reached.
pub open spec fn rank_scan(r: Seq<char>, rank: int) -> Result<(Seq<Placement>, u64), FenError>
    decreases r.len(),
{
    if r.len() == 0 {
        Ok((Seq::empty(), 0u64))
    } else {
        match rank_scan(r.drop_last(), rank) {
            Err(e) => Err(e),
            Ok((pl, file)) => {
                let c = r.last();
                if is_digit(c) {
                    Ok((pl, sat_add(file, digit_value(c))))
                } else {
                    match piece_of_char(c) {
                        None => Err(FenError::InvalidPiece(c)),
                        Some(p) => if file >= 8 {
                            Err(FenError::TooManyFiles)
                        } else {
                            Ok((pl.push(((rank * 8 + file) as u8, p, case_color(c))), (file + 1) as u64))
                        },
                    }
                }
            },
        }
    }
}

/// Scan of the first `k` rank texts (rank text `i` is board rank `7 - i`).
pub open spec fn board_scan(ranks: Seq<Seq<char>>, k: int) -> Result<Seq<Placement>, FenError>
    decreases k,
{
    if k <= 0 {
        Ok(Seq::empty())
    } else {
        match board_scan(ranks, k - 1) {
            Err(e) => Err(e),
            Ok(pl) => match rank_scan(ranks[k - 1], 7 - (k - 1)) {
                Err(e) => Err(e),
                Ok((pl2, file)) => if file != 8 {
                    Err(FenError::RankFiles((k - 1) as u64, file))
                } else {
                    Ok(pl + pl2)
                },
            },
        }
    }
}

/// The castling bits named by a castling field other than "-".
pub open spec fn castle_scan(s: Seq<char>) -> Result<u8, FenError>
    decreases s.len(),
{
    if s.len() == 0 {
        Ok(0u8)
    } else {
        match castle_scan(s.drop_last()) {
            Err(e) => Err(e),
            Ok(b) => {
                let c = s.last();
                if c == 'K' {
                    Ok(b | 1u8)
                } else if c == 'Q' {
                    Ok(b | 2u8)
                } else if c == 'k' {
                    Ok(b | 4u8)
                } else if c == 'q' {
                    Ok(b | 8u8)
                } else {
                    Err(FenError::CastlingRight(c))
                }
            },
        }
    }
}

/// What a FEN string describes, or the first thing wrong with it.
pub open spec fn fen_parse(s: Seq<char>) -> Result<FenData, FenError> {
    let parts = ws_fields(s);
    if parts.len() < 4 {
        Err(FenError::NotEnoughParts)
    } else if sep_split(parts[0], '/').len() != 8 {
        Err(FenError::RankCount)
    } else {
        match board_scan(sep_split(parts[0], '/'), 8) {
            Err(e) => Err(e),
            Ok(pl) => if parts[1] != seq!['w'] && parts[1] != seq!['b'] {
                Err(FenError::SideToMove)
            } else {
                let side = if parts[1] == seq!['w'] {
                    Color::White
                } else {
                    Color::Black
                };
                let castle = if parts[2] == seq!['-'] {
                    Ok(0u8)
                } else {
                    castle_scan(parts[2])
                };
                match castle {
                    Err(e) => Err(e),
                    Ok(cb) => if parts[3] != seq!['-'] && name_square(parts[3]).is_none() {
                        Err(FenError::EnPassant)
                    } else {
                        let ep = if parts[3] == seq!['-'] {
                            None
                        } else {
                            name_square(parts[3])
                        };
                        if parts.len() > 4 && parse_u16(parts[4]).is_none() {
                            Err(FenError::Halfmove)
                        } else if parts.len() > 5 && parse_u16(parts[5]).is_none() {
                            Err(FenError::Fullmove)
                        } else {
                            let half = if parts.len() > 4 {
                                parse_u16(parts[4]).unwrap()
                            } else {
                                0u16
                            };
                            let full = if parts.len() > 5 {
                                parse_u16(parts[5]).unwrap()
                            } else {
                                1u16
                            };
                            Ok((pl, side, cb, ep, half, full))
                        }
                    },
                }
            },
        }
    }
}

/// Union of the squares placed with colour `c` and type `p`.
pub open spec fn bits_of(pl: Seq<Placement>, c: Color, p: PieceType) -> u64
    decreases pl.len(),
{
    if pl.len() == 0 {
        0u64
    } else {
        let prev = bits_of(pl.drop_last(), c, p);
        let (sq, p2, c2) = pl.last();
        if p2 == p && c2 == c {
            prev | (1u64 << sq)
        } else {
            prev
        }
    }
}

/// Union of the squares placed with colour `c`.
pub open spec fn color_bits_of(pl: Seq<Placement>, c: Color) -> u64
    decreases pl.len(),
{
    if pl.len() == 0 {
        0u64
    } else {
        let prev = color_bits_of(pl.drop_last(), c);
        let (sq, _p2, c2) = pl.last();
        if c2 == c {
            prev | (1u64 << sq)
        } else {
            prev
        }
    }
}

/// Union of all placed squares.
pub open spec fn all_bits_of(pl: Seq<Placement>) -> u64
    decreases pl.len(),
{
    if pl.len() == 0 {
        0u64
    } else {
        all_bits_of(pl.drop_last()) | (1u64 << pl.last().0)
    }
}

/// Whether every placement is on the board.
pub open spec fn on_board(pl: Seq<Placement>) -> bool {
    forall|j: int| 0 <= j < pl.len() ==> (#[trigger] pl[j]).0 < 64
}

/// Whether `pos` holds exactly the pieces `pl` places, and the rest of the FEN fields.
pub open spec fn holds_fen(pos: Position, d: FenData) -> bool {
    let (pl, side, cb, ep, half, full) = d;
    &&& forall|c: Color, p: PieceType| #[trigger] pos.bb(c, p) == bits_of(pl, c, p)
    &&& forall|c: Color| #[trigger] pos.cbb(c) == color_bits_of(pl, c)
    &&& pos.occupied.0 == all_bits_of(pl)
    &&& pos.side_to_move == side
    &&& pos.castling_rights.bits() == cb
    &&& pos.en_passant_square == ep
    &&& pos.halfmove_clock == half
    &&& pos.fullmove_number == full
}


/// No two placements share a square, and every square is in `lo..hi`.
pub open spec fn placed_within(pl: Seq<Placement>, lo: int, hi: int) -> bool {
    &&& forall|i: int| 0 <= i < pl.len() ==> lo <= (#[trigger] pl[i]).0 < hi
    &&& forall|i: int, j: int| 0 <= i < j < pl.len() ==> (#[trigger] pl[i]).0 != (#[trigger] pl[j]).0
}

proof fn lemma_rank_scan_shape(r: Seq<char>, rank: int)
    requires
        0 <= rank < 8,
    ensures
        rank_scan(r, rank) matches Ok((pl, file)) ==> {
            &&& forall|i: int| 0 <= i < pl.len() ==> rank * 8 <= (#[trigger] pl[i]).0 < rank * 8 + file
                && (pl[i].0 as int) < rank * 8 + 8
            &&& forall|i: int, j: int| 0 <= i < j < pl.len() ==> (#[trigger] pl[i]).0 < (#[trigger] pl[j]).0
        },
    decreases r.len(),
{
    if r.len() > 0 {
        lemma_rank_scan_shape(r.drop_last(), rank);
    }
}

proof fn lemma_board_scan_shape(ranks: Seq<Seq<char>>, k: int)
    requires
        k <= 8,
    ensures
        board_scan(ranks, k) matches Ok(pl) ==> placed_within(pl, if k <= 0 { 64 } else { 8 * (8 - k) }, 64),
    decreases k,
{
    if k > 0 {
        lemma_board_scan_shape(ranks, k - 1);
        if let Ok(pl) = board_scan(ranks, k - 1) {
            lemma_rank_scan_shape(ranks[k - 1], 7 - (k - 1));
            if let Ok((pl2, file)) = rank_scan(ranks[k - 1], 7 - (k - 1)) {
                if file == 8 {
                    let all = pl + pl2;
                    let lo_prev = if k - 1 <= 0 { 64 } else { 8 * (8 - (k - 1)) };
                    assert forall|i: int| 0 <= i < all.len() implies 8 * (8 - k) <= (#[trigger] all[i]).0 < 64 by {
                        if i < pl.len() {
                            assert(all[i] == pl[i]);
                        } else {
                            assert(all[i] == pl2[i - pl.len()]);
                        }
                    }
                    assert forall|i: int, j: int| 0 <= i < j < all.len() implies (#[trigger] all[i]).0 != (#[trigger] all[j]).0 by {
                        if j < pl.len() {
                            assert(all[i] == pl[i] && all[j] == pl[j]);
                        } else if i >= pl.len() {
                            assert(all[i] == pl2[i - pl.len()] && all[j] == pl2[j - pl.len()]);
                        } else {
                            assert(all[i] == pl[i] && all[j] == pl2[j - pl.len()]);
                            assert(lo_prev <= all[i].0);
                        }
                    }
                }
            }
        }
    }
}

proof fn lemma_castle_scan_small(t: Seq<char>)
    ensures
        castle_scan(t) matches Ok(b) ==> b <= 15,
    decreases t.len(),
{
    if t.len() > 0 {
        lemma_castle_scan_small(t.drop_last());
        if let Ok(b) = castle_scan(t.drop_last()) {
            assert(b <= 15 ==> (b | 1u8) <= 15 && (b | 2u8) <= 15 && (b | 4u8) <= 15 && (b | 8u8) <= 15) by (bit_vector);
        }
    }
}

/// A set bit of the union of placed squares belongs to one placement.
proof fn lemma_bits_of_placed(pl: Seq<Placement>, c: Color, t: PieceType, s: int)
    requires
        forall|i: int| 0 <= i < pl.len() ==> (#[trigger] pl[i]).0 < 64,
    ensures
        bit_at(bits_of(pl, c, t), s) ==> exists|i: int| 0 <= i < pl.len() && #[trigger] pl[i] == (s as u8, t, c) && s == pl[i].0,
    decreases pl.len(),
{
    if pl.len() == 0 {
        lemma_zero_bits();
    } else {
        let prev = pl.drop_last();
        assert forall|i: int| 0 <= i < prev.len() implies (#[trigger] prev[i]).0 < 64 by {
            assert(prev[i] == pl[i]);
        }
        lemma_bits_of_placed(prev, c, t, s);
        let (sq, p2, c2) = pl.last();
        assert(pl[pl.len() - 1].0 < 64);
        if p2 == t && c2 == c {
            lemma_set_bit(bits_of(prev, c, t), sq);
        }
        if bit_at(bits_of(prev, c, t), s) {
            let i = choose|i: int| 0 <= i < prev.len() && #[trigger] prev[i] == (s as u8, t, c) && s == prev[i].0;
            assert(pl[i] == prev[i]);
        } else if bit_at(bits_of(pl, c, t), s) {
            assert(pl[pl.len() - 1] == (s as u8, t, c));
        }
    }
}

/// What a FEN read gives: castling bits within the four rights, an en passant square on the
/// board, and placements on distinct squares of the board.
pub proof fn lemma_fen_parse_shape(s: Seq<char>)
    ensures
        fen_parse(s) matches Ok(d) ==> {
            &&& d.2 <= 15
            &&& (d.3 matches Some(e) ==> e < 64)
            &&& placed_within(d.0, 0, 64)
        },
{
    let parts = ws_fields(s);
    if parts.len() >= 4 && sep_split(parts[0], '/').len() == 8 {
        lemma_board_scan_shape(sep_split(parts[0], '/'), 8);
        lemma_castle_scan_small(parts[2]);
    }
}

/// The piece boards of a position read from a FEN are pairwise disjoint.
pub proof fn lemma_fen_boards_disjoint(p: Position, d: FenData)
    requires
        holds_fen(p, d),
        placed_within(d.0, 0, 64),
    ensures
        p.disjoint_boards(),
{
    let pl = d.0;
    assert forall|c1: Color, t1: PieceType, c2: Color, t2: PieceType, s: int|
        bit_at(p.bb(c1, t1), s) && bit_at(p.bb(c2, t2), s) implies c1 == c2 && t1 == t2 by {
        lemma_bits_of_placed(pl, c1, t1, s);
        lemma_bits_of_placed(pl, c2, t2, s);
        let i = choose|i: int| 0 <= i < pl.len() && #[trigger] pl[i] == (s as u8, t1, c1) && s == pl[i].0;
        let j = choose|j: int| 0 <= j < pl.len() && #[trigger] pl[j] == (s as u8, t2, c2) && s == pl[j].0;
        if i < j {
            assert(pl[i].0 != pl[j].0);
        } else if j < i {
            assert(pl[j].0 != pl[i].0);
        }
    }
}

/// The position a FEN's fields describe, with its hash computed from them.
pub open spec fn fen_position(d: FenData) -> Position {
    choose|p: Position| holds_fen(p, d) && p.hash == p.hash_of()
}

/// The fields of a FEN and a computed hash determine the position.
pub proof fn lemma_fen_position_unique(d: FenData)
    ensures
        forall|p: Position| #[trigger] holds_fen(p, d) && p.hash == p.hash_of() ==> p == fen_position(d),
{
    assert forall|p: Position| #[trigger] holds_fen(p, d) && p.hash == p.hash_of() implies p == fen_position(d) by {
        let q = fen_position(d);
        assert(holds_fen(q, d) && q.hash == q.hash_of());
        lemma_same_fields(p, q);
    }
}

/// Two positions that agree on every board and field, and whose hashes are computed, are equal.
proof fn lemma_same_fields(p: Position, q: Position)
    requires
        forall|c: Color, t: PieceType| #[trigger] p.bb(c, t) == q.bb(c, t),
        forall|c: Color| #[trigger] p.cbb(c) == q.cbb(c),
        p.occupied.0 == q.occupied.0,
        p.side_to_move == q.side_to_move,
        p.castling_rights.bits() == q.castling_rights.bits(),
        p.en_passant_square == q.en_passant_square,
        p.halfmove_clock == q.halfmove_clock,
        p.fullmove_number == q.fullmove_number,
        p.hash == p.hash_of(),
        q.hash == q.hash_of(),
    ensures
        p == q,
{
    let cs = seq![Color::White, Color::Black];
    let ts = seq![PieceType::Pawn, PieceType::Knight, PieceType::Bishop, PieceType::Rook, PieceType::Queen, PieceType::King];
    assert forall|i: int, j: int| 0 <= i < 2 && 0 <= j < 6 implies p.pieces[i][j] == q.pieces[i][j] by {
        assert(p.bb(cs[i], ts[j]) == q.bb(cs[i], ts[j]));
    }
    assert(p.pieces[0] =~= q.pieces[0]);
    assert(p.pieces[1] =~= q.pieces[1]);
    assert(p.pieces =~= q.pieces);
    assert(p.cbb(Color::White) == q.cbb(Color::White));
    assert(p.cbb(Color::Black) == q.cbb(Color::Black));
    assert(p.occupied_by_color =~= q.occupied_by_color);
    CastlingRights::lemma_bits_eq(p.castling_rights, q.castling_rights);
    assert(p.board_words() =~= q.board_words());
}

/// Text of one rank from `file` on, with `empty` empty squares pending before it.
pub open spec fn rank_text_from(pos: Position, rank: int, file: int, empty: nat) -> Seq<char>
    decreases 8 - file,
{
    if file >= 8 {
        if empty > 0 {
            dec(empty)
        } else {
            Seq::empty()
        }
    } else {
        match pos.piece_on(rank * 8 + file) {
            Some((p, c)) => (if empty > 0 {
                dec(empty)
            } else {
                Seq::empty()
            }).push(piece_char(p, c)) + rank_text_from(pos, rank, file + 1, 0),
            None => rank_text_from(pos, rank, file + 1, empty + 1),
        }
    }
}

/// FEN text of the top `k` ranks (rank 8 first), each but rank 1 followed by '/'.
pub open spec fn placement_prefix(pos: Position, k: int) -> Seq<char>
    decreases k,
{
    if k <= 0 {
        Seq::empty()
    } else {
        let r = 8 - k;
        placement_prefix(pos, k - 1) + rank_text_from(pos, r, 0, 0) + (if r > 0 {
            seq!['/']
        } else {
            Seq::empty()
        })
    }
}

/// FEN text of the castling bits: the letters KQkq present, or '-' for none.
pub open spec fn castling_text(b: u8) -> Seq<char> {
    let t = (if b & 1u8 != 0 {
        seq!['K']
    } else {
        Seq::empty()
    }) + (if b & 2u8 != 0 {
        seq!['Q']
    } else {
        Seq::empty()
    }) + (if b & 4u8 != 0 {
        seq!['k']
    } else {
        Seq::empty()
    }) + (if b & 8u8 != 0 {
        seq!['q']
    } else {
        Seq::empty()
    });
    if t.len() == 0 {
        seq!['-']
    } else {
        t
    }
}

/// The FEN text of a position.
pub open spec fn fen_text(pos: Position) -> Seq<char> {
    placement_prefix(pos, 8) + seq![' ', if pos.side_to_move == Color::White {
        'w'
    } else {
        'b'
    }, ' '] + castling_text(pos.castling_rights.bits()) + seq![' '] + (match pos.en_passant_square {
        Some(sq) => square_name(sq),
        None => seq!['-'],
    }) + seq![' '] + dec(pos.halfmove_clock as nat) + seq![' '] + dec(pos.fullmove_number as nat)
}

/// The message `Position::from_fen` gives for each refusal.
pub open spec fn fen_error_text(e: FenError) -> Seq<char> {
    match e {
        FenError::NotEnoughParts => "Invalid FEN: not enough parts"@,
        FenError::RankCount => "Invalid FEN: must have 8 ranks"@,
        FenError::InvalidPiece(c) => "Invalid piece character: "@.push(c),
        FenError::TooManyFiles => "Invalid FEN: too many files"@,
        FenError::RankFiles(i, f) => "Invalid FEN: rank "@ + dec(i as nat) + " has "@ + dec(
            f as nat,
        ) + " files, expected 8"@,
        FenError::SideToMove => "Invalid FEN: invalid side to move"@,
        FenError::CastlingRight(c) => "Invalid castling right: "@.push(c),
        FenError::EnPassant => "Invalid en passant square"@,
        FenError::Halfmove => "Invalid halfmove clock"@,
        FenError::Fullmove => "Invalid fullmove number"@,
    }
}

/// The text of one refusal.
pub fn fen_error_message(e: FenError) -> (r: String)
    ensures
        r@ == fen_error_text(e),
{
    let mut v: Vec<char> = Vec::new();
    match e {
        FenError::NotEnoughParts => push_str_chars(&mut v, "Invalid FEN: not enough parts"),
        FenError::RankCount => push_str_chars(&mut v, "Invalid FEN: must have 8 ranks"),
        FenError::InvalidPiece(c) => {
            push_str_chars(&mut v, "Invalid piece character: ");
            v.push(c);
        },
        FenError::TooManyFiles => push_str_chars(&mut v, "Invalid FEN: too many files"),
        FenError::RankFiles(i, f) => {
            push_str_chars(&mut v, "Invalid FEN: rank ");
            push_dec(&mut v, i);
            push_str_chars(&mut v, " has ");
            push_dec(&mut v, f);
            push_str_chars(&mut v, " files, expected 8");
        },
        FenError::SideToMove => push_str_chars(&mut v, "Invalid FEN: invalid side to move"),
        FenError::CastlingRight(c) => {
            push_str_chars(&mut v, "Invalid castling right: ");
            v.push(c);
        },
        FenError::EnPassant => push_str_chars(&mut v, "Invalid en passant square"),
        FenError::Halfmove => push_str_chars(&mut v, "Invalid halfmove clock"),
        FenError::Fullmove => push_str_chars(&mut v, "Invalid fullmove number"),
    }
    proof {
        assert(v@ =~= fen_error_text(e));
    }
    string_from_chars(&v)
}

proof fn lemma_rank_scan_on_board(r: Seq<char>, rank: int)
    requires
        0 <= rank < 8,
    ensures
        rank_scan(r, rank) matches Ok((pl, f)) ==> on_board(pl),
    decreases r.len(),
{
    if r.len() > 0 {
        lemma_rank_scan_on_board(r.drop_last(), rank);
    }
}

proof fn lemma_board_scan_on_board(ranks: Seq<Seq<char>>, k: int)
    requires
        k <= 8,
    ensures
        board_scan(ranks, k) matches Ok(pl) ==> on_board(pl),
    decreases k,
{
    if k > 0 {
        lemma_board_scan_on_board(ranks, k - 1);
        lemma_rank_scan_on_board(ranks[k - 1], 7 - (k - 1));
    }
}

/// The colour boards of placed pieces are the unions of their piece boards, and the
/// occupancy is the union of both colours.
/// A new square may join any one of six unions.
proof fn lemma_or_regroup(a0: u64, a1: u64, a2: u64, a3: u64, a4: u64, a5: u64, b: u64)
    ensures
        (a0 | b) | a1 | a2 | a3 | a4 | a5 == (a0 | a1 | a2 | a3 | a4 | a5) | b,
        a0 | (a1 | b) | a2 | a3 | a4 | a5 == (a0 | a1 | a2 | a3 | a4 | a5) | b,
        a0 | a1 | (a2 | b) | a3 | a4 | a5 == (a0 | a1 | a2 | a3 | a4 | a5) | b,
        a0 | a1 | a2 | (a3 | b) | a4 | a5 == (a0 | a1 | a2 | a3 | a4 | a5) | b,
        a0 | a1 | a2 | a3 | (a4 | b) | a5 == (a0 | a1 | a2 | a3 | a4 | a5) | b,
        a0 | a1 | a2 | a3 | a4 | (a5 | b) == (a0 | a1 | a2 | a3 | a4 | a5) | b,
        (a0 | b) | a1 == (a0 | a1) | b,
        a0 | (a1 | b) == (a0 | a1) | b,
        0u64 | 0u64 | 0u64 | 0u64 | 0u64 | 0u64 == 0u64,
        0u64 | 0u64 == 0u64,
{
    assert((a0 | b) | a1 | a2 | a3 | a4 | a5 == (a0 | a1 | a2 | a3 | a4 | a5) | b
        && a0 | (a1 | b) | a2 | a3 | a4 | a5 == (a0 | a1 | a2 | a3 | a4 | a5) | b
        && a0 | a1 | (a2 | b) | a3 | a4 | a5 == (a0 | a1 | a2 | a3 | a4 | a5) | b
        && a0 | a1 | a2 | (a3 | b) | a4 | a5 == (a0 | a1 | a2 | a3 | a4 | a5) | b
        && a0 | a1 | a2 | a3 | (a4 | b) | a5 == (a0 | a1 | a2 | a3 | a4 | a5) | b
        && a0 | a1 | a2 | a3 | a4 | (a5 | b) == (a0 | a1 | a2 | a3 | a4 | a5) | b
        && (a0 | b) | a1 == (a0 | a1) | b && a0 | (a1 | b) == (a0 | a1) | b
        && 0u64 | 0u64 | 0u64 | 0u64 | 0u64 | 0u64 == 0u64 && 0u64 | 0u64 == 0u64) by (bit_vector);
}

pub proof fn lemma_placements_wf(pl: Seq<Placement>)
    ensures
        forall|c: Color|
            #![trigger color_bits_of(pl, c)]
            color_bits_of(pl, c) == bits_of(pl, c, PieceType::Pawn) | bits_of(pl, c, PieceType::Knight)
                | bits_of(pl, c, PieceType::Bishop) | bits_of(pl, c, PieceType::Rook) | bits_of(
                pl,
                c,
                PieceType::Queen,
            ) | bits_of(pl, c, PieceType::King),
        all_bits_of(pl) == color_bits_of(pl, Color::White) | color_bits_of(pl, Color::Black),
    decreases pl.len(),
{
    if pl.len() > 0 {
        let q = pl.drop_last();
        lemma_placements_wf(q);
        let x = pl.last();
        let b = 1u64 << x.0;
        assert forall|c2: Color|
            #![trigger color_bits_of(pl, c2)]
            color_bits_of(pl, c2) == bits_of(pl, c2, PieceType::Pawn) | bits_of(
                pl,
                c2,
                PieceType::Knight,
            ) | bits_of(pl, c2, PieceType::Bishop) | bits_of(pl, c2, PieceType::Rook) | bits_of(
                pl,
                c2,
                PieceType::Queen,
            ) | bits_of(pl, c2, PieceType::King) by {
            let a0 = bits_of(q, c2, PieceType::Pawn);
            let a1 = bits_of(q, c2, PieceType::Knight);
            let a2 = bits_of(q, c2, PieceType::Bishop);
            let a3 = bits_of(q, c2, PieceType::Rook);
            let a4 = bits_of(q, c2, PieceType::Queen);
            let a5 = bits_of(q, c2, PieceType::King);
            assert(color_bits_of(q, c2) == a0 | a1 | a2 | a3 | a4 | a5);
            if x.2 == c2 {
                assert(color_bits_of(pl, c2) == color_bits_of(q, c2) | b);
                lemma_or_regroup(a0, a1, a2, a3, a4, a5, b);
            } else {
                assert(color_bits_of(pl, c2) == color_bits_of(q, c2));
            }
        }
        let w = color_bits_of(q, Color::White);
        let k = color_bits_of(q, Color::Black);
        assert(all_bits_of(pl) == all_bits_of(q) | b);
        if x.2 == Color::White {
            assert(color_bits_of(pl, Color::White) == w | b);
            assert(color_bits_of(pl, Color::Black) == k);
            lemma_or_regroup(w, k, 0, 0, 0, 0, b);
        } else {
            assert(color_bits_of(pl, Color::White) == w);
            assert(color_bits_of(pl, Color::Black) == k | b);
            lemma_or_regroup(w, k, 0, 0, 0, 0, b);
        }
    } else {
        lemma_or_regroup(0, 0, 0, 0, 0, 0, 0);
    }
}

proof fn lemma_rank_scan_err(r: Seq<char>, rank: int, j: int)
    requires
        0 <= j <= r.len(),
        rank_scan(r.subrange(0, j), rank) is Err,
    ensures
        rank_scan(r, rank) == rank_scan(r.subrange(0, j), rank),
    decreases r.len() - j,
{
    if j < r.len() {
        assert(r.subrange(0, j + 1).drop_last() =~= r.subrange(0, j));
        lemma_rank_scan_err(r, rank, j + 1);
    } else {
        assert(r.subrange(0, j) =~= r);
    }
}

proof fn lemma_castle_scan_err(s: Seq<char>, j: int)
    requires
        0 <= j <= s.len(),
        castle_scan(s.subrange(0, j)) is Err,
    ensures
        castle_scan(s) == castle_scan(s.subrange(0, j)),
    decreases s.len() - j,
{
    if j < s.len() {
        assert(s.subrange(0, j + 1).drop_last() =~= s.subrange(0, j));
        lemma_castle_scan_err(s, j + 1);
    } else {
        assert(s.subrange(0, j) =~= s);
    }
}

proof fn lemma_board_scan_err(ranks: Seq<Seq<char>>, k: int, k2: int)
    requires
        0 <= k <= k2,
        board_scan(ranks, k) is Err,
    ensures
        board_scan(ranks, k2) == board_scan(ranks, k),
    decreases k2 - k,
{
    if k < k2 {
        lemma_board_scan_err(ranks, k, k2 - 1);
    }
}

impl Position {
    /// Parse a FEN string into a position, telling why it is refused.
    #[verifier::loop_isolation(false)]
    pub fn parse_fen(fen: &str) -> (r: Result<Position, FenError>)
        ensures
            match fen_parse(fen@) {
                Err(e) => r == Err::<Position, FenError>(e),
                Ok(d) => r is Ok && holds_fen(r->Ok_0, d) && r->Ok_0.wf() && r->Ok_0.hash == r->Ok_0.hash_of(),
            },
    {
        let chars = str_chars(fen);
        let parts = split_whitespace(&chars);
        let ghost sparts = ws_fields(fen@);
        if parts.len() < 4 {
            return Err(FenError::NotEnoughParts);
        }
        let ranks = split_at_char(&parts[0], '/');
        let ghost sranks = sep_split(sparts[0], '/');
        assert(parts@[0]@ == sparts[0]);
        if ranks.len() != 8 {
            return Err(FenError::RankCount);
        }
        let mut pos = Position::empty();
        let ghost mut pl: Seq<Placement> = Seq::empty();
        let mut ri: usize = 0;
        while ri < 8
            invariant
                ri <= 8,
                sparts == ws_fields(fen@),
                vecs_hold(parts@, sparts),
                sparts.len() >= 4,
                sranks == sep_split(sparts[0], '/'),
                vecs_hold(ranks@, sranks),
                sranks.len() == 8,
                board_scan(sranks, ri as int) == Ok::<Seq<Placement>, FenError>(pl),
                forall|c: Color, p: PieceType| #[trigger] pos.bb(c, p) == bits_of(pl, c, p),
                forall|c: Color| #[trigger] pos.cbb(c) == color_bits_of(pl, c),
                pos.occupied.0 == all_bits_of(pl),
                pos.side_to_move == Color::White,
                pos.castling_rights.bits() == 0,
                pos.en_passant_square.is_none(),
                pos.halfmove_clock == 0,
                pos.fullmove_number == 1,
            decreases 8 - ri,
        {
            let rank_str = &ranks[ri];
            let rank: u8 = 7 - ri as u8;
            let ghost srank = sranks[ri as int];
            assert(rank_str@ == srank);
            let mut file: u64 = 0;
            let ghost mut pl2: Seq<Placement> = Seq::empty();
            let mut j: usize = 0;
            while j < rank_str.len()
                invariant
                    j <= rank_str@.len(),
                    rank_str@ == srank,
                    srank == sranks[ri as int],
                    sparts == ws_fields(fen@),
                    vecs_hold(parts@, sparts),
                    sparts.len() >= 4,
                    sranks == sep_split(sparts[0], '/'),
                    sranks.len() == 8,
                    board_scan(sranks, ri as int) == Ok::<Seq<Placement>, FenError>(pl),
                    rank == 7 - ri,
                    ri < 8,
                    rank_scan(srank.subrange(0, j as int), rank as int) == Ok::<
                        (Seq<Placement>, u64),
                        FenError,
                    >((pl2, file)),
                    forall|c: Color, p: PieceType| #[trigger] pos.bb(c, p) == bits_of(pl + pl2, c, p),
                    forall|c: Color| #[trigger] pos.cbb(c) == color_bits_of(pl + pl2, c),
                    pos.occupied.0 == all_bits_of(pl + pl2),
                    pos.side_to_move == Color::White,
                    pos.castling_rights.bits() == 0,
                    pos.en_passant_square.is_none(),
                    pos.halfmove_clock == 0,
                    pos.fullmove_number == 1,
                decreases rank_str@.len() - j,
            {
                let c = rank_str[j];
                proof {
                    assert(srank.subrange(0, j + 1).drop_last() =~= srank.subrange(0, j as int));
                    assert(srank.subrange(0, j + 1).last() == c);
                }
                if '0' <= c && c <= '9' {
                    let d = (c as u32 - 48) as u64;
                    if file > u64::MAX - d {
                        file = u64::MAX;
                    } else {
                        file = file + d;
                    }
                } else {
                    let color = if 'A' <= c && c <= 'Z' {
                        Color::White
                    } else {
                        Color::Black
                    };
                    let pt = match PieceType::from_char(c) {
                        Some(p) => p,
                        None => {
                            proof {
                                lemma_rank_scan_err(srank, rank as int, j + 1);
                                lemma_board_scan_err(sranks, ri + 1, 8);
                            }
                            return Err(FenError::InvalidPiece(c));
                        },
                    };
                    if file >= 8 {
                        proof {
                            lemma_rank_scan_err(srank, rank as int, j + 1);
                            lemma_board_scan_err(sranks, ri + 1, 8);
                        }
                        return Err(FenError::TooManyFiles);
                    }
                    let square = Bitboard::square_from_coords(file as u8, rank);
                    let ghost before = pos;
                    pos.put_piece(square, pt, color);
                    proof {
                        let x: Placement = (square, pt, color);
                        assert((pl + pl2.push(x)).drop_last() =~= pl + pl2);
                        assert((pl + pl2.push(x)).last() == x);
                        pl2 = pl2.push(x);
                    }
                    file = file + 1;
                }
                j = j + 1;
            }
            proof {
                assert(srank.subrange(0, j as int) =~= srank);
            }
            if file != 8 {
                proof {
                    lemma_board_scan_err(sranks, ri + 1, 8);
                }
                return Err(FenError::RankFiles(ri as u64, file));
            }
            proof {
                pl = pl + pl2;
            }
            ri = ri + 1;
        }
        proof {
            lemma_placements_wf(pl);
        }
        // Side to move
        let p1 = &parts[1];
        assert(p1@ == sparts[1]);
        let side = if p1.len() == 1 && p1[0] == 'w' {
            assert(p1@ =~= seq!['w']);
            Color::White
        } else if p1.len() == 1 && p1[0] == 'b' {
            assert(p1@ =~= seq!['b']);
            Color::Black
        } else {
            assert(p1@ != seq!['w']);
            assert(p1@ != seq!['b']);
            return Err(FenError::SideToMove);
        };
        // Castling rights
        let p2 = &parts[2];
        assert(p2@ == sparts[2]);
        let mut cr = CastlingRights::new(0);
        if !(p2.len() == 1 && p2[0] == '-') {
            assert(p2@ != seq!['-']);
            let mut k: usize = 0;
            while k < p2.len()
                invariant
                    k <= p2@.len(),
                    castle_scan(p2@.subrange(0, k as int)) == Ok::<u8, FenError>(cr.bits()),
                decreases p2@.len() - k,
            {
                let c = p2[k];
                proof {
                    assert(p2@.subrange(0, k + 1).drop_last() =~= p2@.subrange(0, k as int));
                    assert(p2@.subrange(0, k + 1).last() == c);
                }
                if c == 'K' {
                    cr.add(WHITE_KINGSIDE);
                } else if c == 'Q' {
                    cr.add(WHITE_QUEENSIDE);
                } else if c == 'k' {
                    cr.add(BLACK_KINGSIDE);
                } else if c == 'q' {
                    cr.add(BLACK_QUEENSIDE);
                } else {
                    proof {
                        lemma_castle_scan_err(p2@, k + 1);
                    }
                    return Err(FenError::CastlingRight(c));
                }
                k = k + 1;
            }
            assert(p2@.subrange(0, k as int) =~= p2@);
        } else {
            assert(p2@ =~= seq!['-']);
        }
        // En passant square
        let p3 = &parts[3];
        assert(p3@ == sparts[3]);
        let mut ep: Option<u8> = None;
        if !(p3.len() == 1 && p3[0] == '-') {
            assert(p3@ != seq!['-']);
            let name = string_from_chars(p3);
            let sq = Bitboard::square_from_name(name.as_str());
            if sq.is_none() {
                return Err(FenError::EnPassant);
            }
            ep = sq;
        } else {
            assert(p3@ =~= seq!['-']);
        }
        // Halfmove clock
        let mut half: u16 = 0;
        if parts.len() > 4 {
            assert(parts@[4]@ == sparts[4]);
            match parse_u16_chars(&parts[4]) {
                Some(v) => half = v,
                None => return Err(FenError::Halfmove),
            }
        }
        // Fullmove number
        let mut full: u16 = 1;
        if parts.len() > 5 {
            assert(parts@[5]@ == sparts[5]);
            match parse_u16_chars(&parts[5]) {
                Some(v) => full = v,
                None => return Err(FenError::Fullmove),
            }
        }
        let ghost p0 = pos;
        pos.side_to_move = side;
        pos.castling_rights = cr;
        pos.en_passant_square = ep;
        pos.halfmove_clock = half;
        pos.fullmove_number = full;
        pos.update_hash();
        proof {
            assert forall|c: Color, p: PieceType| #[trigger] pos.bb(c, p) == p0.bb(c, p) by {}
            assert forall|c: Color| #[trigger] pos.cbb(c) == p0.cbb(c) by {}
        }
        Ok(pos)
    }

    fn push_rank(&self, fen: &mut Vec<char>, rank: u8)
        requires
            rank < 8,
        ensures
            final(fen)@ == old(fen)@ + rank_text_from(*self, rank as int, 0, 0),
    {
        let mut empty: u64 = 0;
        let mut file: u8 = 0;
        while file < 8
            invariant
                file <= 8,
                rank < 8,
                empty <= file,
                fen@ + rank_text_from(*self, rank as int, file as int, empty as nat) == old(fen)@
                    + rank_text_from(*self, rank as int, 0, 0),
            decreases 8 - file,
        {
            let square = Bitboard::square_from_coords(file, rank);
            match self.piece_at(square) {
                Some((piece_type, color)) => {
                    let ghost before = fen@;
                    let ghost e0 = empty;
                    if empty > 0 {
                        push_dec(fen, empty);
                        empty = 0;
                    }
                    fen.push(piece_type.to_char(color));
                    proof {
                        assert(fen@ + rank_text_from(*self, rank as int, file + 1, 0) =~= before
                            + rank_text_from(*self, rank as int, file as int, e0 as nat));
                    }
                },
                None => {
                    empty = empty + 1;
                },
            }
            file = file + 1;
        }
        if empty > 0 {
            push_dec(fen, empty);
        }
        proof {
            assert(fen@ =~= old(fen)@ + rank_text_from(*self, rank as int, 0, 0));
        }
    }

    fn push_castling(&self, fen: &mut Vec<char>)
        ensures
            final(fen)@ == old(fen)@ + castling_text(self.castling_rights.bits()),
    {
        let mut has_castling = false;
        if self.castling_rights.has(WHITE_KINGSIDE) {
            fen.push('K');
            has_castling = true;
        }
        if self.castling_rights.has(WHITE_QUEENSIDE) {
            fen.push('Q');
            has_castling = true;
        }
        if self.castling_rights.has(BLACK_KINGSIDE) {
            fen.push('k');
            has_castling = true;
        }
        if self.castling_rights.has(BLACK_QUEENSIDE) {
            fen.push('q');
            has_castling = true;
        }
        if !has_castling {
            fen.push('-');
        }
        assert(fen@ =~= old(fen)@ + castling_text(self.castling_rights.bits()));
    }

    /// Convert the position to a FEN string.
    pub fn to_fen(&self) -> (r: String)
        ensures
            r@ == fen_text(*self),
    {
        let mut fen: Vec<char> = Vec::new();
        let mut rank: u8 = 8;
        while rank > 0
            invariant
                rank <= 8,
                fen@ == placement_prefix(*self, 8 - rank),
            decreases rank,
        {
            rank = rank - 1;
            self.push_rank(&mut fen, rank);
            if rank > 0 {
                fen.push('/');
            }
            proof {
                assert(fen@ =~= placement_prefix(*self, 8 - rank));
            }
        }
        let ghost p0 = fen@;
        fen.push(' ');
        fen.push(match self.side_to_move {
            Color::White => 'w',
            Color::Black => 'b',
        });
        fen.push(' ');
        self.push_castling(&mut fen);
        fen.push(' ');
        let ghost p1 = fen@;
        match self.en_passant_square {
            Some(sq) => {
                let name = Bitboard::square_to_name(sq);
                push_str_chars(&mut fen, name.as_str());
            },
            None => fen.push('-'),
        }
        fen.push(' ');
        let ghost p2 = fen@;
        push_dec(&mut fen, self.halfmove_clock as u64);
        fen.push(' ');
        push_dec(&mut fen, self.fullmove_number as u64);
        proof {
            let side = if self.side_to_move == Color::White { 'w' } else { 'b' };
            let eps = match self.en_passant_square {
                Some(sq) => square_name(sq),
                None => seq!['-'],
            };
            assert(p1 =~= p0 + seq![' ', side, ' '] + castling_text(self.castling_rights.bits()) + seq![' ']);
            assert(p2 =~= p1 + eps + seq![' ']);
            assert(fen@ =~= p2 + dec(self.halfmove_clock as nat) + seq![' '] + dec(self.fullmove_number as nat));
        }
        string_from_chars(&fen)
    }

    /// Parse a FEN string into a position.
    pub fn from_fen(fen: &str) -> (r: Result<Position, String>)
        ensures
            match fen_parse(fen@) {
                Err(e) => r is Err && r->Err_0@ == fen_error_text(e),
                Ok(d) => r is Ok && holds_fen(r->Ok_0, d) && r->Ok_0.wf() && r->Ok_0 == fen_position(d),
            },
            r matches Ok(p) ==> {
                &&& p.disjoint_boards()
                &&& p.castling_rights.bits() <= 15
                &&& (p.en_passant_square matches Some(e) ==> e < 64)
                &&& p.hash == p.hash_of()
            },
    {
        proof {
            lemma_fen_parse_shape(fen@);
            if let Ok(d) = fen_parse(fen@) {
                lemma_fen_position_unique(d);
            }
        }
        match Self::parse_fen(fen) {
            Ok(p) => {
                proof {
                    lemma_fen_boards_disjoint(p, fen_parse(fen@)->Ok_0);
                }
                Ok(p)
            },
            Err(e) => Err(fen_error_message(e)),
        }
    }
}


/// The character of a hexadecimal digit 0..15, lower case.
pub open spec fn hex_char(d: int) -> char {
    if d < 10 {
        ((48 + d) as u32) as char
    } else {
        ((87 + d) as u32) as char
    }
}

/// The last `n` hexadecimal digits of `h`, most significant first, zero padded.
pub open spec fn hex_digits(h: nat, n: nat) -> Seq<char>
    decreases n,
{
    if n == 0 {
        Seq::empty()
    } else {
        hex_digits(h / 16, (n - 1) as nat).push(hex_char((h % 16) as int))
    }
}

/// One row of the diagram from `file` on: each square's piece letter or '.', each followed by a
/// space.
pub open spec fn diagram_cells(pos: Position, rank: int, file: int) -> Seq<char>
    decreases 8 - file,
{
    if file >= 8 {
        Seq::empty()
    } else {
        seq![
            match pos.piece_on(rank * 8 + file) {
                Some((p, c)) => piece_char(p, c),
                None => '.',
            },
            ' ',
        ] + diagram_cells(pos, rank, file + 1)
    }
}

/// The top `k` rows of the diagram, rank 8 first, each with its number in front.
pub open spec fn diagram_rows(pos: Position, k: int) -> Seq<char>
    decreases k,
{
    if k <= 0 {
        Seq::empty()
    } else {
        let rank = 8 - k;
        diagram_rows(pos, k - 1) + dec((rank + 1) as nat) + seq![' '] + diagram_cells(pos, rank, 0)
            + seq!['\n']
    }
}

/// The debug text of a position: a board diagram with file letters, then its FEN and its hash
/// in sixteen hexadecimal digits.
pub open spec fn debug_text(pos: Position) -> Seq<char> {
    "\n  a b c d e f g h\n"@ + diagram_rows(pos, 8) + "\nFEN: "@ + fen_text(pos) + "\nHash: "@
        + hex_digits(pos.hash as nat, 16) + "\n"@
}

fn push_hex(out: &mut Vec<char>, h: u64, n: u8)
    ensures
        final(out)@ == old(out)@ + hex_digits(h as nat, n as nat),
    decreases n,
{
    if n > 0 {
        push_hex(out, h / 16, n - 1);
        let d = h % 16;
        let c = if d < 10 {
            crate::text::ascii_char((48 + d) as u8)
        } else {
            crate::text::ascii_char((87 + d) as u8)
        };
        out.push(c);
        assert(out@ =~= old(out)@ + hex_digits(h as nat, n as nat));
    }
}

impl Position {
    fn push_diagram_row(&self, out: &mut Vec<char>, rank: u8)
        requires
            rank < 8,
        ensures
            final(out)@ == old(out)@ + diagram_cells(*self, rank as int, 0),
    {
        let mut file: u8 = 0;
        while file < 8
            invariant
                file <= 8,
                rank < 8,
                out@ + diagram_cells(*self, rank as int, file as int) == old(out)@ + diagram_cells(
                    *self,
                    rank as int,
                    0,
                ),
            decreases 8 - file,
        {
            let ghost before = out@;
            let square = Bitboard::square_from_coords(file, rank);
            match self.piece_at(square) {
                Some((piece_type, color)) => out.push(piece_type.to_char(color)),
                None => out.push('.'),
            }
            out.push(' ');
            assert(out@ + diagram_cells(*self, rank as int, file + 1) =~= before + diagram_cells(
                *self,
                rank as int,
                file as int,
            ));
            file = file + 1;
        }
        assert(out@ =~= old(out)@ + diagram_cells(*self, rank as int, 0));
    }

    /// The position's debug text: the board from rank 8 down with file letters on top, then its
    /// FEN and its hash.
    pub fn debug_string(&self) -> (r: String)
        ensures
            r@ == debug_text(*self),
    {
        let mut out: Vec<char> = Vec::new();
        push_str_chars(&mut out, "\n  a b c d e f g h\n");
        let ghost head = out@;
        let mut k: u8 = 0;
        while k < 8
            invariant
                k <= 8,
                out@ == head + diagram_rows(*self, k as int),
            decreases 8 - k,
        {
            let rank: u8 = 7 - k;
            push_dec(&mut out, rank as u64 + 1);
            out.push(' ');
            self.push_diagram_row(&mut out, rank);
            out.push('\n');
            k = k + 1;
            assert(out@ =~= head + diagram_rows(*self, k as int));
        }
        let ghost body = out@;
        push_str_chars(&mut out, "\nFEN: ");
        let fen = self.to_fen();
        push_str_chars(&mut out, fen.as_str());
        push_str_chars(&mut out, "\nHash: ");
        push_hex(&mut out, self.hash, 16);
        push_str_chars(&mut out, "\n");
        assert(out@ =~= debug_text(*self));
        string_from_chars(&out)
    }
}

/// The positions a FEN string is read as: those holding its parsed fields, well formed.
pub open spec fn reads_as(fen: Seq<char>, p: Position) -> bool {
    fen_parse(fen) matches Ok(d) && holds_fen(p, d) && p.wf()
}

/// A parsed en passant square is on the board.
pub proof fn lemma_fen_ep_on_board(s: Seq<char>)
    ensures
        fen_parse(s) matches Ok(d) ==> (d.3 matches Some(e) ==> e < 64),
{
}

} // verus!
