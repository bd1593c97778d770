use vstd::prelude::*;
use crate::bitboard::{
    bit_at, square_name, name_square, lemma_set_bit, lemma_or_bits, lemma_bits_ext, lemma_zero_bits,
};
use crate::fen::{
    FenError, Placement, rank_scan, board_scan, castle_scan, fen_parse, fen_text, holds_fen,
    rank_text_from, placement_prefix, castling_text, case_color, sat_add, bits_of, color_bits_of,
    all_bits_of, lemma_placements_wf,
};
use crate::position::{Color, PieceType, Position, piece_char, piece_of_char, piece_letter, upper};
use crate::text::{
    dec, digit_char, digit_value, digits_value, all_digits, is_digit, is_ws, parse_u16, ws_scan,
    ws_fields, sep_scan, sep_split, lemma_ws_scan_plain, lemma_ws_scan_concat, lemma_sep_scan_plain,
    lemma_sep_scan_concat,
};

verus! {

/// A position that FEN writes faithfully: well formed, at most one piece on a square, castling
/// rights among the four flags, and the en passant square on the board.
pub open spec fn fen_writable(pos: Position) -> bool {
    &&& pos.wf()
    &&& forall|c1: Color, t1: PieceType, c2: Color, t2: PieceType, s: int|
        #![trigger bit_at(pos.bb(c1, t1), s), bit_at(pos.bb(c2, t2), s)]
        bit_at(pos.bb(c1, t1), s) && bit_at(pos.bb(c2, t2), s) ==> c1 == c2 && t1 == t2
    &&& pos.castling_rights.bits() < 16
    &&& pos.en_passant_square matches Some(e) ==> e < 64
}

/// A character that is neither white space nor '/'.
pub open spec fn plain(c: char) -> bool {
    !is_ws(c) && c != '/'
}

/// Text made of plain characters.
pub open spec fn plain_text(t: Seq<char>) -> bool {
    forall|i: int| 0 <= i < t.len() ==> plain(#[trigger] t[i])
}

proof fn lemma_digit_char(d: int)
    requires
        0 <= d <= 9,
    ensures
        is_digit(digit_char(d)),
        digit_value(digit_char(d)) == d,
        plain(digit_char(d)),
        digit_char(d) != '+',
        digit_char(d) != '-',
{
}

proof fn lemma_letter(p: PieceType, c: Color)
    ensures
        !is_digit(piece_char(p, c)),
        plain(piece_char(p, c)),
        piece_of_char(piece_char(p, c)) == Some(p),
        case_color(piece_char(p, c)) == c,
{
}

/// The decimal text of a number reads back as the number.
proof fn lemma_dec_reads(n: nat)
    ensures
        dec(n).len() > 0,
        all_digits(dec(n)),
        digits_value(dec(n)) == n,
        plain_text(dec(n)),
        dec(n)[0] != '+',
        dec(n) != seq!['-'],
    decreases n,
{
    if n < 10 {
        lemma_digit_char(n as int);
        assert(dec(n).drop_last() =~= Seq::<char>::empty());
        assert(digits_value(dec(n)) == digits_value(dec(n).drop_last()) * 10 + digit_value(
            dec(n).last(),
        ));
    } else {
        lemma_dec_reads(n / 10);
        lemma_digit_char((n % 10) as int);
        let d = dec(n / 10);
        assert(dec(n) == d.push(digit_char((n % 10) as int)));
        assert(dec(n).drop_last() =~= d);
        assert(digits_value(dec(n)) == digits_value(d) * 10 + digit_value(dec(n).last()));
        assert((n / 10) * 10 + n % 10 == n);
        assert forall|j: int| 0 <= j < dec(n).len() implies is_digit(#[trigger] dec(n)[j]) by {
            if j < d.len() {
                assert(dec(n)[j] == d[j]);
            }
        }
        assert forall|j: int| 0 <= j < dec(n).len() implies plain(#[trigger] dec(n)[j]) by {
            if j < d.len() {
                assert(dec(n)[j] == d[j]);
            }
        }
        assert(dec(n)[0] == d[0]);
    }
}

/// A 16-bit number's decimal text parses back as the number.
proof fn lemma_parse_dec(n: u16)
    ensures
        parse_u16(dec(n as nat)) == Some(n),
{
    lemma_dec_reads(n as nat);
}

// ---------------------------------------------------------------------------------------------
// Ranks.

/// Reading a rank's characters on from a scan state.
pub open spec fn rank_scan_from(
    st: Result<(Seq<Placement>, u64), FenError>,
    r: Seq<char>,
    rank: int,
) -> Result<(Seq<Placement>, u64), FenError>
    decreases r.len(),
{
    if r.len() == 0 {
        st
    } else {
        match rank_scan_from(st, r.drop_last(), rank) {
            Err(e) => Err(e),
            Ok((pl, file)) => {
                let c = r.last();
                if is_digit(c) {
                    Ok((pl, sat_add(file, digit_value(c))))
                } else {
                    match piece_of_char(c) {
                        None => Err(FenError::InvalidPiece(c)),
                        Some(p) => if file >= 8 {
                            Err(FenError::TooManyFiles)
                        } else {
                            Ok((pl.push(((rank * 8 + file) as u8, p, case_color(c))), (file + 1) as u64))
                        },
                    }
                }
            },
        }
    }
}

proof fn lemma_rank_scan_is_from(r: Seq<char>, rank: int)
    ensures
        rank_scan(r, rank) == rank_scan_from(Ok((Seq::<Placement>::empty(), 0u64)), r, rank),
    decreases r.len(),
{
    if r.len() > 0 {
        lemma_rank_scan_is_from(r.drop_last(), rank);
    }
}

proof fn lemma_rank_scan_concat(
    st: Result<(Seq<Placement>, u64), FenError>,
    a: Seq<char>,
    b: Seq<char>,
    rank: int,
)
    ensures
        rank_scan_from(st, a + b, rank) == rank_scan_from(rank_scan_from(st, a, rank), b, rank),
    decreases b.len(),
{
    if b.len() == 0 {
        assert(a + b =~= a);
    } else {
        lemma_rank_scan_concat(st, a, b.drop_last(), rank);
        assert((a + b).drop_last() =~= a + b.drop_last());
        assert((a + b).last() == b.last());
    }
}

/// The pieces of the first `k` files of a rank, in file order.
pub open spec fn rank_pl(pos: Position, rank: int, k: int) -> Seq<Placement>
    decreases k,
{
    if k <= 0 {
        Seq::empty()
    } else {
        rank_pl(pos, rank, k - 1) + match pos.piece_on(rank * 8 + k - 1) {
            Some((t, c)) => seq![((rank * 8 + k - 1) as u8, t, c)],
            None => Seq::empty(),
        }
    }
}

proof fn lemma_rank_pl_skip(pos: Position, rank: int, a: int, b: int)
    requires
        0 <= a <= b,
        forall|i: int| a <= i < b ==> #[trigger] pos.piece_on(rank * 8 + i) is None,
    ensures
        rank_pl(pos, rank, a) == rank_pl(pos, rank, b),
    decreases b - a,
{
    if a < b {
        lemma_rank_pl_skip(pos, rank, a, b - 1);
        assert(pos.piece_on(rank * 8 + b - 1) is None);
        assert(rank_pl(pos, rank, b) =~= rank_pl(pos, rank, b - 1));
    }
}

/// Reading a rank's text from `file`, with `e` empty files pending, collects the rank's pieces.
proof fn lemma_scan_rank_text(pos: Position, rank: int, f: int, e: nat)
    requires
        0 <= rank < 8,
        0 <= e <= f <= 8,
        forall|i: int| f - e <= i < f ==> #[trigger] pos.piece_on(rank * 8 + i) is None,
    ensures
        rank_scan_from(
            Ok((rank_pl(pos, rank, f - e), (f - e) as u64)),
            rank_text_from(pos, rank, f, e),
            rank,
        ) == Ok::<(Seq<Placement>, u64), FenError>((rank_pl(pos, rank, 8), 8u64)),
        plain_text(rank_text_from(pos, rank, f, e)),
    decreases 8 - f,
{
    let st = Ok((rank_pl(pos, rank, f - e), (f - e) as u64));
    let t = rank_text_from(pos, rank, f, e);
    let d: Seq<char> = if e > 0 {
        dec(e)
    } else {
        Seq::empty()
    };
    let st1 = Ok::<(Seq<Placement>, u64), FenError>((rank_pl(pos, rank, f), f as u64));
    assert(rank_scan_from(st, d, rank) == st1 && plain_text(d)) by {
        lemma_rank_pl_skip(pos, rank, f - e, f);
        if e > 0 {
            lemma_digit_char(e as int);
            assert(dec(e) == seq![digit_char(e as int)]);
            assert(d.drop_last() =~= Seq::<char>::empty());
            assert(rank_scan_from(st, d.drop_last(), rank) == st);
            assert(d.last() == digit_char(e as int));
        } else {
            assert(d =~= Seq::<char>::empty());
        }
    }
    if f >= 8 {
        assert(t == d);
    } else {
        match pos.piece_on(rank * 8 + f) {
            Some((p, c)) => {
                lemma_letter(p, c);
                let ch = piece_char(p, c);
                let rest = rank_text_from(pos, rank, f + 1, 0);
                assert(t == d.push(ch) + rest);
                lemma_rank_scan_concat(st, d.push(ch), rest, rank);
                assert(d.push(ch).drop_last() =~= d);
                assert(d.push(ch).last() == ch);
                assert(rank_pl(pos, rank, f + 1) =~= rank_pl(pos, rank, f).push(
                    ((rank * 8 + f) as u8, p, c),
                ));
                assert(rank_scan_from(st, d.push(ch), rank) == Ok::<(Seq<Placement>, u64), FenError>(
                    (rank_pl(pos, rank, f + 1), (f + 1) as u64),
                ));
                lemma_scan_rank_text(pos, rank, f + 1, 0);
                assert forall|i: int| 0 <= i < t.len() implies plain(#[trigger] t[i]) by {
                    if i < d.len() {
                        assert(t[i] == d[i]);
                    } else if i == d.len() {
                        assert(t[i] == ch);
                    } else {
                        assert(t[i] == rest[i - d.len() - 1]);
                    }
                }
            },
            None => {
                lemma_scan_rank_text(pos, rank, f + 1, e + 1);
                assert(t == rank_text_from(pos, rank, f + 1, e + 1));
            },
        }
    }
}

/// A rank's FEN text reads back as the rank's pieces, in file order.
proof fn lemma_rank_reads(pos: Position, rank: int)
    requires
        0 <= rank < 8,
    ensures
        rank_scan(rank_text_from(pos, rank, 0, 0), rank) == Ok::<(Seq<Placement>, u64), FenError>(
            (rank_pl(pos, rank, 8), 8u64),
        ),
        plain_text(rank_text_from(pos, rank, 0, 0)),
{
    lemma_scan_rank_text(pos, rank, 0, 0);
    lemma_rank_scan_is_from(rank_text_from(pos, rank, 0, 0), rank);
    assert(rank_pl(pos, rank, 0) =~= Seq::<Placement>::empty());
}

// ---------------------------------------------------------------------------------------------
// The placement field.

/// The rank texts of the placement field, rank 8 first.
pub open spec fn rank_texts(pos: Position, k: int) -> Seq<Seq<char>> {
    Seq::new(k as nat, |i: int| rank_text_from(pos, 7 - i, 0, 0))
}

proof fn lemma_prefix_split(pos: Position, k: int)
    requires
        0 <= k <= 7,
    ensures
        sep_scan(placement_prefix(pos, k), '/') == (rank_texts(pos, k), Seq::<char>::empty()),
        forall|i: int| 0 <= i < placement_prefix(pos, k).len() ==> !is_ws(
            #[trigger] placement_prefix(pos, k)[i],
        ),
    decreases k,
{
    if k == 0 {
        assert(rank_texts(pos, 0) =~= Seq::<Seq<char>>::empty());
    } else {
        lemma_prefix_split(pos, k - 1);
        let a = placement_prefix(pos, k - 1);
        let r = 8 - k;
        let rt = rank_text_from(pos, r, 0, 0);
        lemma_rank_reads(pos, r);
        assert forall|i: int| 0 <= i < rt.len() implies #[trigger] rt[i] != '/' by {
            assert(plain(rt[i]));
        }
        let b = rt.push('/');
        assert(placement_prefix(pos, k) == a + b) by {
            assert(a + rt + seq!['/'] =~= a + b);
        }
        lemma_sep_scan_plain(rt, '/');
        assert(b.drop_last() =~= rt);
        lemma_sep_scan_concat(a, b, '/');
        assert(rank_texts(pos, k - 1) + seq![rt] =~= rank_texts(pos, k));
        assert forall|i: int| 0 <= i < placement_prefix(pos, k).len() implies !is_ws(
            #[trigger] placement_prefix(pos, k)[i],
        ) by {
            if i < a.len() {
                assert(placement_prefix(pos, k)[i] == a[i]);
            } else if i < a.len() + rt.len() {
                assert(placement_prefix(pos, k)[i] == rt[i - a.len()]);
                assert(plain(rt[i - a.len()]));
            } else {
                assert(placement_prefix(pos, k)[i] == '/');
            }
        }
    }
}

/// The placement field splits into the eight rank texts and holds no white space.
proof fn lemma_placement_split(pos: Position)
    ensures
        sep_split(placement_prefix(pos, 8), '/') == rank_texts(pos, 8),
        plain_ws_free(placement_prefix(pos, 8)),
        placement_prefix(pos, 8).len() > 0,
{
    lemma_prefix_split(pos, 7);
    let a = placement_prefix(pos, 7);
    let rt = rank_text_from(pos, 0, 0, 0);
    lemma_rank_reads(pos, 0);
    assert forall|i: int| 0 <= i < rt.len() implies #[trigger] rt[i] != '/' by {
        assert(plain(rt[i]));
    }
    let p = placement_prefix(pos, 8);
    assert(p =~= a + rt);
    lemma_sep_scan_plain(rt, '/');
    lemma_sep_scan_concat(a, rt, '/');
    assert(sep_split(p, '/') =~= rank_texts(pos, 8));
    assert forall|i: int| 0 <= i < p.len() implies !is_ws(#[trigger] p[i]) by {
        if i < a.len() {
            assert(p[i] == a[i]);
        } else {
            assert(p[i] == rt[i - a.len()]);
            assert(plain(rt[i - a.len()]));
        }
    }
    assert(p.len() > 0) by {
        if a.len() == 0 {
            assert(a =~= Seq::<char>::empty());
            assert(sep_scan(a, '/').0.len() == 0);
        }
    }
}

/// Text without white space.
pub open spec fn plain_ws_free(t: Seq<char>) -> bool {
    forall|i: int| 0 <= i < t.len() ==> !is_ws(#[trigger] t[i])
}

/// The pieces of the top `k` ranks, rank 8 first, each rank in file order.
pub open spec fn board_pl(pos: Position, k: int) -> Seq<Placement>
    decreases k,
{
    if k <= 0 {
        Seq::empty()
    } else {
        board_pl(pos, k - 1) + rank_pl(pos, 7 - (k - 1), 8)
    }
}

proof fn lemma_board_scan(pos: Position, k: int)
    requires
        0 <= k <= 8,
    ensures
        board_scan(rank_texts(pos, 8), k) == Ok::<Seq<Placement>, FenError>(board_pl(pos, k)),
    decreases k,
{
    if k > 0 {
        lemma_board_scan(pos, k - 1);
        lemma_rank_reads(pos, 7 - (k - 1));
    }
}

// ---------------------------------------------------------------------------------------------
// Squares of the placements.

proof fn lemma_bits_rank(pos: Position, base: Seq<Placement>, rank: int, k: int, c: Color, t: PieceType)
    requires
        0 <= rank < 8,
        0 <= k <= 8,
    ensures
        forall|s: int|
            #[trigger] bit_at(bits_of(base + rank_pl(pos, rank, k), c, t), s) <==> (bit_at(
                bits_of(base, c, t),
                s,
            ) || (rank * 8 <= s < rank * 8 + k && pos.piece_on(s) == Some((t, c)))),
    decreases k,
{
    if k == 0 {
        assert(base + rank_pl(pos, rank, 0) =~= base);
    } else {
        lemma_bits_rank(pos, base, rank, k - 1, c, t);
        let y = base + rank_pl(pos, rank, k - 1);
        let q = rank * 8 + k - 1;
        match pos.piece_on(q) {
            Some((t2, c2)) => {
                let x: Placement = (q as u8, t2, c2);
                assert(base + rank_pl(pos, rank, k) =~= y.push(x));
                assert((y.push(x)).drop_last() =~= y);
                lemma_set_bit(bits_of(y, c, t), q as u8);
            },
            None => {
                assert(base + rank_pl(pos, rank, k) =~= y);
            },
        }
    }
}

proof fn lemma_bits_board(pos: Position, k: int, c: Color, t: PieceType)
    requires
        0 <= k <= 8,
    ensures
        forall|s: int|
            #[trigger] bit_at(bits_of(board_pl(pos, k), c, t), s) <==> (8 * (8 - k) <= s < 64
                && pos.piece_on(s) == Some((t, c))),
    decreases k,
{
    if k == 0 {
        lemma_zero_bits();
    } else {
        lemma_bits_board(pos, k - 1, c, t);
        lemma_bits_rank(pos, board_pl(pos, k - 1), 7 - (k - 1), 8, c, t);
    }
}

/// On a writable position, a square holds a piece exactly when that piece's board has it.
proof fn lemma_piece_on_bits(pos: Position, s: int, c: Color, t: PieceType)
    requires
        fen_writable(pos),
        0 <= s < 64,
    ensures
        pos.piece_on(s) == Some((t, c)) <==> bit_at(pos.bb(c, t), s),
{
    let w = Color::White;
    let k = Color::Black;
    assert forall|cc: Color| #[trigger] bit_at(pos.cbb(cc), s) <==> (bit_at(pos.bb(cc, PieceType::Pawn), s)
        || bit_at(pos.bb(cc, PieceType::Knight), s) || bit_at(pos.bb(cc, PieceType::Bishop), s)
        || bit_at(pos.bb(cc, PieceType::Rook), s) || bit_at(pos.bb(cc, PieceType::Queen), s)
        || bit_at(pos.bb(cc, PieceType::King), s)) by {
        let b0 = pos.bb(cc, PieceType::Pawn);
        let b1 = pos.bb(cc, PieceType::Knight);
        let b2 = pos.bb(cc, PieceType::Bishop);
        let b3 = pos.bb(cc, PieceType::Rook);
        let b4 = pos.bb(cc, PieceType::Queen);
        let b5 = pos.bb(cc, PieceType::King);
        lemma_or_bits(b0, b1);
        lemma_or_bits(b0 | b1, b2);
        lemma_or_bits(b0 | b1 | b2, b3);
        lemma_or_bits(b0 | b1 | b2 | b3, b4);
        lemma_or_bits(b0 | b1 | b2 | b3 | b4, b5);
        assert(pos.cbb(cc) == b0 | b1 | b2 | b3 | b4 | b5);
    }
    if bit_at(pos.bb(c, t), s) {
        assert forall|c2: Color, t2: PieceType| #[trigger] bit_at(pos.bb(c2, t2), s) implies c2 == c
            && t2 == t by {}
        assert(bit_at(pos.cbb(c), s));
        if c == k {
            assert(!bit_at(pos.cbb(w), s)) by {
                if bit_at(pos.bb(w, PieceType::Pawn), s) {
                } else if bit_at(pos.bb(w, PieceType::Knight), s) {
                } else if bit_at(pos.bb(w, PieceType::Bishop), s) {
                } else if bit_at(pos.bb(w, PieceType::Rook), s) {
                } else if bit_at(pos.bb(w, PieceType::Queen), s) {
                } else if bit_at(pos.bb(w, PieceType::King), s) {
                }
            }
        }
        assert(pos.type_on(c, s) == Some(t));
    }
}

/// On a writable position, the placements FEN lists give back every piece board.
proof fn lemma_board_bits(pos: Position)
    requires
        fen_writable(pos),
    ensures
        forall|c: Color, t: PieceType| #[trigger] pos.bb(c, t) == bits_of(board_pl(pos, 8), c, t),
        forall|c: Color| #[trigger] pos.cbb(c) == color_bits_of(board_pl(pos, 8), c),
        pos.occupied.0 == all_bits_of(board_pl(pos, 8)),
{
    let pl = board_pl(pos, 8);
    assert forall|c: Color, t: PieceType| #[trigger] pos.bb(c, t) == bits_of(pl, c, t) by {
        lemma_bits_board(pos, 8, c, t);
        assert forall|s: int| 0 <= s < 64 implies #[trigger] bit_at(pos.bb(c, t), s) == bit_at(
            bits_of(pl, c, t),
            s,
        ) by {
            lemma_piece_on_bits(pos, s, c, t);
        }
        lemma_bits_ext(pos.bb(c, t), bits_of(pl, c, t));
    }
    lemma_placements_wf(pl);
    assert(pos.cbb(Color::White) == color_bits_of(pl, Color::White));
    assert(pos.cbb(Color::Black) == color_bits_of(pl, Color::Black));
}

// ---------------------------------------------------------------------------------------------
// The other fields.

/// The castling field reads back as the rights among the four flags.
proof fn lemma_castling_reads(b: u8)
    requires
        b < 16,
    ensures
        castling_text(b).len() > 0,
        plain_ws_free(castling_text(b)),
        (if castling_text(b) == seq!['-'] {
            Ok::<u8, FenError>(0u8)
        } else {
            castle_scan(castling_text(b))
        }) == Ok::<u8, FenError>(b),
{
    assert((b & 1u8 != 0u8 ==> b & 1u8 == 1u8) && (b & 2u8 != 0u8 ==> b & 2u8 == 2u8) && (b & 4u8
        != 0u8 ==> b & 4u8 == 4u8) && (b & 8u8 != 0u8 ==> b & 8u8 == 8u8) && (b < 16u8 ==> ((((0u8
        | (b & 1u8)) | (b & 2u8)) | (b & 4u8)) | (b & 8u8)) == b) && (b & 1u8 == 0u8 && b & 2u8
        == 0u8 && b & 4u8 == 0u8 && b & 8u8 == 0u8 && b < 16u8 ==> b == 0u8) && (0u8 | 0u8 == 0u8)
        && (forall|v: u8| #![auto] v | 0u8 == v)) by (bit_vector);
    let k: Seq<char> = if b & 1u8 != 0 {
        seq!['K']
    } else {
        Seq::empty()
    };
    let q: Seq<char> = if b & 2u8 != 0 {
        seq!['Q']
    } else {
        Seq::empty()
    };
    let k2: Seq<char> = if b & 4u8 != 0 {
        seq!['k']
    } else {
        Seq::empty()
    };
    let q2: Seq<char> = if b & 8u8 != 0 {
        seq!['q']
    } else {
        Seq::empty()
    };
    let t = k + q + k2 + q2;
    let v1 = 0u8 | (b & 1u8);
    let v2 = v1 | (b & 2u8);
    let v3 = v2 | (b & 4u8);
    let v4 = v3 | (b & 8u8);
    assert(castle_scan(k) == Ok::<u8, FenError>(v1)) by {
        if b & 1u8 != 0 {
            assert(k.drop_last() =~= Seq::<char>::empty());
        } else {
            assert(k =~= Seq::<char>::empty());
        }
    }
    assert(castle_scan(k + q) == Ok::<u8, FenError>(v2)) by {
        if b & 2u8 != 0 {
            assert((k + q).drop_last() =~= k);
            assert((k + q).last() == 'Q');
        } else {
            assert(k + q =~= k);
        }
    }
    assert(castle_scan(k + q + k2) == Ok::<u8, FenError>(v3)) by {
        if b & 4u8 != 0 {
            assert((k + q + k2).drop_last() =~= k + q);
            assert((k + q + k2).last() == 'k');
        } else {
            assert(k + q + k2 =~= k + q);
        }
    }
    assert(castle_scan(t) == Ok::<u8, FenError>(v4)) by {
        if b & 8u8 != 0 {
            assert(t.drop_last() =~= k + q + k2);
            assert(t.last() == 'q');
        } else {
            assert(t =~= k + q + k2);
        }
    }
    if t.len() == 0 {
        assert(castling_text(b) == seq!['-']);
    } else {
        assert(castling_text(b) == t);
        assert(t[0] != '-');
        assert forall|i: int| 0 <= i < t.len() implies !is_ws(#[trigger] t[i]) by {
            assert(t[i] == 'K' || t[i] == 'Q' || t[i] == 'k' || t[i] == 'q');
        }
    }
}

/// A square's name reads back as the square.
proof fn lemma_square_reads(sq: u8)
    requires
        sq < 64,
    ensures
        name_square(square_name(sq)) == Some(sq),
        square_name(sq) != seq!['-'],
        plain_ws_free(square_name(sq)),
        square_name(sq).len() > 0,
{
    let n = square_name(sq);
    assert(n[0] as u32 == 97 + sq % 8);
    assert(n[1] as u32 == 49 + sq / 8);
    assert((sq / 8) * 8 + sq % 8 == sq);
}

/// A field followed by a space joins the fields when none is in progress.
proof fn lemma_ws_field(x: Seq<char>, t: Seq<char>)
    requires
        ws_scan(x).1.len() == 0,
        t.len() > 0,
        plain_ws_free(t),
    ensures
        ws_scan(x + t.push(' ')) == (ws_scan(x).0.push(t), Seq::<char>::empty()),
{
    lemma_ws_scan_plain(t);
    assert(t.push(' ').drop_last() =~= t);
    lemma_ws_scan_concat(x, t.push(' '));
    assert(ws_scan(x).0 + seq![t] =~= ws_scan(x).0.push(t));
}

/// Writing a position as FEN and reading the text back gives the position: its piece boards,
/// side to move, castling rights, en passant square and both counters.
pub proof fn lemma_fen_roundtrip(pos: Position)
    requires
        fen_writable(pos),
    ensures
        fen_parse(fen_text(pos)) matches Ok(d) && holds_fen(pos, d),
{
    let p = placement_prefix(pos, 8);
    let side = if pos.side_to_move == Color::White {
        'w'
    } else {
        'b'
    };
    let c = castling_text(pos.castling_rights.bits());
    let e = match pos.en_passant_square {
        Some(sq) => square_name(sq),
        None => seq!['-'],
    };
    let h = dec(pos.halfmove_clock as nat);
    let f = dec(pos.fullmove_number as nat);
    lemma_placement_split(pos);
    lemma_castling_reads(pos.castling_rights.bits());
    match pos.en_passant_square {
        Some(sq) => lemma_square_reads(sq),
        None => {},
    }
    assert(plain_ws_free(e) && e.len() > 0);
    lemma_dec_reads(pos.halfmove_clock as nat);
    lemma_dec_reads(pos.fullmove_number as nat);
    lemma_parse_dec(pos.halfmove_clock);
    lemma_parse_dec(pos.fullmove_number);
    assert forall|i: int| 0 <= i < h.len() implies !is_ws(#[trigger] h[i]) by {
        assert(plain(h[i]));
    }
    assert forall|i: int| 0 <= i < f.len() implies !is_ws(#[trigger] f[i]) by {
        assert(plain(f[i]));
    }
    let text = fen_text(pos);
    let x0 = Seq::<char>::empty();
    assert(ws_scan(x0) == (Seq::<Seq<char>>::empty(), Seq::<char>::empty()));
    let x1 = x0 + p.push(' ');
    lemma_ws_field(x0, p);
    let x2 = x1 + seq![side].push(' ');
    lemma_ws_field(x1, seq![side]);
    let x3 = x2 + c.push(' ');
    lemma_ws_field(x2, c);
    let x4 = x3 + e.push(' ');
    lemma_ws_field(x3, e);
    let x5 = x4 + h.push(' ');
    lemma_ws_field(x4, h);
    assert(text =~= x5 + f);
    lemma_ws_scan_plain(f);
    lemma_ws_scan_concat(x5, f);
    let parts = ws_fields(text);
    assert(parts =~= seq![p, seq![side], c, e, h, f]);
    lemma_board_scan(pos, 8);
    lemma_board_bits(pos);
    let pl = board_pl(pos, 8);
    assert(parts.len() == 6);
    assert(parts[0] == p);
    assert(sep_split(parts[0], '/').len() == 8);
    assert(board_scan(sep_split(parts[0], '/'), 8) == Ok::<Seq<Placement>, FenError>(pl));
    assert(parts[1] == seq![side]);
    assert(seq!['w'] != seq!['b']) by {
        assert(seq!['w'][0] != seq!['b'][0]);
    }
    assert(parts[1] == seq!['w'] || parts[1] == seq!['b']);
    assert((parts[1] == seq!['w']) == (pos.side_to_move == Color::White));
    assert(parts[2] == c);
    assert(parts[3] == e);
    assert(parts[3] != seq!['-'] ==> name_square(parts[3]).is_some());
    assert((if parts[3] == seq!['-'] {
        None
    } else {
        name_square(parts[3])
    }) == pos.en_passant_square);
    assert(parse_u16(parts[4]) == Some(pos.halfmove_clock));
    assert(parse_u16(parts[5]) == Some(pos.fullmove_number));
    assert(fen_parse(text) == Ok::<crate::fen::FenData, FenError>(
        (
            pl,
            pos.side_to_move,
            pos.castling_rights.bits(),
            pos.en_passant_square,
            pos.halfmove_clock,
            pos.fullmove_number,
        ),
    ));
}

} // verus!
