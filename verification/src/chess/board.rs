use vstd::prelude::*;
use crate::chess::piece::{Color, Piece, PieceType, piece_of_fen_char, fen_char_of, lemma_fen_char_roundtrip};
use crate::text::{
    ascii_char, dec, digit_char, push_dec, str_chars, split_whitespace, split_at_char, ws_fields,
    ws_scan, sep_scan, sep_split, vecs_hold, is_digit, digit_value, is_ws, string_from_chars,
    lemma_ws_scan_plain, lemma_ws_scan_concat, lemma_sep_scan_plain, lemma_sep_scan_concat,
};

verus! {

/// A square of the 8x8 board: `rank` 0 is the top row (rank 8), `file` 0 is file a.
#[derive(Clone, Copy, PartialEq, Eq, Structural, Hash, Debug)]
pub struct Position {
    pub rank: usize,
    pub file: usize,
}

/// The byte length `str::len` reports for a text of these characters.
pub open spec fn str_len_bytes(s: Seq<char>) -> usize {
    vstd::utf8::encode_utf8(s).len() as usize
}

/// The square named by two characters such as "e4", when both are on the board.
pub open spec fn square_of_name(s: Seq<char>) -> Option<Position> {
    if s.len() == 2 && 'a' <= s[0] <= 'h' && '1' <= s[1] <= '8' {
        Some(Position { file: (s[0] as int - 97) as usize, rank: (8 - (s[1] as int - 48)) as usize })
    } else {
        None
    }
}

/// The byte written for the file: the file's low byte plus `b'a'`, wrapping as a release build does.
pub open spec fn file_byte(file: usize) -> int {
    (file as int + 97) % 256
}

/// The number written for the rank: `8 - rank` taken to a byte, wrapping as a release build does.
pub open spec fn rank_byte(rank: usize) -> int {
    (8 - rank as int) % 256
}

/// The algebraic name of a square: file letter, then rank number.
pub open spec fn position_name(p: Position) -> Seq<char> {
    seq![(file_byte(p.file) as u32) as char] + dec(rank_byte(p.rank) as nat)
}

impl Position {
    pub fn new(file: usize, rank: usize) -> (r: Position)
        ensures
            r == (Position { file, rank }),
    {
        Position { file, rank }
    }

    /// The square named by `s` ("e4"): `None` unless `s` is two bytes, a file letter a-h and a
    /// rank digit 1-8.
    pub fn from_algebraic(s: &str) -> (r: Option<Position>)
        requires
            str_len_bytes(s@) == 2 ==> s@.len() == 2,
        ensures
            r == (if str_len_bytes(s@) == 2 {
                square_of_name(s@)
            } else {
                None
            }),
    {
        if s.len() != 2 {
            return None;
        }
        let c0 = s.get_char(0);
        let c1 = s.get_char(1);
        if c0 < 'a' || c0 > 'h' {
            return None;
        }
        if c1 < '1' || c1 > '8' {
            return None;
        }
        let file = (c0 as u32 - 97) as usize;
        let rank = 8 - (c1 as u32 - 48) as usize;
        Some(Position { file, rank })
    }

    /// The algebraic name of the square ("e4").
    pub fn to_algebraic(&self) -> (r: String)
        ensures
            r@ == position_name(*self),
    {
        let fb = ((self.file % 256 + 97) % 256) as u8;
        let rm = self.rank % 256;
        let rb = ((264 - rm) % 256) as u8;
        proof {
            let r = self.rank as int;
            assert((8 - r) % 256 == (264 - r % 256) % 256) by (nonlinear_arith);
            assert((self.file as int + 97) % 256 == (self.file % 256 + 97) % 256) by (nonlinear_arith);
        }
        let mut out: Vec<char> = Vec::new();
        out.push(ascii_char(fb));
        push_dec(&mut out, rb as u64);
        assert(out@ =~= position_name(*self));
        string_from_chars(&out)
    }
}

/// A row of eight empty squares.
pub open spec fn empty_row() -> Seq<Option<Piece>> {
    Seq::new(8, |f: int| None::<Piece>)
}

/// Eight rows of eight squares each.
pub open spec fn well_shaped(v: Seq<Seq<Option<Piece>>>) -> bool {
    v.len() == 8 && forall|r: int| 0 <= r < 8 ==> #[trigger] v[r].len() == 8
}

/// The chess board: eight rows of eight squares, each empty or holding a piece.
#[derive(Clone, Copy, Debug)]
pub struct Board {
    squares: [[Option<Piece>; 8]; 8],
}

impl View for Board {
    type V = Seq<Seq<Option<Piece>>>;

    /// Row `rank` (0 is the top), column `file` (0 is file a).
    closed spec fn view(&self) -> Seq<Seq<Option<Piece>>> {
        Seq::new(8, |r: int| self.squares@[r]@)
    }
}

/// The square a board holds at a position, or `None` off the board.
pub open spec fn cell(v: Seq<Seq<Option<Piece>>>, pos: Position) -> Option<Piece> {
    if pos.rank < 8 && pos.file < 8 {
        v[pos.rank as int][pos.file as int]
    } else {
        None
    }
}

/// The board after `set_piece`: the square changed when it is on the board.
pub open spec fn with_cell(v: Seq<Seq<Option<Piece>>>, pos: Position, piece: Option<Piece>) -> Seq<
    Seq<Option<Piece>>,
> {
    if pos.rank < 8 && pos.file < 8 {
        v.update(pos.rank as int, v[pos.rank as int].update(pos.file as int, piece))
    } else {
        v
    }
}

/// One character of a FEN rank read into a scan state (row so far, file reached): a digit skips
/// that many files, a piece letter fills the file; a refused character, or any character after
/// the eighth file, ends the scan.
pub open spec fn scan_step(st: Option<(Seq<Option<Piece>>, int)>, c: char) -> Option<
    (Seq<Option<Piece>>, int),
> {
    match st {
        None => None,
        Some((row, f)) => if f >= 8 {
            None
        } else if is_digit(c) {
            Some((row, f + digit_value(c)))
        } else {
            match piece_of_fen_char(c) {
                Some(p) => Some((row.update(f, Some(p)), f + 1)),
                None => None,
            }
        },
    }
}

/// The characters of `r` read, left to right, from scan state `st`.
pub open spec fn scan_from(st: Option<(Seq<Option<Piece>>, int)>, r: Seq<char>) -> Option<
    (Seq<Option<Piece>>, int),
>
    decreases r.len(),
{
    if r.len() == 0 {
        st
    } else {
        scan_step(scan_from(st, r.drop_last()), r.last())
    }
}

/// Scan of one rank of a FEN placement from an empty row at file a: the row filled and the file
/// reached, or `None` once a character is refused or comes after the eighth file.
pub open spec fn row_scan(r: Seq<char>) -> Option<(Seq<Option<Piece>>, int)> {
    scan_from(Some((empty_row(), 0)), r)
}

/// The row a FEN rank describes, when it describes exactly eight files.
pub open spec fn rank_row(r: Seq<char>) -> Option<Seq<Option<Piece>>> {
    match row_scan(r) {
        Some((row, f)) => if f == 8 {
            Some(row)
        } else {
            None
        },
        None => None,
    }
}

/// The board that the first field of a FEN string describes: eight '/'-separated ranks, top first.
pub open spec fn fen_rows(s: Seq<char>) -> Option<Seq<Seq<Option<Piece>>>> {
    let fields = ws_fields(s);
    if fields.len() == 0 {
        None
    } else {
        let ranks = sep_split(fields[0], '/');
        if ranks.len() == 8 && forall|i: int| 0 <= i < 8 ==> #[trigger] rank_row(ranks[i]) is Some {
            Some(Seq::new(8, |i: int| rank_row(ranks[i])->0))
        } else {
            None
        }
    }
}

/// FEN text of a row from `f` on, with `empty` empty squares pending before it.
pub open spec fn row_text_from(row: Seq<Option<Piece>>, f: int, empty: nat) -> Seq<char>
    decreases 8 - f,
{
    if f >= 8 {
        if empty > 0 {
            dec(empty)
        } else {
            Seq::empty()
        }
    } else {
        match row[f] {
            Some(p) => (if empty > 0 {
                dec(empty)
            } else {
                Seq::empty()
            }).push(fen_char_of(p)) + row_text_from(row, f + 1, 0),
            None => row_text_from(row, f + 1, empty + 1),
        }
    }
}

/// FEN placement text of the first `k` rows, '/' after each but the last row.
pub open spec fn placement_text(v: Seq<Seq<Option<Piece>>>, k: int) -> Seq<char>
    decreases k,
{
    if k <= 0 {
        Seq::empty()
    } else {
        placement_text(v, k - 1) + row_text_from(v[k - 1], 0, 0) + (if k - 1 < 7 {
            seq!['/']
        } else {
            Seq::empty()
        })
    }
}

/// The FEN string a board writes: its placement, then always " w KQkq - 0 1".
pub open spec fn board_fen_text(v: Seq<Seq<Option<Piece>>>) -> Seq<char> {
    placement_text(v, 8) + seq![' ', 'w', ' ', 'K', 'Q', 'k', 'q', ' ', '-', ' ', '0', ' ', '1']
}

/// The back rank from file a to file h.
pub open spec fn back_rank_type(f: int) -> PieceType {
    if f == 0 || f == 7 {
        PieceType::Rook
    } else if f == 1 || f == 6 {
        PieceType::Knight
    } else if f == 2 || f == 5 {
        PieceType::Bishop
    } else if f == 3 {
        PieceType::Queen
    } else {
        PieceType::King
    }
}

/// The rows of the starting position, black on top.
pub open spec fn standard_rows() -> Seq<Seq<Option<Piece>>> {
    Seq::new(
        8,
        |r: int|
            Seq::new(
                8,
                |f: int|
                    if r == 0 {
                        Some(Piece { piece_type: back_rank_type(f), color: Color::Black })
                    } else if r == 1 {
                        Some(Piece { piece_type: PieceType::Pawn, color: Color::Black })
                    } else if r == 6 {
                        Some(Piece { piece_type: PieceType::Pawn, color: Color::White })
                    } else if r == 7 {
                        Some(Piece { piece_type: back_rank_type(f), color: Color::White })
                    } else {
                        None
                    },
            ),
    )
}

/// The letter of a square for the frontend's array.
pub open spec fn letter_of(c: Option<Piece>) -> Option<char> {
    match c {
        Some(p) => Some(fen_char_of(p)),
        None => None,
    }
}

/// The piece a frontend letter stands for; unknown letters leave the square empty.
pub open spec fn piece_of_letter(c: Option<char>) -> Option<Piece> {
    match c {
        Some(ch) => piece_of_fen_char(ch),
        None => None,
    }
}

/// The board the frontend's letters describe.
pub open spec fn board_of_letters(a: [[Option<char>; 8]; 8]) -> Seq<Seq<Option<Piece>>> {
    Seq::new(8, |r: int| Seq::new(8, |f: int| piece_of_letter(a@[r]@[f])))
}

proof fn lemma_row_scan_none(r: Seq<char>, j: int)
    requires
        0 <= j <= r.len(),
        row_scan(r.subrange(0, j)) is None,
    ensures
        row_scan(r) is None,
    decreases r.len() - j,
{
    if j < r.len() {
        assert(r.subrange(0, j + 1).drop_last() =~= r.subrange(0, j));
        lemma_row_scan_none(r, j + 1);
    } else {
        assert(r.subrange(0, j) =~= r);
    }
}


/// The row with the files before `k` taken from `row` and the others empty.
pub open spec fn row_prefix(row: Seq<Option<Piece>>, k: int) -> Seq<Option<Piece>> {
    Seq::new(8, |i: int| if i < k { row[i] } else { None })
}

/// Reading `a` then `b` is reading `a + b`.
proof fn lemma_scan_concat(st: Option<(Seq<Option<Piece>>, int)>, a: Seq<char>, b: Seq<char>)
    ensures
        scan_from(st, a + b) == scan_from(scan_from(st, a), b),
    decreases b.len(),
{
    if b.len() == 0 {
        assert(a + b =~= a);
    } else {
        lemma_scan_concat(st, a, b.drop_last());
        assert((a + b).drop_last() =~= a + b.drop_last());
        assert((a + b).last() == b.last());
    }
}

/// A count of one to eight empty squares is written as one digit.
proof fn lemma_dec_digit(e: nat)
    requires
        1 <= e <= 8,
    ensures
        dec(e) == seq![digit_char(e as int)],
        is_digit(digit_char(e as int)),
        digit_value(digit_char(e as int)) == e,
        !is_ws(digit_char(e as int)),
        digit_char(e as int) != '/',
{
}

/// A piece letter is no digit, no white space and no '/'.
proof fn lemma_letter_kind(p: Piece)
    ensures
        !is_digit(fen_char_of(p)),
        !is_ws(fen_char_of(p)),
        fen_char_of(p) != '/',
        piece_of_fen_char(fen_char_of(p)) == Some(p),
{
    lemma_fen_char_roundtrip(p);
}

/// Reading one digit of a pending count of empty squares moves to the file after them.
proof fn lemma_scan_digit(row: Seq<Option<Piece>>, f: int, e: nat)
    requires
        row.len() == 8,
        1 <= e <= f <= 8,
        f - e < 8,
        forall|i: int| f - e <= i < f ==> #[trigger] row[i] is None,
    ensures
        scan_from(Some((row_prefix(row, f - e), f - e)), dec(e)) == Some((row_prefix(row, f), f)),
{
    lemma_dec_digit(e);
    let st = Some((row_prefix(row, f - e), f - e));
    let d = dec(e);
    assert(d.drop_last() =~= Seq::<char>::empty());
    assert(scan_from(st, d.drop_last()) == st);
    assert(d.last() == digit_char(e as int));
    assert(scan_from(st, d) == scan_step(st, digit_char(e as int)));
    assert(row_prefix(row, f - e) =~= row_prefix(row, f));
}

/// Reading a row's text from file `f`, with `e` empty squares pending, finishes the row.
proof fn lemma_scan_row_text(row: Seq<Option<Piece>>, f: int, e: nat)
    requires
        row.len() == 8,
        0 <= e <= f <= 8,
        forall|i: int| f - e <= i < f ==> #[trigger] row[i] is None,
    ensures
        scan_from(Some((row_prefix(row, f - e), f - e)), row_text_from(row, f, e)) == Some(
            (row_prefix(row, 8), 8int),
        ),
    decreases 8 - f,
{
    let st = Some((row_prefix(row, f - e), f - e));
    if f >= 8 {
        if e > 0 {
            lemma_scan_digit(row, f, e);
        } else {
            assert(row_text_from(row, f, e) =~= Seq::<char>::empty());
        }
    } else {
        match row[f] {
            Some(p) => {
                lemma_letter_kind(p);
                let c = fen_char_of(p);
                let d: Seq<char> = if e > 0 {
                    dec(e)
                } else {
                    Seq::empty()
                };
                let rest = row_text_from(row, f + 1, 0);
                assert(row_text_from(row, f, e) == d.push(c) + rest);
                lemma_scan_concat(st, d.push(c), rest);
                assert(d.push(c).drop_last() =~= d);
                assert(d.push(c).last() == c);
                let st1 = Some((row_prefix(row, f), f));
                if e > 0 {
                    lemma_scan_digit(row, f, e);
                } else {
                    assert(d =~= Seq::<char>::empty());
                }
                assert(scan_from(st, d) == st1);
                assert(scan_from(st, d.push(c)) == scan_step(st1, c));
                assert(row_prefix(row, f).update(f, Some(p)) =~= row_prefix(row, f + 1));
                assert(scan_step(st1, c) == Some((row_prefix(row, f + 1), f + 1)));
                lemma_scan_row_text(row, f + 1, 0);
            },
            None => {
                lemma_scan_row_text(row, f + 1, e + 1);
            },
        }
    }
}

/// A row's FEN text reads back as the row.
proof fn lemma_rank_row_text(row: Seq<Option<Piece>>)
    requires
        row.len() == 8,
    ensures
        rank_row(row_text_from(row, 0, 0)) == Some(row),
{
    lemma_scan_row_text(row, 0, 0);
    assert(row_prefix(row, 0) =~= empty_row());
    assert(row_prefix(row, 8) =~= row);
}

/// A character of a row's FEN text: a digit 1-8 or a piece letter.
pub open spec fn plain_char(c: char) -> bool {
    !is_ws(c) && c != '/'
}

/// A row's FEN text holds neither white space nor '/'.
proof fn lemma_row_text_chars(row: Seq<Option<Piece>>, f: int, e: nat)
    requires
        row.len() == 8,
        0 <= e <= f <= 8,
    ensures
        forall|i: int|
            0 <= i < row_text_from(row, f, e).len() ==> plain_char(#[trigger] row_text_from(row, f, e)[i]),
    decreases 8 - f,
{
    let t = row_text_from(row, f, e);
    if f >= 8 {
        if e > 0 {
            lemma_dec_digit(e);
            assert(t == seq![digit_char(e as int)]);
            assert forall|i: int| 0 <= i < t.len() implies plain_char(#[trigger] t[i]) by {
                assert(t[i] == digit_char(e as int));
            }
        } else {
            assert(t =~= Seq::<char>::empty());
        }
    } else {
        match row[f] {
            Some(p) => {
                lemma_letter_kind(p);
                lemma_row_text_chars(row, f + 1, 0);
                let d: Seq<char> = if e > 0 {
                    dec(e)
                } else {
                    Seq::empty()
                };
                if e > 0 {
                    lemma_dec_digit(e);
                }
                let rest = row_text_from(row, f + 1, 0);
                assert(t == d.push(fen_char_of(p)) + rest);
                assert forall|i: int| 0 <= i < t.len() implies plain_char(#[trigger] t[i]) by {
                    if i < d.len() {
                        assert(t[i] == d[i]);
                    } else if i == d.len() {
                        assert(t[i] == fen_char_of(p));
                    } else {
                        assert(t[i] == rest[i - d.len() - 1]);
                    }
                }
            },
            None => {
                lemma_row_text_chars(row, f + 1, e + 1);
                assert(t == row_text_from(row, f + 1, e + 1));
                assert forall|i: int| 0 <= i < t.len() implies plain_char(#[trigger] t[i]) by {
                    assert(t[i] == row_text_from(row, f + 1, e + 1)[i]);
                }
            },
        }
    }
}

/// The text of each row, top first.
pub open spec fn row_texts(v: Seq<Seq<Option<Piece>>>, k: int) -> Seq<Seq<char>> {
    Seq::new(k as nat, |i: int| row_text_from(v[i], 0, 0))
}

/// The first `k` rows of a placement, split at '/', give the row texts.
proof fn lemma_placement_split(v: Seq<Seq<Option<Piece>>>, k: int)
    requires
        well_shaped(v),
        0 <= k <= 7,
    ensures
        sep_scan(placement_text(v, k), '/') == (row_texts(v, k), Seq::<char>::empty()),
        forall|i: int| 0 <= i < placement_text(v, k).len() ==> !is_ws(#[trigger] placement_text(v, k)[i]),
        forall|i: int| 0 <= i < k ==> #[trigger] row_texts(v, k)[i] == row_text_from(v[i], 0, 0),
    decreases k,
{
    if k == 0 {
        assert(row_texts(v, 0) =~= Seq::<Seq<char>>::empty());
    } else {
        lemma_placement_split(v, k - 1);
        let a = placement_text(v, k - 1);
        let rt = row_text_from(v[k - 1], 0, 0);
        lemma_row_text_chars(v[k - 1], 0, 0);
        assert forall|i: int| 0 <= i < rt.len() implies #[trigger] rt[i] != '/' by {
            assert(plain_char(rt[i]));
        }
        let b = rt.push('/');
        assert(placement_text(v, k) == a + b) by {
            assert(a + rt + seq!['/'] =~= a + b);
        }
        lemma_sep_scan_plain(rt, '/');
        assert(b.drop_last() =~= rt);
        lemma_sep_scan_concat(a, b, '/');
        assert(row_texts(v, k - 1).push(rt) =~= row_texts(v, k));
        assert(row_texts(v, k - 1) + seq![rt] =~= row_texts(v, k));
        assert forall|i: int| 0 <= i < placement_text(v, k).len() implies !is_ws(
            #[trigger] placement_text(v, k)[i],
        ) by {
            if i < a.len() {
                assert(placement_text(v, k)[i] == a[i]);
            } else if i < a.len() + rt.len() {
                assert(placement_text(v, k)[i] == rt[i - a.len()]);
                assert(plain_char(rt[i - a.len()]));
            } else {
                assert(placement_text(v, k)[i] == '/');
            }
        }
    }
}

/// A board's FEN text reads back as the board.
pub proof fn lemma_board_fen_roundtrip(v: Seq<Seq<Option<Piece>>>)
    requires
        well_shaped(v),
    ensures
        fen_rows(board_fen_text(v)) == Some(v),
{
    lemma_placement_split(v, 7);
    let a = placement_text(v, 7);
    let rt7 = row_text_from(v[7], 0, 0);
    lemma_row_text_chars(v[7], 0, 0);
    assert forall|i: int| 0 <= i < rt7.len() implies #[trigger] rt7[i] != '/' by {
        assert(plain_char(rt7[i]));
    }
    let p = placement_text(v, 8);
    assert(p =~= a + rt7);
    lemma_sep_scan_plain(rt7, '/');
    lemma_sep_scan_concat(a, rt7, '/');
    assert(sep_split(p, '/') =~= row_texts(v, 8));
    assert forall|i: int| 0 <= i < p.len() implies !is_ws(#[trigger] p[i]) by {
        if i < a.len() {
            assert(p[i] == a[i]);
        } else {
            assert(p[i] == rt7[i - a.len()]);
            assert(plain_char(rt7[i - a.len()]));
        }
    }
    assert(p.len() > 0) by {
        assert(placement_text(v, 1).len() > 0);
        assert(sep_scan(a, '/').0.len() == 7);
        if a.len() == 0 {
            assert(a =~= Seq::<char>::empty());
        }
    }
    let tail = seq!['w', ' ', 'K', 'Q', 'k', 'q', ' ', '-', ' ', '0', ' ', '1'];
    let text = board_fen_text(v);
    assert(text =~= p.push(' ') + tail);
    lemma_ws_scan_plain(p);
    assert(p.push(' ').drop_last() =~= p);
    lemma_ws_scan_concat(p.push(' '), tail);
    assert(ws_fields(text)[0] == p);
    assert forall|i: int| 0 <= i < 8 implies #[trigger] rank_row(sep_split(p, '/')[i]) == Some(v[i]) by {
        lemma_rank_row_text(v[i]);
    }
    assert(fen_rows(text) == Some(v)) by {
        assert(Seq::new(8, |i: int| rank_row(sep_split(p, '/')[i])->0) =~= v);
    }
}

/// Reading a square after setting it gives what was set (for a square on the board); every other
/// square keeps its content.
pub proof fn lemma_get_after_set(v: Seq<Seq<Option<Piece>>>, pos: Position, piece: Option<Piece>, other: Position)
    requires
        well_shaped(v),
    ensures
        pos.rank < 8 && pos.file < 8 ==> cell(with_cell(v, pos, piece), pos) == piece,
        other != pos ==> cell(with_cell(v, pos, piece), other) == cell(v, other),
        well_shaped(with_cell(v, pos, piece)),
{
}

impl Board {
    /// Every row of a board holds eight squares.
    pub proof fn lemma_shape(&self)
        ensures
            well_shaped(self@),
    {
    }

    /// A board with no pieces.
    pub fn new_empty() -> (r: Board)
        ensures
            r@ == Seq::new(8, |i: int| empty_row()),
    {
        let b = Board { squares: [[None; 8]; 8] };
        assert(b@ =~= Seq::new(8, |i: int| empty_row())) by {
            assert forall|i: int| 0 <= i < 8 implies #[trigger] b@[i] =~= empty_row() by {}
        }
        b
    }

    /// The piece at a square; `None` for an empty square or one off the board.
    pub fn get_piece(&self, pos: Position) -> (r: Option<Piece>)
        ensures
            r == cell(self@, pos),
    {
        if pos.rank < 8 && pos.file < 8 {
            self.squares[pos.rank][pos.file]
        } else {
            None
        }
    }

    /// Puts `piece` on a square (or clears it); a square off the board is ignored.
    pub fn set_piece(&mut self, pos: Position, piece: Option<Piece>)
        ensures
            final(self)@ == with_cell(old(self)@, pos, piece),
    {
        if pos.rank < 8 && pos.file < 8 {
            let mut row = self.squares[pos.rank];
            row[pos.file] = piece;
            self.squares[pos.rank] = row;
            assert(self@ =~= with_cell(old(self)@, pos, piece)) by {
                assert forall|i: int| 0 <= i < 8 implies #[trigger] self@[i] =~= with_cell(
                    old(self)@,
                    pos,
                    piece,
                )[i] by {}
            }
        }
    }

    /// Reads the piece placement (the first field) of a FEN string; `None` when it is missing,
    /// lacks eight ranks, or a rank holds a refused character or other than eight files.
    #[verifier::loop_isolation(false)]
    pub fn from_fen(fen: &str) -> (r: Option<Board>)
        ensures
            match fen_rows(fen@) {
                None => r is None,
                Some(v) => r is Some && r->0@ == v,
            },
    {
        let chars = str_chars(fen);
        let parts = split_whitespace(&chars);
        let ghost sparts = ws_fields(fen@);
        if parts.len() == 0 {
            return None;
        }
        let ranks = split_at_char(&parts[0], '/');
        let ghost sranks = sep_split(sparts[0], '/');
        assert(parts@[0]@ == sparts[0]);
        if ranks.len() != 8 {
            return None;
        }
        let mut board = Board::new_empty();
        let mut ri: usize = 0;
        while ri < 8
            invariant
                ri <= 8,
                sparts == ws_fields(fen@),
                sparts.len() > 0,
                sranks == sep_split(sparts[0], '/'),
                vecs_hold(ranks@, sranks),
                sranks.len() == 8,
                well_shaped(board@),
                forall|i: int| 0 <= i < ri ==> #[trigger] rank_row(sranks[i]) == Some(board@[i]),
                forall|i: int| ri <= i < 8 ==> #[trigger] board@[i] == empty_row(),
            decreases 8 - ri,
        {
            let rank_str = &ranks[ri];
            let ghost srank = sranks[ri as int];
            assert(rank_str@ == srank);
            let ghost b0 = board@;
            let mut file: usize = 0;
            let mut j: usize = 0;
            while j < rank_str.len()
                invariant
                    j <= rank_str@.len(),
                    rank_str@ == srank,
                    ri < 8,
                    well_shaped(board@),
                    row_scan(srank.subrange(0, j as int)) == Some((board@[ri as int], file as int)),
                    file <= 17,
                    forall|i: int| 0 <= i < 8 && i != ri ==> #[trigger] board@[i] == b0[i],
                decreases rank_str@.len() - j,
            {
                let c = rank_str[j];
                proof {
                    assert(srank.subrange(0, j + 1).drop_last() =~= srank.subrange(0, j as int));
                    assert(srank.subrange(0, j + 1).last() == c);
                }
                if file >= 8 {
                    proof {
                        lemma_row_scan_none(srank, j + 1);
                        assert(rank_row(sranks[ri as int]) is None);
                    }
                    return None;
                }
                if '0' <= c && c <= '9' {
                    file = file + (c as u32 - 48) as usize;
                } else {
                    match Piece::from_fen_char(c) {
                        Some(piece) => {
                            board.set_piece(Position::new(file, ri), Some(piece));
                            file = file + 1;
                        },
                        None => {
                            proof {
                                lemma_row_scan_none(srank, j + 1);
                                assert(rank_row(sranks[ri as int]) is None);
                            }
                            return None;
                        },
                    }
                }
                j = j + 1;
            }
            assert(srank.subrange(0, j as int) =~= srank);
            if file != 8 {
                assert(rank_row(sranks[ri as int]) is None);
                return None;
            }
            ri = ri + 1;
        }
        proof {
            assert(fen_rows(fen@) == Some(board@)) by {
                assert(board@ =~= Seq::new(8, |i: int| rank_row(sranks[i])->0));
            }
        }
        Some(board)
    }

    fn push_row(&self, fen: &mut Vec<char>, rank: usize)
        requires
            rank < 8,
        ensures
            final(fen)@ == old(fen)@ + row_text_from(self@[rank as int], 0, 0),
    {
        let ghost row = self@[rank as int];
        let mut empty: u64 = 0;
        let mut file: usize = 0;
        while file < 8
            invariant
                file <= 8,
                rank < 8,
                empty <= file,
                row == self@[rank as int],
                fen@ + row_text_from(row, file as int, empty as nat) == old(fen)@ + row_text_from(
                    row,
                    0,
                    0,
                ),
            decreases 8 - file,
        {
            match self.squares[rank][file] {
                Some(piece) => {
                    let ghost before = fen@;
                    let ghost e0 = empty;
                    if empty > 0 {
                        push_dec(fen, empty);
                        empty = 0;
                    }
                    fen.push(piece.to_fen_char());
                    proof {
                        assert(fen@ + row_text_from(row, file + 1, 0) =~= before + row_text_from(
                            row,
                            file as int,
                            e0 as nat,
                        ));
                    }
                },
                None => {
                    empty = empty + 1;
                },
            }
            file = file + 1;
        }
        if empty > 0 {
            push_dec(fen, empty);
        }
        proof {
            assert(fen@ =~= old(fen)@ + row_text_from(row, 0, 0));
        }
    }

    /// The board as a FEN string; the fields after the placement are always " w KQkq - 0 1".
    pub fn to_fen(&self) -> (r: String)
        ensures
            r@ == board_fen_text(self@),
    {
        let mut fen: Vec<char> = Vec::new();
        let mut rank: usize = 0;
        while rank < 8
            invariant
                rank <= 8,
                fen@ == placement_text(self@, rank as int),
            decreases 8 - rank,
        {
            self.push_row(&mut fen, rank);
            if rank < 7 {
                fen.push('/');
            }
            rank = rank + 1;
            proof {
                assert(fen@ =~= placement_text(self@, rank as int));
            }
        }
        let ghost p0 = fen@;
        fen.push(' ');
        fen.push('w');
        fen.push(' ');
        fen.push('K');
        fen.push('Q');
        fen.push('k');
        fen.push('q');
        fen.push(' ');
        fen.push('-');
        fen.push(' ');
        fen.push('0');
        fen.push(' ');
        fen.push('1');
        assert(fen@ =~= board_fen_text(self@));
        string_from_chars(&fen)
    }

    /// The starting position: black pieces on the top two rows, white on the bottom two.
    pub fn new_standard() -> (r: Board)
        ensures
            r@ == standard_rows(),
    {
        let mut board = Board::new_empty();
        let mut file: usize = 0;
        while file < 8
            invariant
                file <= 8,
                well_shaped(board@),
                forall|r: int, f: int|
                    0 <= r < 8 && 0 <= f < 8 ==> #[trigger] board@[r][f] == (if (r == 1 || r == 6)
                        && f < file {
                        standard_rows()[r][f]
                    } else {
                        None
                    }),
            decreases 8 - file,
        {
            board.set_piece(Position::new(file, 1), Some(Piece::new(PieceType::Pawn, Color::Black)));
            board.set_piece(Position::new(file, 6), Some(Piece::new(PieceType::Pawn, Color::White)));
            file = file + 1;
        }
        let back_rank_pieces = [
            PieceType::Rook,
            PieceType::Knight,
            PieceType::Bishop,
            PieceType::Queen,
            PieceType::King,
            PieceType::Bishop,
            PieceType::Knight,
            PieceType::Rook,
        ];
        assert(forall|f: int| 0 <= f < 8 ==> #[trigger] back_rank_pieces@[f] == back_rank_type(f));
        let mut file: usize = 0;
        while file < 8
            invariant
                file <= 8,
                well_shaped(board@),
                forall|f: int| 0 <= f < 8 ==> #[trigger] back_rank_pieces@[f] == back_rank_type(f),
                forall|r: int, f: int|
                    0 <= r < 8 && 0 <= f < 8 ==> #[trigger] board@[r][f] == (if r == 1 || r == 6 || (
                    (r == 0 || r == 7) && f < file) {
                        standard_rows()[r][f]
                    } else {
                        None
                    }),
            decreases 8 - file,
        {
            let piece_type = back_rank_pieces[file];
            board.set_piece(Position::new(file, 0), Some(Piece::new(piece_type, Color::Black)));
            board.set_piece(Position::new(file, 7), Some(Piece::new(piece_type, Color::White)));
            file = file + 1;
        }
        assert(board@ =~= standard_rows()) by {
            assert forall|r: int| 0 <= r < 8 implies #[trigger] board@[r] =~= standard_rows()[r] by {
                assert forall|f: int| 0 <= f < 8 implies #[trigger] board@[r][f]
                    == standard_rows()[r][f] by {}
            }
        }
        board
    }

    /// The board for the frontend: each square's FEN letter, or `None` when empty.
    pub fn to_array(&self) -> (r: [[Option<char>; 8]; 8])
        ensures
            forall|rank: int, file: int|
                0 <= rank < 8 && 0 <= file < 8 ==> #[trigger] r@[rank]@[file] == letter_of(
                    self@[rank][file],
                ),
    {
        let mut result: [[Option<char>; 8]; 8] = [[None; 8]; 8];
        let mut rank: usize = 0;
        while rank < 8
            invariant
                rank <= 8,
                forall|i: int, j: int|
                    0 <= i < rank && 0 <= j < 8 ==> #[trigger] result@[i]@[j] == letter_of(
                        self@[i][j],
                    ),
            decreases 8 - rank,
        {
            let mut row: [Option<char>; 8] = [None; 8];
            let mut file: usize = 0;
            while file < 8
                invariant
                    file <= 8,
                    rank < 8,
                    forall|j: int| 0 <= j < file ==> #[trigger] row@[j] == letter_of(
                        self@[rank as int][j],
                    ),
                decreases 8 - file,
            {
                if let Some(piece) = self.squares[rank][file] {
                    row[file] = Some(piece.to_fen_char());
                } else {
                    row[file] = None;
                }
                file = file + 1;
            }
            result[rank] = row;
            rank = rank + 1;
        }
        result
    }

    /// The board from the frontend's letters; a letter that names no piece leaves its square empty.
    pub fn from_array(array: [[Option<char>; 8]; 8]) -> (r: Board)
        ensures
            r@ == board_of_letters(array),
    {
        let mut board = Board::new_empty();
        let mut rank: usize = 0;
        while rank < 8
            invariant
                rank <= 8,
                forall|i: int, j: int|
                    0 <= i < rank && 0 <= j < 8 ==> #[trigger] board@[i][j] == piece_of_letter(
                        array@[i]@[j],
                    ),
            decreases 8 - rank,
        {
            let mut row: [Option<Piece>; 8] = [None; 8];
            let mut file: usize = 0;
            while file < 8
                invariant
                    file <= 8,
                    rank < 8,
                    forall|j: int| 0 <= j < file ==> #[trigger] row@[j] == piece_of_letter(
                        array@[rank as int]@[j],
                    ),
                decreases 8 - file,
            {
                let cell = array[rank][file];
                if let Some(c) = cell {
                    row[file] = Piece::from_fen_char(c);
                } else {
                    row[file] = None;
                }
                file = file + 1;
            }
            let ghost b0 = board@;
            board.squares[rank] = row;
            assert forall|i: int, j: int| 0 <= i <= rank && 0 <= j < 8 implies #[trigger] board@[i][j]
                == piece_of_letter(array@[i]@[j]) by {
                if i < rank {
                    assert(board@[i] == b0[i]);
                }
            }
            rank = rank + 1;
        }
        assert(board@ =~= board_of_letters(array)) by {
            assert forall|i: int| 0 <= i < 8 implies #[trigger] board@[i] =~= board_of_letters(
                array,
            )[i] by {}
        }
        board
    }
}

} // verus!
