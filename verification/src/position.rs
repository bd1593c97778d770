use vstd::prelude::*;
use crate::bitboard::{Bitboard, bit_at, not_a_file, not_h_file, not_ab_file, not_gh_file, lemma_test_bit, lemma_set_bit, lemma_or_bits, NOT_A_FILE_BB, NOT_H_FILE_BB, NOT_AB_FILE_BB, NOT_GH_FILE_BB};

use crate::attacks::{bishop_attacks, rook_attacks, get_bishop_attacks, get_rook_attacks};

verus! {

#[derive(Clone, Copy, PartialEq, Eq, Structural, Hash, Debug)]
pub enum Color {
    White,
    Black,
}

pub open spec fn opp(c: Color) -> Color {
    match c {
        Color::White => Color::Black,
        Color::Black => Color::White,
    }
}

impl std::ops::Not for Color {
    type Output = Color;

    /// The other side.
    fn not(self) -> (r: Color)
        ensures
            r == opp(self),
    {
        self.opposite()
    }
}

impl vstd::std_specs::ops::NotSpecImpl for Color {
    open spec fn obeys_not_spec() -> bool {
        true
    }

    open spec fn not_req(self) -> bool {
        true
    }

    open spec fn not_spec(self) -> Color {
        opp(self)
    }
}

pub open spec fn color_index(c: Color) -> int {
    match c {
        Color::White => 0,
        Color::Black => 1,
    }
}

impl Color {
    pub fn opposite(self) -> (r: Color)
        ensures
            r == opp(self),
    {
        match self {
            Color::White => Color::Black,
            Color::Black => Color::White,
        }
    }

    pub fn index(self) -> (r: usize)
        ensures
            r == color_index(self),
    {
        match self {
            Color::White => 0,
            Color::Black => 1,
        }
    }
}

#[derive(Clone, Copy, PartialEq, Eq, Structural, Hash, Debug)]
pub enum PieceType {
    Pawn,
    Knight,
    Bishop,
    Rook,
    Queen,
    King,
}

pub open spec fn piece_index(p: PieceType) -> int {
    match p {
        PieceType::Pawn => 0,
        PieceType::Knight => 1,
        PieceType::Bishop => 2,
        PieceType::Rook => 3,
        PieceType::Queen => 4,
        PieceType::King => 5,
    }
}

/// The piece type with the given index (0 = pawn .. 5 = king).
pub open spec fn piece_of_index(i: int) -> PieceType {
    if i == 0 {
        PieceType::Pawn
    } else if i == 1 {
        PieceType::Knight
    } else if i == 2 {
        PieceType::Bishop
    } else if i == 3 {
        PieceType::Rook
    } else if i == 4 {
        PieceType::Queen
    } else {
        PieceType::King
    }
}

/// The lower-case FEN letter of a piece type.
pub open spec fn piece_letter(p: PieceType) -> char {
    match p {
        PieceType::Pawn => 'p',
        PieceType::Knight => 'n',
        PieceType::Bishop => 'b',
        PieceType::Rook => 'r',
        PieceType::Queen => 'q',
        PieceType::King => 'k',
    }
}

/// ASCII upper-casing of a lower-case letter.
pub open spec fn upper(c: char) -> char {
    ((c as u32) - 32) as char
}

/// The piece type a letter names, in either case.
pub open spec fn piece_of_char(c: char) -> Option<PieceType> {
    if c == 'p' || c == 'P' {
        Some(PieceType::Pawn)
    } else if c == 'n' || c == 'N' {
        Some(PieceType::Knight)
    } else if c == 'b' || c == 'B' {
        Some(PieceType::Bishop)
    } else if c == 'r' || c == 'R' {
        Some(PieceType::Rook)
    } else if c == 'q' || c == 'Q' {
        Some(PieceType::Queen)
    } else if c == 'k' || c == 'K' {
        Some(PieceType::King)
    } else {
        None
    }
}

/// The FEN letter of a piece: upper case for white, lower case for black.
pub open spec fn piece_char(p: PieceType, c: Color) -> char {
    if c == Color::White {
        upper(piece_letter(p))
    } else {
        piece_letter(p)
    }
}

impl PieceType {
    pub fn index(self) -> (r: usize)
        ensures
            r == piece_index(self),
    {
        match self {
            PieceType::Pawn => 0,
            PieceType::Knight => 1,
            PieceType::Bishop => 2,
            PieceType::Rook => 3,
            PieceType::Queen => 4,
            PieceType::King => 5,
        }
    }

    /// The piece type with index `i`, in the order pawn, knight, bishop, rook, queen, king.
    pub fn from_index(i: usize) -> (r: PieceType)
        requires
            i < 6,
        ensures
            r == piece_of_index(i as int),
            piece_index(r) == i,
    {
        if i == 0 {
            PieceType::Pawn
        } else if i == 1 {
            PieceType::Knight
        } else if i == 2 {
            PieceType::Bishop
        } else if i == 3 {
            PieceType::Rook
        } else if i == 4 {
            PieceType::Queen
        } else {
            PieceType::King
        }
    }

    pub fn from_char(c: char) -> (r: Option<PieceType>)
        ensures
            r == piece_of_char(c),
    {
        match c {
            'p' | 'P' => Some(PieceType::Pawn),
            'n' | 'N' => Some(PieceType::Knight),
            'b' | 'B' => Some(PieceType::Bishop),
            'r' | 'R' => Some(PieceType::Rook),
            'q' | 'Q' => Some(PieceType::Queen),
            'k' | 'K' => Some(PieceType::King),
            _ => None,
        }
    }

    pub fn to_char(self, color: Color) -> (r: char)
        ensures
            r == piece_char(self, color),
    {
        let white = color == Color::White;
        match self {
            PieceType::Pawn => if white { 'P' } else { 'p' },
            PieceType::Knight => if white { 'N' } else { 'n' },
            PieceType::Bishop => if white { 'B' } else { 'b' },
            PieceType::Rook => if white { 'R' } else { 'r' },
            PieceType::Queen => if white { 'Q' } else { 'q' },
            PieceType::King => if white { 'K' } else { 'k' },
        }
    }
}

#[derive(Clone, Copy, PartialEq, Eq, Structural, Hash, Debug)]
pub struct CastlingRights {
    rights: u8,
}

pub const CASTLE_NONE: u8 = 0;
pub const WHITE_KINGSIDE: u8 = 1;
pub const WHITE_QUEENSIDE: u8 = 2;
pub const BLACK_KINGSIDE: u8 = 4;
pub const BLACK_QUEENSIDE: u8 = 8;
pub const WHITE_BOTH: u8 = 3;
pub const BLACK_BOTH: u8 = 12;
pub const CASTLE_ALL: u8 = 15;

impl CastlingRights {
    pub closed spec fn bits(self) -> u8 {
        self.rights
    }

    /// The rights with the given bits.
    pub closed spec fn of_bits(b: u8) -> CastlingRights {
        CastlingRights { rights: b }
    }

    pub proof fn lemma_of_bits(b: u8)
        ensures
            Self::of_bits(b).bits() == b,
    {
    }

    pub proof fn lemma_bits_eq(x: CastlingRights, y: CastlingRights)
        requires
            x.bits() == y.bits(),
        ensures
            x == y,
    {
    }

    pub fn new(rights: u8) -> (r: CastlingRights)
        ensures
            r.bits() == rights,
    {
        CastlingRights { rights }
    }

    pub fn has(&self, right: u8) -> (r: bool)
        ensures
            r == (self.bits() & right != 0),
    {
        (self.rights & right) != 0
    }

    pub fn add(&mut self, right: u8)
        ensures
            final(self).bits() == old(self).bits() | right,
    {
        self.rights = self.rights | right;
    }

    pub fn remove(&mut self, right: u8)
        ensures
            final(self).bits() == old(self).bits() & !right,
    {
        self.rights = self.rights & !right;
    }

    pub fn get(&self) -> (r: u8)
        ensures
            r == self.bits(),
    {
        self.rights
    }
}

/// A chess position with full state.
#[derive(Clone, Copy, PartialEq, Eq, Debug)]
pub struct Position {
    /// Piece bitboards [color][piece_type].
    pub pieces: [[Bitboard; 6]; 2],
    /// Occupied squares by color.
    pub occupied_by_color: [Bitboard; 2],
    /// All occupied squares.
    pub occupied: Bitboard,
    pub side_to_move: Color,
    pub castling_rights: CastlingRights,
    /// En passant target square, if any.
    pub en_passant_square: Option<u8>,
    /// Halfmove clock for the 50-move rule.
    pub halfmove_clock: u16,
    pub fullmove_number: u16,
    /// Hash of the position, used by the transposition table.
    pub hash: u64,
}

/// A row of boards with `m` or-ed into entry `i`.
pub open spec fn row_or(row: [Bitboard; 6], i: int, m: u64) -> [Bitboard; 6] {
    [
        if i == 0 { Bitboard(row[0].0 | m) } else { row[0] },
        if i == 1 { Bitboard(row[1].0 | m) } else { row[1] },
        if i == 2 { Bitboard(row[2].0 | m) } else { row[2] },
        if i == 3 { Bitboard(row[3].0 | m) } else { row[3] },
        if i == 4 { Bitboard(row[4].0 | m) } else { row[4] },
        if i == 5 { Bitboard(row[5].0 | m) } else { row[5] },
    ]
}

/// A row of boards with entry `i` masked by `m`.
pub open spec fn row_and(row: [Bitboard; 6], i: int, m: u64) -> [Bitboard; 6] {
    [
        if i == 0 { Bitboard(row[0].0 & m) } else { row[0] },
        if i == 1 { Bitboard(row[1].0 & m) } else { row[1] },
        if i == 2 { Bitboard(row[2].0 & m) } else { row[2] },
        if i == 3 { Bitboard(row[3].0 & m) } else { row[3] },
        if i == 4 { Bitboard(row[4].0 & m) } else { row[4] },
        if i == 5 { Bitboard(row[5].0 & m) } else { row[5] },
    ]
}

/// Knight targets of a square, computed by shifting with edge masks.
pub open spec fn knight_attacks(square: u8) -> u64 {
    let bb = 1u64 << square;
    let l1 = (bb >> 1u64) & not_h_file();
    let l2 = (bb >> 2u64) & not_gh_file();
    let r1 = (bb << 1u64) & not_a_file();
    let r2 = (bb << 2u64) & not_ab_file();
    let h1 = l1 | r1;
    let h2 = l2 | r2;
    (h1 << 16u64) | (h1 >> 16u64) | (h2 << 8u64) | (h2 >> 8u64)
}

/// King targets of a square.
pub open spec fn king_attacks(square: u8) -> u64 {
    let bb = 1u64 << square;
    let attacks = ((bb << 1u64) & not_a_file()) | ((bb >> 1u64) & not_h_file());
    let both = bb | attacks;
    (both << 8u64) | (both >> 8u64) | attacks
}

/// Squares from which a pawn of `by` attacks `square`.
pub open spec fn pawn_attackers_of(square: u8, by: Color) -> u64 {
    let t = 1u64 << square;
    if by == Color::White {
        ((t >> 9u64) & not_h_file()) | ((t >> 7u64) & not_a_file())
    } else {
        ((t << 7u64) & not_h_file()) | ((t << 9u64) & not_a_file())
    }
}

impl Position {
    pub open spec fn bb(self, c: Color, p: PieceType) -> u64 {
        self.pieces[color_index(c)][piece_index(p)].0
    }

    pub open spec fn cbb(self, c: Color) -> u64 {
        self.occupied_by_color[color_index(c)].0
    }

    /// The first piece type (pawn first) of colour `c` found on `sq`.
    pub open spec fn type_on(self, c: Color, sq: int) -> Option<PieceType> {
        if bit_at(self.bb(c, PieceType::Pawn), sq) {
            Some(PieceType::Pawn)
        } else if bit_at(self.bb(c, PieceType::Knight), sq) {
            Some(PieceType::Knight)
        } else if bit_at(self.bb(c, PieceType::Bishop), sq) {
            Some(PieceType::Bishop)
        } else if bit_at(self.bb(c, PieceType::Rook), sq) {
            Some(PieceType::Rook)
        } else if bit_at(self.bb(c, PieceType::Queen), sq) {
            Some(PieceType::Queen)
        } else if bit_at(self.bb(c, PieceType::King), sq) {
            Some(PieceType::King)
        } else {
            None
        }
    }

    /// The piece on a square: white is looked at first, and a colour counts only where its
    /// occupancy board has the square.
    pub open spec fn piece_on(self, sq: int) -> Option<(PieceType, Color)> {
        if bit_at(self.cbb(Color::White), sq) && self.type_on(Color::White, sq).is_some() {
            Some((self.type_on(Color::White, sq).unwrap(), Color::White))
        } else if bit_at(self.cbb(Color::Black), sq) && self.type_on(Color::Black, sq).is_some() {
            Some((self.type_on(Color::Black, sq).unwrap(), Color::Black))
        } else {
            None
        }
    }

    /// Whether a piece of `by` attacks `square`: a pawn, knight or king by its step, a bishop,
    /// rook or queen along an open line.
    #[verifier::opaque]
    pub open spec fn attacked_by(self, square: u8, by: Color) -> bool {
        ||| pawn_attackers_of(square, by) & self.bb(by, PieceType::Pawn) != 0
        ||| knight_attacks(square) & self.bb(by, PieceType::Knight) != 0
        ||| king_attacks(square) & self.bb(by, PieceType::King) != 0
        ||| bishop_attacks(square, self.occupied.0) & (self.bb(by, PieceType::Bishop) | self.bb(
            by,
            PieceType::Queen,
        )) != 0
        ||| rook_attacks(square, self.occupied.0) & (self.bb(by, PieceType::Rook) | self.bb(
            by,
            PieceType::Queen,
        )) != 0
    }

    /// Every board keeps its square sets consistent: the colour boards are the unions of the
    /// piece boards and the occupancy is the union of the colour boards.
    pub open spec fn wf(self) -> bool {
        &&& forall|c: Color|
            #![trigger self.cbb(c)]
            self.cbb(c) == self.bb(c, PieceType::Pawn) | self.bb(c, PieceType::Knight) | self.bb(
                c,
                PieceType::Bishop,
            ) | self.bb(c, PieceType::Rook) | self.bb(c, PieceType::Queen) | self.bb(
                c,
                PieceType::King,
            )
        &&& self.occupied.0 == self.cbb(Color::White) | self.cbb(Color::Black)
    }

    /// The position after `put_piece(square, p, c)`.
    pub open spec fn put_spec(self, square: u8, p: PieceType, c: Color, new: Position) -> bool {
        let b = 1u64 << square;
        &&& forall|c2: Color, p2: PieceType|
            #![trigger new.bb(c2, p2)]
            new.bb(c2, p2) == if c2 == c && p2 == p {
                self.bb(c2, p2) | b
            } else {
                self.bb(c2, p2)
            }
        &&& forall|c2: Color|
            #![trigger new.cbb(c2)]
            new.cbb(c2) == if c2 == c {
                self.cbb(c2) | b
            } else {
                self.cbb(c2)
            }
        &&& new.occupied.0 == self.occupied.0 | b
        &&& new.side_to_move == self.side_to_move
        &&& new.castling_rights == self.castling_rights
        &&& new.en_passant_square == self.en_passant_square
        &&& new.halfmove_clock == self.halfmove_clock
        &&& new.fullmove_number == self.fullmove_number
        &&& new.hash == self.hash
    }

    /// The position after `remove_piece(square, p, c)`.
    pub open spec fn remove_spec(self, square: u8, p: PieceType, c: Color, new: Position) -> bool {
        let b = !(1u64 << square);
        &&& forall|c2: Color, p2: PieceType|
            #![trigger new.bb(c2, p2)]
            new.bb(c2, p2) == if c2 == c && p2 == p {
                self.bb(c2, p2) & b
            } else {
                self.bb(c2, p2)
            }
        &&& forall|c2: Color|
            #![trigger new.cbb(c2)]
            new.cbb(c2) == if c2 == c {
                self.cbb(c2) & b
            } else {
                self.cbb(c2)
            }
        &&& new.occupied.0 == self.occupied.0 & b
        &&& new.side_to_move == self.side_to_move
        &&& new.castling_rights == self.castling_rights
        &&& new.en_passant_square == self.en_passant_square
        &&& new.halfmove_clock == self.halfmove_clock
        &&& new.fullmove_number == self.fullmove_number
        &&& new.hash == self.hash
    }

    /// The position with `square` added to the boards of (`c`, `p`), of `c`, and of all pieces.
    pub open spec fn placed(self, square: u8, p: PieceType, c: Color) -> Position {
        let b = 1u64 << square;
        let ci = color_index(c);
        let pi = piece_index(p);
        Position {
            pieces: [
                if ci == 0 { row_or(self.pieces[0], pi, b) } else { self.pieces[0] },
                if ci == 1 { row_or(self.pieces[1], pi, b) } else { self.pieces[1] },
            ],
            occupied_by_color: [
                if ci == 0 { Bitboard(self.occupied_by_color[0].0 | b) } else { self.occupied_by_color[0] },
                if ci == 1 { Bitboard(self.occupied_by_color[1].0 | b) } else { self.occupied_by_color[1] },
            ],
            occupied: Bitboard(self.occupied.0 | b),
            ..self
        }
    }

    /// The position with `square` cleared from the boards of (`c`, `p`), of `c`, and of all pieces.
    pub open spec fn removed(self, square: u8, p: PieceType, c: Color) -> Position {
        let b = !(1u64 << square);
        let ci = color_index(c);
        let pi = piece_index(p);
        Position {
            pieces: [
                if ci == 0 { row_and(self.pieces[0], pi, b) } else { self.pieces[0] },
                if ci == 1 { row_and(self.pieces[1], pi, b) } else { self.pieces[1] },
            ],
            occupied_by_color: [
                if ci == 0 { Bitboard(self.occupied_by_color[0].0 & b) } else { self.occupied_by_color[0] },
                if ci == 1 { Bitboard(self.occupied_by_color[1].0 & b) } else { self.occupied_by_color[1] },
            ],
            occupied: Bitboard(self.occupied.0 & b),
            ..self
        }
    }

    /// The standard starting position with hash `h`.
    pub open spec fn start_layout(h: u64) -> Position {
        Position {
            pieces: [
                [
                    Bitboard(0x0000_0000_0000_FF00),
                    Bitboard(0x0000_0000_0000_0042),
                    Bitboard(0x0000_0000_0000_0024),
                    Bitboard(0x0000_0000_0000_0081),
                    Bitboard(0x0000_0000_0000_0008),
                    Bitboard(0x0000_0000_0000_0010),
                ],
                [
                    Bitboard(0x00FF_0000_0000_0000),
                    Bitboard(0x4200_0000_0000_0000),
                    Bitboard(0x2400_0000_0000_0000),
                    Bitboard(0x8100_0000_0000_0000),
                    Bitboard(0x0800_0000_0000_0000),
                    Bitboard(0x1000_0000_0000_0000),
                ],
            ],
            occupied_by_color: [Bitboard(0x0000_0000_0000_FFFF), Bitboard(0xFFFF_0000_0000_0000)],
            occupied: Bitboard(0xFFFF_0000_0000_FFFF),
            side_to_move: Color::White,
            castling_rights: CastlingRights::of_bits(CASTLE_ALL),
            en_passant_square: None,
            halfmove_clock: 0,
            fullmove_number: 1,
            hash: h,
        }
    }

    /// The standard starting position.
    pub fn startpos() -> (r: Position)
        ensures
            r == Position::start_layout(r.hash),
            r == Position::start_layout(0).rehashed(),
            r.wf(),
    {
        let mut r = Position {
            pieces: [
                [
                    Bitboard(0x0000_0000_0000_FF00),
                    Bitboard(0x0000_0000_0000_0042),
                    Bitboard(0x0000_0000_0000_0024),
                    Bitboard(0x0000_0000_0000_0081),
                    Bitboard(0x0000_0000_0000_0008),
                    Bitboard(0x0000_0000_0000_0010),
                ],
                [
                    Bitboard(0x00FF_0000_0000_0000),
                    Bitboard(0x4200_0000_0000_0000),
                    Bitboard(0x2400_0000_0000_0000),
                    Bitboard(0x8100_0000_0000_0000),
                    Bitboard(0x0800_0000_0000_0000),
                    Bitboard(0x1000_0000_0000_0000),
                ],
            ],
            occupied_by_color: [Bitboard(0x0000_0000_0000_FFFF), Bitboard(0xFFFF_0000_0000_0000)],
            occupied: Bitboard(0xFFFF_0000_0000_FFFF),
            side_to_move: Color::White,
            castling_rights: CastlingRights::new(CASTLE_ALL),
            en_passant_square: None,
            halfmove_clock: 0,
            fullmove_number: 1,
            hash: 0,
        };
        r.update_hash();
        proof {
            CastlingRights::lemma_of_bits(CASTLE_ALL);
            CastlingRights::lemma_bits_eq(r.castling_rights, CastlingRights::of_bits(CASTLE_ALL));
            assert(0x0000_0000_0000_FF00u64 | 0x42u64 | 0x24u64 | 0x81u64 | 0x08u64 | 0x10u64 == 0xFFFFu64) by (bit_vector);
            assert(0x00FF_0000_0000_0000u64 | 0x4200_0000_0000_0000u64 | 0x2400_0000_0000_0000u64
                | 0x8100_0000_0000_0000u64 | 0x0800_0000_0000_0000u64 | 0x1000_0000_0000_0000u64
                == 0xFFFF_0000_0000_0000u64) by (bit_vector);
            assert(0xFFFFu64 | 0xFFFF_0000_0000_0000u64 == 0xFFFF_0000_0000_FFFFu64) by (bit_vector);
            assert(Position::start_layout(0).board_words() =~= Position::start_layout(r.hash).board_words());
        }
        r
    }

    /// An empty position: no pieces, white to move, no castling rights, move number 1.
    pub fn empty() -> (r: Position)
        ensures
            forall|c: Color, p: PieceType| #[trigger] r.bb(c, p) == 0,
            forall|c: Color| #[trigger] r.cbb(c) == 0,
            r.occupied.0 == 0,
            r.side_to_move == Color::White,
            r.castling_rights.bits() == 0,
            r.en_passant_square.is_none(),
            r.halfmove_clock == 0,
            r.fullmove_number == 1,
            r.hash == 0,
            r.wf(),
    {
        let e = Bitboard(0);
        let r = Position {
            pieces: [[e, e, e, e, e, e], [e, e, e, e, e, e]],
            occupied_by_color: [e, e],
            occupied: e,
            side_to_move: Color::White,
            castling_rights: CastlingRights::new(CASTLE_NONE),
            en_passant_square: None,
            halfmove_clock: 0,
            fullmove_number: 1,
            hash: 0,
        };
        assert(0u64 | 0u64 == 0u64) by (bit_vector);
        r
    }

    /// Put a piece on a square.
    pub fn put_piece(&mut self, square: u8, piece_type: PieceType, color: Color)
        requires
            square < 64,
        ensures
            old(self).put_spec(square, piece_type, color, *final(self)),
            *final(self) == old(self).placed(square, piece_type, color),
    {
        let bb = Bitboard::from_square(square);
        let ci = color.index();
        let pi = piece_type.index();
        self.pieces[ci][pi] = Bitboard(self.pieces[ci][pi].0 | bb.0);
        self.occupied_by_color[ci] = Bitboard(self.occupied_by_color[ci].0 | bb.0);
        self.occupied = Bitboard(self.occupied.0 | bb.0);
        proof {
            let w = old(self).placed(square, piece_type, color);
            assert(self.pieces[0] =~= w.pieces[0]);
            assert(self.pieces[1] =~= w.pieces[1]);
            assert(self.pieces =~= w.pieces);
            assert(self.occupied_by_color =~= w.occupied_by_color);
        }
    }

    /// Remove a piece from a square.
    pub fn remove_piece(&mut self, square: u8, piece_type: PieceType, color: Color)
        requires
            square < 64,
        ensures
            old(self).remove_spec(square, piece_type, color, *final(self)),
            *final(self) == old(self).removed(square, piece_type, color),
    {
        let bb = !Bitboard::from_square(square).0;
        let ci = color.index();
        let pi = piece_type.index();
        self.pieces[ci][pi] = Bitboard(self.pieces[ci][pi].0 & bb);
        self.occupied_by_color[ci] = Bitboard(self.occupied_by_color[ci].0 & bb);
        self.occupied = Bitboard(self.occupied.0 & bb);
        proof {
            let w = old(self).removed(square, piece_type, color);
            assert(self.pieces[0] =~= w.pieces[0]);
            assert(self.pieces[1] =~= w.pieces[1]);
            assert(self.pieces =~= w.pieces);
            assert(self.occupied_by_color =~= w.occupied_by_color);
        }
    }

    fn type_at(&self, color: Color, square: u8) -> (r: Option<PieceType>)
        requires
            square < 64,
        ensures
            r == self.type_on(color, square as int),
    {
        let ci = color.index();
        if self.pieces[ci][0].test_bit(square) {
            Some(PieceType::Pawn)
        } else if self.pieces[ci][1].test_bit(square) {
            Some(PieceType::Knight)
        } else if self.pieces[ci][2].test_bit(square) {
            Some(PieceType::Bishop)
        } else if self.pieces[ci][3].test_bit(square) {
            Some(PieceType::Rook)
        } else if self.pieces[ci][4].test_bit(square) {
            Some(PieceType::Queen)
        } else if self.pieces[ci][5].test_bit(square) {
            Some(PieceType::King)
        } else {
            None
        }
    }

    /// The piece standing on a square, if any.
    pub fn piece_at(&self, square: u8) -> (r: Option<(PieceType, Color)>)
        requires
            square < 64,
        ensures
            r == self.piece_on(square as int),
    {
        let bb = Bitboard::from_square(square);
        proof {
            lemma_test_bit(self.cbb(Color::White), square);
            lemma_test_bit(self.cbb(Color::Black), square);
        }
        if (self.occupied_by_color[0].0 & bb.0) != 0 {
            if let Some(pt) = self.type_at(Color::White, square) {
                return Some((pt, Color::White));
            }
        }
        if (self.occupied_by_color[1].0 & bb.0) != 0 {
            if let Some(pt) = self.type_at(Color::Black, square) {
                return Some((pt, Color::Black));
            }
        }
        None
    }

    /// Board of one piece type and colour.
    pub fn piece_bb(&self, piece_type: PieceType, color: Color) -> (r: Bitboard)
        ensures
            r.0 == self.bb(color, piece_type),
    {
        self.pieces[color.index()][piece_type.index()]
    }

    /// Board of all pieces of a colour.
    pub fn color_bb(&self, color: Color) -> (r: Bitboard)
        ensures
            r.0 == self.cbb(color),
    {
        self.occupied_by_color[color.index()]
    }

    /// The twelve piece boards, white's six then black's six, each in piece-type order.
    pub open spec fn board_words(self) -> Seq<u64> {
        Seq::new(12, |k: int| self.pieces[k / 6][k % 6].0)
    }

    /// The byte that stands for the side to move: 0 for white, 1 for black.
    pub open spec fn side_byte(self) -> u8 {
        match self.side_to_move {
            Color::White => 0,
            Color::Black => 1,
        }
    }

    /// The hash that the piece boards, side to move, castling rights and en passant square give.
    pub open spec fn hash_of(self) -> u64 {
        crate::hashing::hash_value(self.board_words(), self.side_byte(), self.castling_rights.bits(), self.en_passant_square)
    }

    /// The position with its hash recomputed from the rest.
    pub open spec fn rehashed(self) -> Position {
        Position { hash: self.hash_of(), ..self }
    }

    /// Recompute the hash from the piece boards, side to move, castling rights and en passant
    /// square. Only the hash changes.
    pub fn update_hash(&mut self)
        ensures
            final(self).pieces == old(self).pieces,
            final(self).occupied_by_color == old(self).occupied_by_color,
            final(self).occupied == old(self).occupied,
            final(self).side_to_move == old(self).side_to_move,
            final(self).castling_rights == old(self).castling_rights,
            final(self).en_passant_square == old(self).en_passant_square,
            final(self).halfmove_clock == old(self).halfmove_clock,
            final(self).fullmove_number == old(self).fullmove_number,
            final(self).hash == old(self).hash_of(),
    {
        let mut boards: [u64; 12] = [0; 12];
        let mut k: usize = 0;
        while k < 12
            invariant
                k <= 12,
                forall|j: int| 0 <= j < k ==> boards@[j] == #[trigger] self.board_words()[j],
            decreases 12 - k,
        {
            boards[k] = self.pieces[k / 6][k % 6].0;
            k = k + 1;
        }
        assert(boards@ =~= self.board_words());
        let side: u8 = match self.side_to_move {
            Color::White => 0,
            Color::Black => 1,
        };
        self.hash = crate::hashing::position_hash(boards, side, self.castling_rights.get(), self.en_passant_square);
    }

    /// Whether the king of `c` stands on a square attacked by the other side (see
    /// `attacked_by`); a side without a king is not in check.
    pub open spec fn in_check(self, c: Color) -> bool {
        let k = self.bb(c, PieceType::King);
        k != 0 && self.attacked_by(u64_tz(k), opp(c))
    }

    /// No square is on two piece boards.
    pub open spec fn disjoint_boards(self) -> bool {
        forall|c1: Color, t1: PieceType, c2: Color, t2: PieceType, s: int|
            #![trigger bit_at(self.bb(c1, t1), s), bit_at(self.bb(c2, t2), s)]
            bit_at(self.bb(c1, t1), s) && bit_at(self.bb(c2, t2), s) ==> c1 == c2 && t1 == t2
    }

    /// On a well-formed position, a colour's board has a square exactly when one of its piece
    /// boards has it.
    pub proof fn lemma_color_bits(self, c: Color, s: int)
        requires
            self.wf(),
        ensures
            bit_at(self.cbb(c), s) <==> (bit_at(self.bb(c, PieceType::Pawn), s) || bit_at(
                self.bb(c, PieceType::Knight),
                s,
            ) || bit_at(self.bb(c, PieceType::Bishop), s) || bit_at(self.bb(c, PieceType::Rook), s)
                || bit_at(self.bb(c, PieceType::Queen), s) || bit_at(self.bb(c, PieceType::King), s)),
    {
        let b0 = self.bb(c, PieceType::Pawn);
        let b1 = self.bb(c, PieceType::Knight);
        let b2 = self.bb(c, PieceType::Bishop);
        let b3 = self.bb(c, PieceType::Rook);
        let b4 = self.bb(c, PieceType::Queen);
        let b5 = self.bb(c, PieceType::King);
        lemma_or_bits(b0, b1);
        lemma_or_bits(b0 | b1, b2);
        lemma_or_bits(b0 | b1 | b2, b3);
        lemma_or_bits(b0 | b1 | b2 | b3, b4);
        lemma_or_bits(b0 | b1 | b2 | b3 | b4, b5);
        assert(self.cbb(c) == b0 | b1 | b2 | b3 | b4 | b5);
    }

    /// A piece put on an empty square is then found there, and every other square keeps its
    /// piece.
    pub proof fn lemma_piece_on_after_put(self, new: Position, square: u8, t: PieceType, c: Color)
        requires
            self.wf(),
            self.disjoint_boards(),
            square < 64,
            self.piece_on(square as int) is None,
            self.put_spec(square, t, c, new),
        ensures
            new.piece_on(square as int) == Some((t, c)),
            forall|s: int| 0 <= s < 64 && s != square ==> #[trigger] new.piece_on(s) == self.piece_on(s),
    {
        let sq = square as int;
        assert forall|c2: Color, t2: PieceType| !#[trigger] bit_at(self.bb(c2, t2), sq) by {
            if bit_at(self.bb(c2, t2), sq) {
                self.lemma_color_bits(c2, sq);
                self.lemma_color_bits(Color::White, sq);
            }
        }
        assert forall|c2: Color, t2: PieceType, s: int| #[trigger] bit_at(new.bb(c2, t2), s) <==> (bit_at(
            self.bb(c2, t2),
            s,
        ) || (c2 == c && t2 == t && s == sq)) by {
            lemma_set_bit(self.bb(c2, t2), square);
        }
        assert forall|c2: Color, s: int| #[trigger] bit_at(new.cbb(c2), s) <==> (bit_at(self.cbb(c2), s)
            || (c2 == c && s == sq)) by {
            lemma_set_bit(self.cbb(c2), square);
        }
        self.lemma_color_bits(Color::White, sq);
        self.lemma_color_bits(Color::Black, sq);
        assert(new.type_on(c, sq) == Some(t));
    }

    /// A piece put on an empty square and then removed again leaves the position as it was.
    pub proof fn lemma_put_then_remove(self, square: u8, t: PieceType, c: Color)
        requires
            self.wf(),
            square < 64,
            self.piece_on(square as int) is None,
        ensures
            self.placed(square, t, c).removed(square, t, c) == self,
    {
        let sq = square as int;
        self.lemma_color_bits(Color::White, sq);
        self.lemma_color_bits(Color::Black, sq);
        assert(!bit_at(self.cbb(Color::White), sq) || self.type_on(Color::White, sq) is None);
        assert(!bit_at(self.cbb(Color::White), sq));
        assert(!bit_at(self.cbb(Color::Black), sq));
        assert forall|x: u64| !#[trigger] bit_at(x, sq) implies (x | (1u64 << square)) & !(1u64 << square) == x by {
            lemma_clear_set_bit(x, square);
        }
        lemma_or_bits(self.cbb(Color::White), self.cbb(Color::Black));
        assert(!bit_at(self.bb(c, t), sq));
        assert(!bit_at(self.occupied.0, sq));
        let b = 1u64 << square;
        assert((self.bb(c, t) | b) & !b == self.bb(c, t));
        assert((self.cbb(c) | b) & !b == self.cbb(c));
        assert((self.occupied.0 | b) & !b == self.occupied.0);
        let q = self.placed(square, t, c).removed(square, t, c);
        let ci = color_index(c);
        let pi = piece_index(t);
        assert(q.pieces[ci][pi].0 == self.pieces[ci][pi].0);
        assert(q.pieces[0] =~= self.pieces[0]);
        assert(q.pieces[1] =~= self.pieces[1]);
        assert(q.pieces =~= self.pieces);
        assert(q.occupied_by_color =~= self.occupied_by_color);
    }

    /// Attacks depend on the boards alone.
    pub proof fn lemma_in_check_boards(a: Position, b: Position, c: Color)
        requires
            a.pieces == b.pieces,
            a.occupied == b.occupied,
        ensures
            a.in_check(c) == b.in_check(c),
    {
        reveal(Position::attacked_by);
    }

    /// Whether the side to move's king is attacked, by a pawn, knight, bishop, rook, queen or
    /// king of the other side (see `is_square_attacked`).
    pub fn is_check(&self) -> (r: bool)
        ensures
            r == self.in_check(self.side_to_move),
    {
        let king = self.piece_bb(PieceType::King, self.side_to_move);
        if king.is_empty() {
            return false;
        }
        let king_square = king.lsb();
        self.is_square_attacked(king_square, self.side_to_move.opposite())
    }

    /// Whether a square is attacked by a piece of `by_color`.
    pub fn is_square_attacked(&self, square: u8, by_color: Color) -> (r: bool)
        requires
            square < 64,
        ensures
            r == self.attacked_by(square, by_color),
    {
        reveal(Position::attacked_by);
        let target = Bitboard::from_square(square);
        let pawn_attacks = if by_color == Color::White {
            target.south_west().0 | target.south_east().0
        } else {
            target.north_west().0 | target.north_east().0
        };
        if (pawn_attacks & self.piece_bb(PieceType::Pawn, by_color).0) != 0 {
            return true;
        }
        let knight = get_knight_attacks(square);
        if (knight.0 & self.piece_bb(PieceType::Knight, by_color).0) != 0 {
            return true;
        }
        let king = get_king_attacks(square);
        if (king.0 & self.piece_bb(PieceType::King, by_color).0) != 0 {
            return true;
        }
        let diagonal_sliders = self.piece_bb(PieceType::Bishop, by_color).0 | self.piece_bb(
            PieceType::Queen,
            by_color,
        ).0;
        if (get_bishop_attacks(square, self.occupied).0 & diagonal_sliders) != 0 {
            return true;
        }
        let straight_sliders = self.piece_bb(PieceType::Rook, by_color).0 | self.piece_bb(
            PieceType::Queen,
            by_color,
        ).0;
        (get_rook_attacks(square, self.occupied).0 & straight_sliders) != 0
    }
}

/// Least significant set square of a board (64 when empty).
pub open spec fn u64_tz(x: u64) -> u8 {
    vstd::std_specs::bits::u64_trailing_zeros(x) as u8
}

pub fn get_knight_attacks(square: u8) -> (r: Bitboard)
    requires
        square < 64,
    ensures
        r.0 == knight_attacks(square),
{
    let bb = Bitboard::from_square(square).0;
    let l1 = (bb >> 1) & NOT_H_FILE_BB;
    let l2 = (bb >> 2) & NOT_GH_FILE_BB;
    let r1 = (bb << 1) & NOT_A_FILE_BB;
    let r2 = (bb << 2) & NOT_AB_FILE_BB;
    let h1 = l1 | r1;
    let h2 = l2 | r2;
    Bitboard((h1 << 16) | (h1 >> 16) | (h2 << 8) | (h2 >> 8))
}

pub fn get_king_attacks(square: u8) -> (r: Bitboard)
    requires
        square < 64,
    ensures
        r.0 == king_attacks(square),
{
    let bb = Bitboard::from_square(square);
    let attacks = bb.east().0 | bb.west().0;
    let both = Bitboard(bb.0 | attacks);
    Bitboard(both.north().0 | both.south().0 | attacks)
}

/// Setting then clearing a bit that was clear gives the word back.
pub proof fn lemma_clear_set_bit(x: u64, square: u8)
    requires
        square < 64,
        !bit_at(x, square as int),
    ensures
        (x | (1u64 << square)) & !(1u64 << square) == x,
{
    let s = square as u64;
    assert(s < 64 && (x >> s) & 1u64 != 1u64 ==> (x | (1u64 << s)) & !(1u64 << s) == x) by (bit_vector);
}

} // verus!
