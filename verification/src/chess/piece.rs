use vstd::prelude::*;

verus! {

#[derive(Clone, Copy, PartialEq, Eq, Structural, Hash, Debug)]
pub enum Color {
    White,
    Black,
}

/// The other side.
pub open spec fn opposite_color(c: Color) -> Color {
    match c {
        Color::White => Color::Black,
        Color::Black => Color::White,
    }
}

impl Color {
    pub fn opposite(self) -> (r: Color)
        ensures
            r == opposite_color(self),
    {
        match self {
            Color::White => Color::Black,
            Color::Black => Color::White,
        }
    }
}

#[derive(Clone, Copy, PartialEq, Eq, Structural, Hash, Debug)]
pub enum PieceType {
    Pawn,
    Knight,
    Bishop,
    Rook,
    Queen,
    King,
}

#[derive(Clone, Copy, PartialEq, Eq, Structural, Hash, Debug)]
pub struct Piece {
    pub piece_type: PieceType,
    pub color: Color,
}

/// The piece a FEN letter names: upper case white, lower case black.
pub open spec fn piece_of_fen_char(c: char) -> Option<Piece> {
    let t = if c == 'p' || c == 'P' {
        Some(PieceType::Pawn)
    } else if c == 'n' || c == 'N' {
        Some(PieceType::Knight)
    } else if c == 'b' || c == 'B' {
        Some(PieceType::Bishop)
    } else if c == 'r' || c == 'R' {
        Some(PieceType::Rook)
    } else if c == 'q' || c == 'Q' {
        Some(PieceType::Queen)
    } else if c == 'k' || c == 'K' {
        Some(PieceType::King)
    } else {
        None
    };
    match t {
        Some(pt) => Some(
            Piece { piece_type: pt, color: if 'A' <= c <= 'Z' { Color::White } else { Color::Black } },
        ),
        None => None,
    }
}

/// The FEN letter of a piece.
pub open spec fn fen_char_of(p: Piece) -> char {
    let lower = match p.piece_type {
        PieceType::Pawn => 'p',
        PieceType::Knight => 'n',
        PieceType::Bishop => 'b',
        PieceType::Rook => 'r',
        PieceType::Queen => 'q',
        PieceType::King => 'k',
    };
    if p.color == Color::White {
        ((lower as u32) - 32) as char
    } else {
        lower
    }
}

impl Piece {
    pub fn new(piece_type: PieceType, color: Color) -> (r: Piece)
        ensures
            r == (Piece { piece_type, color }),
    {
        Piece { piece_type, color }
    }

    pub fn from_fen_char(c: char) -> (r: Option<Piece>)
        ensures
            r == piece_of_fen_char(c),
    {
        let t = match c {
            'p' | 'P' => PieceType::Pawn,
            'n' | 'N' => PieceType::Knight,
            'b' | 'B' => PieceType::Bishop,
            'r' | 'R' => PieceType::Rook,
            'q' | 'Q' => PieceType::Queen,
            'k' | 'K' => PieceType::King,
            _ => return None,
        };
        let color = if 'A' <= c && c <= 'Z' {
            Color::White
        } else {
            Color::Black
        };
        Some(Piece { piece_type: t, color })
    }

    pub fn to_fen_char(&self) -> (r: char)
        ensures
            r == fen_char_of(*self),
    {
        let white = self.color == Color::White;
        match self.piece_type {
            PieceType::Pawn => if white { 'P' } else { 'p' },
            PieceType::Knight => if white { 'N' } else { 'n' },
            PieceType::Bishop => if white { 'B' } else { 'b' },
            PieceType::Rook => if white { 'R' } else { 'r' },
            PieceType::Queen => if white { 'Q' } else { 'q' },
            PieceType::King => if white { 'K' } else { 'k' },
        }
    }
}

/// A FEN letter read back gives the piece that wrote it.
pub proof fn lemma_fen_char_roundtrip(p: Piece)
    ensures
        piece_of_fen_char(fen_char_of(p)) == Some(p),
{
}

} // verus!
