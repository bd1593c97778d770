use vstd::prelude::*;
use crate::chess::board::{Board, Position, cell, position_name};
use crate::chess::piece::{Color, Piece, PieceType};
use crate::text::{push_str_chars, string_from_chars, str_chars};

verus! {

/// A move from one square to another, with the piece a pawn becomes when it promotes.
#[derive(Clone, Copy, PartialEq, Eq, Structural, Debug)]
pub struct Move {
    pub from: Position,
    pub to: Position,
    pub promotion: Option<PieceType>,
}

/// The letter written after '=' for a promotion piece.
pub open spec fn promotion_letter(t: PieceType) -> char {
    match t {
        PieceType::Queen => 'q',
        PieceType::Rook => 'r',
        PieceType::Bishop => 'b',
        _ => 'n',
    }
}

/// Whether a piece type can be written as a promotion (queen, rook, bishop or knight).
pub open spec fn writable_promotion(p: Option<PieceType>) -> bool {
    match p {
        Some(t) => t != PieceType::Pawn && t != PieceType::King,
        None => true,
    }
}

/// The algebraic text of a move: both squares, then "=q" and the like for a promotion.
pub open spec fn move_text(m: Move) -> Seq<char> {
    position_name(m.from) + position_name(m.to) + match m.promotion {
        Some(t) => seq!['=', promotion_letter(t)],
        None => Seq::empty(),
    }
}

impl Move {
    pub fn new(from: Position, to: Position) -> (r: Move)
        ensures
            r == (Move { from, to, promotion: None }),
    {
        Move { from, to, promotion: None }
    }

    pub fn with_promotion(from: Position, to: Position, promotion: PieceType) -> (r: Move)
        ensures
            r == (Move { from, to, promotion: Some(promotion) }),
    {
        Move { from, to, promotion: Some(promotion) }
    }

    /// The move in algebraic notation, such as "e7e8=q". A pawn or king cannot be written as a
    /// promotion.
    pub fn to_algebraic(&self) -> (r: String)
        requires
            writable_promotion(self.promotion),
        ensures
            r@ == move_text(*self),
    {
        let from = self.from.to_algebraic();
        let to = self.to.to_algebraic();
        let mut out: Vec<char> = str_chars(from.as_str());
        push_str_chars(&mut out, to.as_str());
        if let Some(promotion) = self.promotion {
            let promotion_char = match promotion {
                PieceType::Queen => 'q',
                PieceType::Rook => 'r',
                PieceType::Bishop => 'b',
                _ => 'n',
            };
            out.push('=');
            out.push(promotion_char);
        }
        assert(out@ =~= move_text(*self));
        string_from_chars(&out)
    }
}

/// What a move did.
#[derive(Clone, Copy, PartialEq, Eq, Structural, Debug)]
pub enum MoveResult {
    Normal,
    Capture(Piece),
    Castle,
    EnPassant,
    Promotion,
    Check,
    Checkmate,
    Stalemate,
    Draw,
}

/// The square at file `f`, rank `r`.
pub open spec fn sq(f: int, r: int) -> Position {
    Position { file: f as usize, rank: r as usize }
}

/// The square `df` files and `dr` rows away from `pos`, when it is on the board.
pub open spec fn offset_target(pos: Position, df: int, dr: int) -> Option<Position> {
    if 0 <= pos.file + df < 8 && 0 <= pos.rank + dr < 8 {
        Some(sq(pos.file + df, pos.rank + dr))
    } else {
        None
    }
}

/// A square a piece of `color` may step to: on the board, and empty or held by the other side.
pub open spec fn valid_target(v: Seq<Seq<Option<Piece>>>, pos: Position, color: Color) -> bool {
    pos.rank < 8 && pos.file < 8 && match cell(v, pos) {
        Some(p) => p.color != color,
        None => true,
    }
}

/// The knight's jumps, (file, row) offsets in the order they are tried.
pub open spec fn knight_offsets() -> Seq<(isize, isize)> {
    seq![
        (-2isize, -1isize),
        (-2isize, 1isize),
        (-1isize, -2isize),
        (-1isize, 2isize),
        (1isize, -2isize),
        (1isize, 2isize),
        (2isize, -1isize),
        (2isize, 1isize),
    ]
}

/// The king's steps, in the order they are tried.
pub open spec fn king_offsets() -> Seq<(isize, isize)> {
    seq![
        (-1isize, -1isize),
        (-1isize, 0isize),
        (-1isize, 1isize),
        (0isize, -1isize),
        (0isize, 1isize),
        (1isize, -1isize),
        (1isize, 0isize),
        (1isize, 1isize),
    ]
}

/// The bishop's diagonals, in the order they are walked.
pub open spec fn bishop_dirs() -> Seq<(isize, isize)> {
    seq![(-1isize, -1isize), (-1isize, 1isize), (1isize, -1isize), (1isize, 1isize)]
}

/// The rook's lines, in the order they are walked.
pub open spec fn rook_dirs() -> Seq<(isize, isize)> {
    seq![(-1isize, 0isize), (1isize, 0isize), (0isize, -1isize), (0isize, 1isize)]
}

/// Targets of single steps by the given offsets, in order.
pub open spec fn step_targets(
    v: Seq<Seq<Option<Piece>>>,
    pos: Position,
    color: Color,
    offs: Seq<(isize, isize)>,
) -> Seq<Position>
    decreases offs.len(),
{
    if offs.len() == 0 {
        Seq::empty()
    } else {
        step_targets(v, pos, color, offs.drop_last()) + match offset_target(
            pos,
            offs.last().0 as int,
            offs.last().1 as int,
        ) {
            Some(t) => if valid_target(v, t, color) {
                seq![t]
            } else {
                Seq::empty()
            },
            None => Seq::empty(),
        }
    }
}

/// The squares along a line from `pos` (not included), up to `n` steps: empty squares, then an
/// enemy piece's square if one ends the line.
pub open spec fn ray(
    v: Seq<Seq<Option<Piece>>>,
    pos: Position,
    color: Color,
    df: int,
    dr: int,
    n: nat,
) -> Seq<Position>
    decreases n,
{
    if n == 0 {
        Seq::empty()
    } else {
        match offset_target(pos, df, dr) {
            None => Seq::empty(),
            Some(t) => match cell(v, t) {
                Some(p) => if p.color != color {
                    seq![t]
                } else {
                    Seq::empty()
                },
                None => seq![t] + ray(v, t, color, df, dr, (n - 1) as nat),
            },
        }
    }
}

/// The lines walked in the given directions, in order. Eight steps reach past any edge of the board.
pub open spec fn slide_targets(
    v: Seq<Seq<Option<Piece>>>,
    pos: Position,
    color: Color,
    dirs: Seq<(isize, isize)>,
) -> Seq<Position>
    decreases dirs.len(),
{
    if dirs.len() == 0 {
        Seq::empty()
    } else {
        slide_targets(v, pos, color, dirs.drop_last()) + ray(
            v,
            pos,
            color,
            dirs.last().0 as int,
            dirs.last().1 as int,
            8,
        )
    }
}

/// The row direction in which a pawn of `color` advances (white moves up the board).
pub open spec fn pawn_dir(color: Color) -> int {
    if color == Color::White {
        -1
    } else {
        1
    }
}

/// A pawn's capture toward file offset `off`: onto a square that holds an enemy piece.
pub open spec fn pawn_capture(v: Seq<Seq<Option<Piece>>>, pos: Position, color: Color, off: int) -> Seq<
    Position,
> {
    match offset_target(pos, off, pawn_dir(color)) {
        Some(t) => match cell(v, t) {
            Some(p) => if p.color != color {
                seq![t]
            } else {
                Seq::empty()
            },
            None => Seq::empty(),
        },
        None => Seq::empty(),
    }
}

/// A pawn's pushes: one square forward when empty, and a second from its starting row.
pub open spec fn pawn_pushes(v: Seq<Seq<Option<Piece>>>, pos: Position, color: Color) -> Seq<Position> {
    let start: usize = if color == Color::White {
        6
    } else {
        1
    };
    match offset_target(pos, 0, pawn_dir(color)) {
        Some(t) => if cell(v, t) is None {
            seq![t] + (if pos.rank == start {
                match offset_target(t, 0, pawn_dir(color)) {
                    Some(t2) => if cell(v, t2) is None {
                        seq![t2]
                    } else {
                        Seq::empty()
                    },
                    None => Seq::empty(),
                }
            } else {
                Seq::empty()
            })
        } else {
            Seq::empty()
        },
        None => Seq::empty(),
    }
}

/// A pawn's moves: pushes, then captures toward file a, then toward file h.
pub open spec fn pawn_targets(v: Seq<Seq<Option<Piece>>>, pos: Position, color: Color) -> Seq<Position> {
    pawn_pushes(v, pos, color) + pawn_capture(v, pos, color, -1) + pawn_capture(v, pos, color, 1)
}

/// The squares the piece on `pos` can move to, by its type and colour (no castling, no en
/// passant, and no test of whether the own king is left in check).
pub open spec fn piece_targets(v: Seq<Seq<Option<Piece>>>, pos: Position) -> Seq<Position> {
    match cell(v, pos) {
        None => Seq::empty(),
        Some(p) => match p.piece_type {
            PieceType::Pawn => pawn_targets(v, pos, p.color),
            PieceType::Knight => step_targets(v, pos, p.color, knight_offsets()),
            PieceType::Bishop => slide_targets(v, pos, p.color, bishop_dirs()),
            PieceType::Rook => slide_targets(v, pos, p.color, rook_dirs()),
            PieceType::Queen => slide_targets(v, pos, p.color, bishop_dirs()) + slide_targets(
                v,
                pos,
                p.color,
                rook_dirs(),
            ),
            PieceType::King => step_targets(v, pos, p.color, king_offsets()),
        },
    }
}

/// The squares the piece on `pos` can move to; an empty square gives none. The colour argument
/// is not consulted: the piece's own colour decides.
pub fn generate_legal_moves(board: &Board, pos: Position, _color: Color) -> (r: Vec<Position>)
    ensures
        r@ == piece_targets(board@, pos),
{
    let piece = match board.get_piece(pos) {
        Some(p) => p,
        None => return Vec::new(),
    };
    match piece.piece_type {
        PieceType::Pawn => generate_pawn_moves(board, pos, piece.color),
        PieceType::Knight => generate_knight_moves(board, pos, piece.color),
        PieceType::Bishop => generate_bishop_moves(board, pos, piece.color),
        PieceType::Rook => generate_rook_moves(board, pos, piece.color),
        PieceType::Queen => {
            let mut moves = generate_bishop_moves(board, pos, piece.color);
            let mut rook = generate_rook_moves(board, pos, piece.color);
            moves.append(&mut rook);
            moves
        },
        PieceType::King => generate_king_moves(board, pos, piece.color),
    }
}

/// The square `df` files and `dr` rows away, when it is on the board.
fn offset_square(pos: Position, df: isize, dr: isize) -> (r: Option<Position>)
    requires
        pos.rank < 8,
        pos.file < 8,
        -8 <= df <= 8,
        -8 <= dr <= 8,
    ensures
        r == offset_target(pos, df as int, dr as int),
{
    let nf = pos.file as isize + df;
    let nr = pos.rank as isize + dr;
    if 0 <= nf && nf < 8 && 0 <= nr && nr < 8 {
        Some(Position::new(nf as usize, nr as usize))
    } else {
        None
    }
}

fn is_valid_target(board: &Board, pos: Position, color: Color) -> (r: bool)
    ensures
        r == valid_target(board@, pos, color),
{
    if pos.rank >= 8 || pos.file >= 8 {
        return false;
    }
    match board.get_piece(pos) {
        Some(piece) => piece.color != color,
        None => true,
    }
}

fn generate_pawn_moves(board: &Board, pos: Position, color: Color) -> (r: Vec<Position>)
    requires
        pos.rank < 8,
        pos.file < 8,
    ensures
        r@ == pawn_targets(board@, pos, color),
{
    let mut moves: Vec<Position> = Vec::new();
    let direction: isize = if color == Color::White {
        -1
    } else {
        1
    };
    let start_rank: usize = if color == Color::White {
        6
    } else {
        1
    };
    if let Some(forward) = offset_square(pos, 0, direction) {
        if board.get_piece(forward).is_none() {
            moves.push(forward);
            if pos.rank == start_rank {
                if let Some(double_forward) = offset_square(forward, 0, direction) {
                    if board.get_piece(double_forward).is_none() {
                        moves.push(double_forward);
                    }
                }
            }
        }
    }
    assert(moves@ =~= pawn_pushes(board@, pos, color));
    let ghost pushes = moves@;
    let file_offsets: [isize; 2] = [-1, 1];
    let mut i: usize = 0;
    while i < 2
        invariant
            i <= 2,
            pos.rank < 8,
            pos.file < 8,
            direction == pawn_dir(color),
            file_offsets@ == seq![-1isize, 1isize],
            moves@ == pushes + (if i >= 1 {
                pawn_capture(board@, pos, color, -1)
            } else {
                Seq::empty()
            }) + (if i >= 2 {
                pawn_capture(board@, pos, color, 1)
            } else {
                Seq::empty()
            }),
        decreases 2 - i,
    {
        let off = file_offsets[i];
        if let Some(capture_pos) = offset_square(pos, off, direction) {
            if let Some(piece) = board.get_piece(capture_pos) {
                if piece.color != color {
                    moves.push(capture_pos);
                }
            }
        }
        i = i + 1;
        assert(moves@ =~= pushes + (if i >= 1 {
            pawn_capture(board@, pos, color, -1)
        } else {
            Seq::empty()
        }) + (if i >= 2 {
            pawn_capture(board@, pos, color, 1)
        } else {
            Seq::empty()
        }));
    }
    moves
}

/// Single steps by each of the given offsets, kept when the target is valid.
fn step_moves(board: &Board, pos: Position, color: Color, offsets: &[(isize, isize); 8]) -> (r: Vec<
    Position,
>)
    requires
        pos.rank < 8,
        pos.file < 8,
        forall|k: int|
            0 <= k < 8 ==> -2 <= #[trigger] offsets@[k].0 <= 2 && -2 <= offsets@[k].1 <= 2,
    ensures
        r@ == step_targets(board@, pos, color, offsets@),
{
    let mut moves: Vec<Position> = Vec::new();
    let mut i: usize = 0;
    while i < 8
        invariant
            i <= 8,
            pos.rank < 8,
            pos.file < 8,
            forall|k: int|
                0 <= k < 8 ==> -2 <= #[trigger] offsets@[k].0 <= 2 && -2 <= offsets@[k].1 <= 2,
            moves@ == step_targets(board@, pos, color, offsets@.take(i as int)),
        decreases 8 - i,
    {
        let (df, dr) = offsets[i];
        proof {
            assert(offsets@.take(i + 1).drop_last() =~= offsets@.take(i as int));
        }
        if let Some(new_pos) = offset_square(pos, df, dr) {
            if is_valid_target(board, new_pos, color) {
                moves.push(new_pos);
            }
        }
        i = i + 1;
    }
    assert(offsets@.take(8) =~= offsets@);
    moves
}

fn generate_knight_moves(board: &Board, pos: Position, color: Color) -> (r: Vec<Position>)
    requires
        pos.rank < 8,
        pos.file < 8,
    ensures
        r@ == step_targets(board@, pos, color, knight_offsets()),
{
    let offsets: [(isize, isize); 8] = [
        (-2, -1),
        (-2, 1),
        (-1, -2),
        (-1, 2),
        (1, -2),
        (1, 2),
        (2, -1),
        (2, 1),
    ];
    assert(offsets@ =~= knight_offsets());
    step_moves(board, pos, color, &offsets)
}

fn generate_king_moves(board: &Board, pos: Position, color: Color) -> (r: Vec<Position>)
    requires
        pos.rank < 8,
        pos.file < 8,
    ensures
        r@ == step_targets(board@, pos, color, king_offsets()),
{
    let offsets: [(isize, isize); 8] = [
        (-1, -1),
        (-1, 0),
        (-1, 1),
        (0, -1),
        (0, 1),
        (1, -1),
        (1, 0),
        (1, 1),
    ];
    assert(offsets@ =~= king_offsets());
    step_moves(board, pos, color, &offsets)
}

/// Appends the squares along one line from `pos`.
fn push_ray(board: &Board, pos: Position, color: Color, df: isize, dr: isize, moves: &mut Vec<Position>)
    requires
        pos.rank < 8,
        pos.file < 8,
        -1 <= df <= 1,
        -1 <= dr <= 1,
    ensures
        final(moves)@ == old(moves)@ + ray(board@, pos, color, df as int, dr as int, 8),
{
    let mut cur = pos;
    let mut n: usize = 8;
    while n > 0
        invariant
            cur.rank < 8,
            cur.file < 8,
            -1 <= df <= 1,
            -1 <= dr <= 1,
            n <= 8,
            moves@ + ray(board@, cur, color, df as int, dr as int, n as nat) == old(moves)@ + ray(
                board@,
                pos,
                color,
                df as int,
                dr as int,
                8,
            ),
        decreases n,
    {
        let ghost before = moves@;
        match offset_square(cur, df, dr) {
            None => {
                assert(moves@ =~= old(moves)@ + ray(board@, pos, color, df as int, dr as int, 8));
                return;
            },
            Some(new_pos) => {
                match board.get_piece(new_pos) {
                    Some(piece) => {
                        if piece.color != color {
                            moves.push(new_pos);
                        }
                        assert(moves@ =~= old(moves)@ + ray(board@, pos, color, df as int, dr as int, 8));
                        return;
                    },
                    None => {
                        moves.push(new_pos);
                        assert(moves@ + ray(board@, new_pos, color, df as int, dr as int, (n - 1) as nat)
                            =~= before + ray(board@, cur, color, df as int, dr as int, n as nat));
                        cur = new_pos;
                        n = n - 1;
                    },
                }
            },
        }
    }
    assert(moves@ =~= old(moves)@ + ray(board@, pos, color, df as int, dr as int, 8));
}

/// Walks each of the four given lines, in order.
fn slide_moves(board: &Board, pos: Position, color: Color, dirs: &[(isize, isize); 4]) -> (r: Vec<
    Position,
>)
    requires
        pos.rank < 8,
        pos.file < 8,
        forall|k: int| 0 <= k < 4 ==> -1 <= #[trigger] dirs@[k].0 <= 1 && -1 <= dirs@[k].1 <= 1,
    ensures
        r@ == slide_targets(board@, pos, color, dirs@),
{
    let mut moves: Vec<Position> = Vec::new();
    let mut i: usize = 0;
    while i < 4
        invariant
            i <= 4,
            pos.rank < 8,
            pos.file < 8,
            forall|k: int| 0 <= k < 4 ==> -1 <= #[trigger] dirs@[k].0 <= 1 && -1 <= dirs@[k].1 <= 1,
            moves@ == slide_targets(board@, pos, color, dirs@.take(i as int)),
        decreases 4 - i,
    {
        let (df, dr) = dirs[i];
        proof {
            assert(dirs@.take(i + 1).drop_last() =~= dirs@.take(i as int));
        }
        push_ray(board, pos, color, df, dr, &mut moves);
        i = i + 1;
    }
    assert(dirs@.take(4) =~= dirs@);
    moves
}

fn generate_bishop_moves(board: &Board, pos: Position, color: Color) -> (r: Vec<Position>)
    requires
        pos.rank < 8,
        pos.file < 8,
    ensures
        r@ == slide_targets(board@, pos, color, bishop_dirs()),
{
    let directions: [(isize, isize); 4] = [(-1, -1), (-1, 1), (1, -1), (1, 1)];
    assert(directions@ =~= bishop_dirs());
    slide_moves(board, pos, color, &directions)
}

fn generate_rook_moves(board: &Board, pos: Position, color: Color) -> (r: Vec<Position>)
    requires
        pos.rank < 8,
        pos.file < 8,
    ensures
        r@ == slide_targets(board@, pos, color, rook_dirs()),
{
    let directions: [(isize, isize); 4] = [(-1, 0), (1, 0), (0, -1), (0, 1)];
    assert(directions@ =~= rook_dirs());
    slide_moves(board, pos, color, &directions)
}


/// A square `t` is a step target from `pos` by the offsets `offs` exactly when some offset
/// leads from `pos` to `t` on the board and `t` is empty or held by the other side.
proof fn lemma_step_targets_contains(
    v: Seq<Seq<Option<Piece>>>,
    pos: Position,
    color: Color,
    offs: Seq<(isize, isize)>,
    t: Position,
)
    ensures
        step_targets(v, pos, color, offs).contains(t) <==> exists|i: int|
            0 <= i < offs.len() && offset_target(pos, (#[trigger] offs[i]).0 as int, offs[i].1 as int)
                == Some(t) && valid_target(v, t, color),
    decreases offs.len(),
{
    if offs.len() > 0 {
        let init = offs.drop_last();
        lemma_step_targets_contains(v, pos, color, init, t);
        let prev = step_targets(v, pos, color, init);
        let last_part = match offset_target(pos, offs.last().0 as int, offs.last().1 as int) {
            Some(u) => if valid_target(v, u, color) {
                seq![u]
            } else {
                Seq::<Position>::empty()
            },
            None => Seq::<Position>::empty(),
        };
        let all = step_targets(v, pos, color, offs);
        assert(all == prev + last_part);
        if all.contains(t) {
            let j = choose|j: int| 0 <= j < all.len() && all[j] == t;
            if j < prev.len() {
                assert(prev[j] == t);
                let i = choose|i: int|
                    0 <= i < init.len() && offset_target(pos, (#[trigger] init[i]).0 as int, init[i].1 as int)
                        == Some(t) && valid_target(v, t, color);
                assert(offs[i] == init[i]);
            } else {
                assert(last_part[j - prev.len()] == t);
                assert(offs[offs.len() - 1] == offs.last());
            }
        }
        if exists|i: int|
            0 <= i < offs.len() && offset_target(pos, (#[trigger] offs[i]).0 as int, offs[i].1 as int)
                == Some(t) && valid_target(v, t, color) {
            let i = choose|i: int|
                0 <= i < offs.len() && offset_target(pos, (#[trigger] offs[i]).0 as int, offs[i].1 as int)
                    == Some(t) && valid_target(v, t, color);
            if i < offs.len() - 1 {
                assert(init[i] == offs[i]);
                assert(prev.contains(t));
                let j = choose|j: int| 0 <= j < prev.len() && prev[j] == t;
                assert(all[j] == t);
            } else {
                assert(last_part == seq![t]);
                assert(all[prev.len() as int] == t);
            }
        }
    }
}

/// The targets of a knight are exactly the squares on the board a knight's jump away (two
/// files and one row, or one file and two rows) that are empty or hold a piece of the other
/// side.
pub proof fn lemma_knight_targets(v: Seq<Seq<Option<Piece>>>, pos: Position, color: Color, t: Position)
    requires
        pos.rank < 8,
        pos.file < 8,
        cell(v, pos) == Some(Piece { piece_type: PieceType::Knight, color }),
    ensures
        piece_targets(v, pos).contains(t) <==> {
            let df = t.file - pos.file;
            let dr = t.rank - pos.rank;
            &&& t.file < 8
            &&& t.rank < 8
            &&& ((df == 2 || df == -2) && (dr == 1 || dr == -1)) || ((df == 1 || df == -1) && (dr
                == 2 || dr == -2))
            &&& match cell(v, t) {
                Some(q) => q.color != color,
                None => true,
            }
        },
{
    let offs = knight_offsets();
    lemma_step_targets_contains(v, pos, color, offs, t);
    let df = t.file - pos.file;
    let dr = t.rank - pos.rank;
    assert(offs[0] == (-2isize, -1isize));
    assert(offs[1] == (-2isize, 1isize));
    assert(offs[2] == (-1isize, -2isize));
    assert(offs[3] == (-1isize, 2isize));
    assert(offs[4] == (1isize, -2isize));
    assert(offs[5] == (1isize, 2isize));
    assert(offs[6] == (2isize, -1isize));
    assert(offs[7] == (2isize, 1isize));
    let jump = t.file < 8 && t.rank < 8 && (((df == 2 || df == -2) && (dr == 1 || dr == -1)) || ((df == 1
        || df == -1) && (dr == 2 || dr == -2)));
    if jump {
        let i: int = if df == -2 && dr == -1 {
            0
        } else if df == -2 && dr == 1 {
            1
        } else if df == -1 && dr == -2 {
            2
        } else if df == -1 && dr == 2 {
            3
        } else if df == 1 && dr == -2 {
            4
        } else if df == 1 && dr == 2 {
            5
        } else if df == 2 && dr == -1 {
            6
        } else {
            7
        };
        assert(offset_target(pos, offs[i].0 as int, offs[i].1 as int) == Some(t));
    }
    if exists|i: int|
        0 <= i < offs.len() && offset_target(pos, (#[trigger] offs[i]).0 as int, offs[i].1 as int) == Some(t)
            && valid_target(v, t, color) {
        let i = choose|i: int|
            0 <= i < offs.len() && offset_target(pos, (#[trigger] offs[i]).0 as int, offs[i].1 as int) == Some(
                t,
            ) && valid_target(v, t, color);
        assert(0 <= i < 8);
        assert(jump);
    }
}


/// The targets of a king are exactly the squares on the board next to it (one file, one row or
/// both away) that are empty or hold a piece of the other side.
pub proof fn lemma_king_targets(v: Seq<Seq<Option<Piece>>>, pos: Position, color: Color, t: Position)
    requires
        pos.rank < 8,
        pos.file < 8,
        cell(v, pos) == Some(Piece { piece_type: PieceType::King, color }),
    ensures
        piece_targets(v, pos).contains(t) <==> {
            let df = t.file - pos.file;
            let dr = t.rank - pos.rank;
            &&& t.file < 8
            &&& t.rank < 8
            &&& -1 <= df <= 1
            &&& -1 <= dr <= 1
            &&& !(df == 0 && dr == 0)
            &&& match cell(v, t) {
                Some(q) => q.color != color,
                None => true,
            }
        },
{
    let offs = king_offsets();
    lemma_step_targets_contains(v, pos, color, offs, t);
    let df = t.file - pos.file;
    let dr = t.rank - pos.rank;
    assert(offs[0] == (-1isize, -1isize));
    assert(offs[1] == (-1isize, 0isize));
    assert(offs[2] == (-1isize, 1isize));
    assert(offs[3] == (0isize, -1isize));
    assert(offs[4] == (0isize, 1isize));
    assert(offs[5] == (1isize, -1isize));
    assert(offs[6] == (1isize, 0isize));
    assert(offs[7] == (1isize, 1isize));
    let step = t.file < 8 && t.rank < 8 && -1 <= df <= 1 && -1 <= dr <= 1 && !(df == 0 && dr == 0);
    if step {
        let i: int = (df + 1) * 3 + (dr + 1) - if (df + 1) * 3 + (dr + 1) > 4 { 1int } else { 0int };
        assert(offset_target(pos, offs[i].0 as int, offs[i].1 as int) == Some(t));
    }
    if exists|i: int|
        0 <= i < offs.len() && offset_target(pos, (#[trigger] offs[i]).0 as int, offs[i].1 as int) == Some(t)
            && valid_target(v, t, color) {
        let i = choose|i: int|
            0 <= i < offs.len() && offset_target(pos, (#[trigger] offs[i]).0 as int, offs[i].1 as int) == Some(
                t,
            ) && valid_target(v, t, color);
        assert(0 <= i < 8);
        assert(step);
    }
}

} // verus!
