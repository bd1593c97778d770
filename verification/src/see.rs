use vstd::prelude::*;
use crate::movegen::{Move, is_capture_type};
use crate::position::{Color, PieceType, Position, opp, piece_index};
use crate::bitboard::bit_at;

verus! {

/// Piece values for exchange evaluation, pawn to king.
pub const SEE_VALUES: [i32; 6] = [100, 320, 330, 500, 900, 20000];

pub open spec fn see_value(p: PieceType) -> int {
    SEE_VALUES@[piece_index(p)] as int
}

pub open spec fn abs_diff(a: int, b: int) -> int {
    if a >= b {
        a - b
    } else {
        b - a
    }
}

/// `x` moved `k` steps up (or down).
pub open spec fn step(x: int, k: int, up: bool) -> int {
    if up {
        x + k
    } else {
        x - k
    }
}

/// The square `k` steps from (`fr`, `ff`) toward (`tr`, `tf`) diagonally.
pub open spec fn diag_sq(fr: int, ff: int, tr: int, tf: int, k: int) -> int {
    step(fr, k, tr > fr) * 8 + step(ff, k, tf > ff)
}

/// No piece stands strictly between `from` and `to` on their diagonal, walking from `from`.
pub open spec fn diagonal_clear(pos: Position, from: u8, to: u8) -> bool {
    let fr = (from / 8) as int;
    let ff = (from % 8) as int;
    let tr = (to / 8) as int;
    let tf = (to % 8) as int;
    forall|k: int| 1 <= k < abs_diff(tr, fr) ==> (#[trigger] pos.piece_on(diag_sq(fr, ff, tr, tf, k))) is None
}

/// No piece stands strictly between `from` and `to` on their rank or file.
pub open spec fn line_clear(pos: Position, from: u8, to: u8) -> bool {
    let fr = (from / 8) as int;
    let ff = (from % 8) as int;
    let tr = (to / 8) as int;
    let tf = (to % 8) as int;
    if fr == tr {
        forall|f: int|
            (if ff < tf { ff } else { tf }) < f < (if ff < tf { tf } else { ff }) ==> (
            #[trigger] pos.piece_on(fr * 8 + f)) is None
    } else if ff == tf {
        forall|r: int|
            (if fr < tr { fr } else { tr }) < r < (if fr < tr { tr } else { fr }) ==> (
            #[trigger] pos.piece_on(r * 8 + ff)) is None
    } else {
        true
    }
}

/// Whether a piece of type `p` and colour `c` on `from` attacks `to`, by the geometry of its
/// moves (a rook or queen counts its own square too).
pub open spec fn attacks_sq(pos: Position, from: u8, to: u8, p: PieceType, c: Color) -> bool {
    let fr = (from / 8) as int;
    let ff = (from % 8) as int;
    let tr = (to / 8) as int;
    let tf = (to % 8) as int;
    let rdiff = abs_diff(tr, fr);
    let fdiff = abs_diff(tf, ff);
    let diag = rdiff == fdiff && rdiff > 0 && diagonal_clear(pos, from, to);
    let line = (fr == tr || ff == tf) && line_clear(pos, from, to);
    match p {
        PieceType::Pawn => tr == fr + (if c == Color::White { 1int } else { -1int }) && fdiff == 1,
        PieceType::Knight => (rdiff == 2 && fdiff == 1) || (rdiff == 1 && fdiff == 2),
        PieceType::Bishop => diag,
        PieceType::Rook => line,
        PieceType::Queen => diag || line,
        PieceType::King => rdiff <= 1 && fdiff <= 1 && (rdiff > 0 || fdiff > 0),
    }
}

/// Whether the piece on `from`, if it is of colour `side` and stands elsewhere than on
/// `square` (where the piece about to be captured stands), attacks `square`.
pub open spec fn attacker_on(pos: Position, from: int, square: u8, side: Color) -> bool {
    match pos.piece_on(from) {
        Some((p, c)) => from != square && c == side && attacks_sq(pos, from as u8, square, p, c),
        None => false,
    }
}

/// Whether some piece of colour `side` attacks `square`.
pub open spec fn has_attacker(pos: Position, square: u8, side: Color) -> bool {
    exists|from: int| 0 <= from < 64 && #[trigger] attacker_on(pos, from, square, side)
}

/// The attacking pieces of `side` among squares `0..k`, in square order.
pub open spec fn attackers_upto(pos: Position, square: u8, side: Color, k: nat) -> Seq<(u8, (PieceType, Color))>
    decreases k,
{
    if k == 0 {
        Seq::empty()
    } else {
        let prev = attackers_upto(pos, square, side, (k - 1) as nat);
        if attacker_on(pos, k - 1, square, side) {
            prev.push(((k - 1) as u8, pos.piece_on(k - 1).unwrap()))
        } else {
            prev
        }
    }
}

/// The attacker of lowest value in `s`, the first one on ties.
pub open spec fn least_attacker(s: Seq<(u8, (PieceType, Color))>) -> Option<(u8, (PieceType, Color))>
    decreases s.len(),
{
    if s.len() == 0 {
        None
    } else {
        match least_attacker(s.drop_last()) {
            None => Some(s.last()),
            Some(b) => if see_value(s.last().1.0) < see_value(b.1.0) {
                Some(s.last())
            } else {
                Some(b)
            },
        }
    }
}

/// The most an exchange on `square` gains for `side`, whose opponent's piece `last` stands
/// there: `side` captures with its least valuable attacker, which leaves its square, or stands
/// pat when that loses; at most `steps` captures are looked at.
pub open spec fn see_exchange(pos: Position, square: u8, side: Color, last: PieceType, steps: nat) -> int
    decreases steps,
{
    if steps == 0 {
        0
    } else {
        match least_attacker(attackers_upto(pos, square, side, 64)) {
            None => 0,
            Some((from, (p, c))) => {
                let v = see_value(last) - see_exchange(pos.removed(from, p, c), square, opp(side), p, (steps - 1) as nat);
                if v > 0 { v } else { 0 }
            },
        }
    }
}

/// Exchange balance of a move: the value of the captured piece less what the other side gains
/// in the exchange that follows, the moving piece having left its square. Every capture takes
/// a piece off the board, so 64 steps cover any exchange.
pub open spec fn see_score(pos: Position, mv: Move) -> int {
    match pos.piece_on(mv.from as int) {
        None => 0,
        Some((moving, mc)) => {
            let captured = match pos.piece_on(mv.to as int) {
                Some((p, _)) => Some(p),
                None => if is_capture_type(mv.move_type) {
                    Some(PieceType::Pawn)
                } else {
                    None
                },
            };
            match captured {
                None => 0,
                Some(c) => see_value(c) - see_exchange(pos.removed(mv.from, moving, mc), mv.to, opp(pos.side_to_move), moving, 64),
            }
        },
    }
}

struct AttackerInfo {
    from: u8,
    piece: (PieceType, Color),
}

impl Position {
    /// Static exchange evaluation: the material balance after the sequence of captures on the
    /// target square, each capturer leaving its square (see `see_score`).
    pub fn see(&self, mv: &Move) -> (r: i32)
        requires
            mv.from < 64,
            mv.to < 64,
        ensures
            r == see_score(*self, *mv),
    {
        let to = mv.to();
        let from = mv.from();
        let moving_piece = match self.piece_at(from) {
            Some(p) => p,
            None => return 0,
        };
        let captured_piece = match self.piece_at(to) {
            Some(p) => p,
            None => {
                if mv.is_capture() {
                    (PieceType::Pawn, self.side_to_move.opposite())
                } else {
                    return 0;
                }
            },
        };
        let value = Self::piece_value_from_tuple(&captured_piece);
        let mut board = *self;
        board.remove_piece(from, moving_piece.0, moving_piece.1);
        let reply = board.see_recursive(to, self.side_to_move.opposite(), &moving_piece, 64);
        value - reply
    }

    /// The most `side` gains by capturing on `square`, where `last_attacker` stands, looking at
    /// `steps` captures at most.
    fn see_recursive(&self, square: u8, side: Color, last_attacker: &(PieceType, Color), steps: u8) -> (r: i32)
        requires
            square < 64,
        ensures
            r == see_exchange(*self, square, side, last_attacker.0, steps as nat),
            0 <= r <= 20000,
        decreases steps,
    {
        if steps == 0 {
            return 0;
        }
        let attacker = match self.find_least_valuable_attacker(square, side) {
            Some(a) => a,
            None => return 0,
        };
        let stand_pat: i32 = 0;
        let last_value = Self::piece_value_from_tuple(last_attacker);
        let mut board = *self;
        board.remove_piece(attacker.from, attacker.piece.0, attacker.piece.1);
        let reply = board.see_recursive(square, side.opposite(), &attacker.piece, steps - 1);
        let capture_value = last_value - reply;
        if stand_pat > capture_value {
            stand_pat
        } else {
            capture_value
        }
    }

    /// The attacker of `side` with the lowest value, the first found on ties.
    fn find_least_valuable_attacker(&self, square: u8, side: Color) -> (r: Option<AttackerInfo>)
        requires
            square < 64,
        ensures
            match least_attacker(attackers_upto(*self, square, side, 64)) {
                None => r is None,
                Some(b) => r matches Some(a) && a.from == b.0 && a.piece == b.1 && a.from < 64,
            },
    {
        let attackers = self.get_attackers(square, side);
        let ghost all = attackers_upto(*self, square, side, 64);
        let mut best: Option<AttackerInfo> = None;
        let mut best_value: i32 = i32::MAX;
        let mut i: usize = 0;
        proof {
            lemma_attackers_below(*self, square, side, 64);
        }
        while i < attackers.len()
            invariant
                i <= attackers@.len(),
                all == attackers_upto(*self, square, side, 64),
                attackers@.len() == all.len(),
                forall|j: int| 0 <= j < attackers@.len() ==> (#[trigger] attackers@[j]).piece == all[j].1
                    && attackers@[j].from == all[j].0,
                forall|j: int| 0 <= j < all.len() ==> (#[trigger] all[j]).0 < 64,
                best matches Some(a) ==> a.from < 64,
                match least_attacker(all.subrange(0, i as int)) {
                    None => best is None,
                    Some(b) => best matches Some(a) && a.from == b.0 && a.piece == b.1 && best_value == see_value(b.1.0),
                },
            decreases attackers@.len() - i,
        {
            let value = Self::piece_value_from_tuple(&attackers[i].piece);
            proof {
                assert(all.subrange(0, i + 1).drop_last() =~= all.subrange(0, i as int));
                assert(all.subrange(0, i + 1).last() == all[i as int]);
            }
            if value < best_value || i == 0 {
                best_value = value;
                best = Some(AttackerInfo { from: attackers[i].from, piece: attackers[i].piece });
            }
            i = i + 1;
        }
        assert(all.subrange(0, i as int) =~= all);
        best
    }

    /// All pieces of `side` attacking `square`, in square order.
    fn get_attackers(&self, square: u8, side: Color) -> (r: Vec<AttackerInfo>)
        requires
            square < 64,
        ensures
            r@.len() == attackers_upto(*self, square, side, 64).len(),
            forall|j: int| 0 <= j < r@.len() ==> (#[trigger] r@[j]).piece == attackers_upto(*self, square, side, 64)[j].1
                && r@[j].from == attackers_upto(*self, square, side, 64)[j].0,
            forall|j: int| 0 <= j < r@.len() ==> (#[trigger] r@[j]).piece.1 == side,
    {
        let mut attackers: Vec<AttackerInfo> = Vec::new();
        let mut from: u8 = 0;
        while from < 64
            invariant
                from <= 64,
                square < 64,
                attackers@.len() == attackers_upto(*self, square, side, from as nat).len(),
                forall|j: int| 0 <= j < attackers@.len() ==> (#[trigger] attackers@[j]).piece == attackers_upto(*self, square, side, from as nat)[j].1
                    && attackers@[j].from == attackers_upto(*self, square, side, from as nat)[j].0,
                forall|j: int| 0 <= j < attackers@.len() ==> (#[trigger] attackers@[j]).piece.1 == side,
            decreases 64 - from,
        {
            if let Some((piece_type, color)) = self.piece_at(from) {
                if color == side && from != square {
                    if self.attacks_square(from, square, piece_type, color) {
                        attackers.push(AttackerInfo { from, piece: (piece_type, color) });
                    }
                }
            }
            from = from + 1;
        }
        attackers
    }

    /// Whether a piece of type `piece_type` and colour `color` on `from` attacks `to`.
    fn attacks_square(&self, from: u8, to: u8, piece_type: PieceType, color: Color) -> (r: bool)
        requires
            from < 64,
            to < 64,
        ensures
            r == attacks_sq(*self, from, to, piece_type, color),
    {
        let from_rank = from / 8;
        let from_file = from % 8;
        let to_rank = to / 8;
        let to_file = to % 8;
        let rank_diff: i8 = if to_rank >= from_rank {
            (to_rank - from_rank) as i8
        } else {
            (from_rank - to_rank) as i8
        };
        let file_diff: i8 = if to_file >= from_file {
            (to_file - from_file) as i8
        } else {
            (from_file - to_file) as i8
        };
        match piece_type {
            PieceType::Pawn => {
                let direction: i8 = if color == Color::White {
                    1
                } else {
                    -1
                };
                let expected_rank: i8 = from_rank as i8 + direction;
                to_rank as i8 == expected_rank && file_diff == 1
            },
            PieceType::Knight => (rank_diff == 2 && file_diff == 1) || (rank_diff == 1 && file_diff == 2),
            PieceType::Bishop => rank_diff == file_diff && rank_diff > 0 && self.is_diagonal_clear(from, to),
            PieceType::Rook => (from_rank == to_rank || from_file == to_file) && self.is_line_clear(from, to),
            PieceType::Queen => (rank_diff == file_diff && rank_diff > 0 && self.is_diagonal_clear(from, to))
                || ((from_rank == to_rank || from_file == to_file) && self.is_line_clear(from, to)),
            PieceType::King => rank_diff <= 1 && file_diff <= 1 && (rank_diff > 0 || file_diff > 0),
        }
    }

    /// Whether the diagonal between two squares on a common diagonal is empty.
    fn is_diagonal_clear(&self, from: u8, to: u8) -> (r: bool)
        requires
            from < 64,
            to < 64,
            abs_diff((to / 8) as int, (from / 8) as int) == abs_diff((to % 8) as int, (from % 8) as int),
            from / 8 != to / 8,
        ensures
            r == diagonal_clear(*self, from, to),
    {
        let from_rank = from / 8;
        let from_file = from % 8;
        let to_rank = to / 8;
        let to_file = to % 8;
        let rank_dir: i8 = if to_rank > from_rank {
            1
        } else {
            -1
        };
        let file_dir: i8 = if to_file > from_file {
            1
        } else {
            -1
        };
        let mut rank: i8 = from_rank as i8 + rank_dir;
        let mut file: i8 = from_file as i8 + file_dir;
        let ghost mut k: int = 1;
        while rank != to_rank as i8
            invariant
                1 <= k <= abs_diff(to_rank as int, from_rank as int),
                rank == step(from_rank as int, k, to_rank > from_rank),
                file == step(from_file as int, k, to_file > from_file),
                from_rank < 8,
                to_rank < 8,
                from_file < 8,
                to_file < 8,
                rank_dir == (if to_rank > from_rank { 1int } else { -1int }),
                file_dir == (if to_file > from_file { 1int } else { -1int }),
                abs_diff(to_rank as int, from_rank as int) == abs_diff(to_file as int, from_file as int),
                from_rank != to_rank,
                from_rank == from / 8,
                from_file == from % 8,
                to_rank == to / 8,
                to_file == to % 8,
                forall|j: int| 1 <= j < k ==> (#[trigger] self.piece_on(
                    diag_sq(from_rank as int, from_file as int, to_rank as int, to_file as int, j),
                )) is None,
            decreases abs_diff(to_rank as int, from_rank as int) - k,
        {
            let sq = (rank * 8 + file) as u8;
            if self.piece_at(sq).is_some() {
                proof {
                    assert(sq as int == diag_sq(from_rank as int, from_file as int, to_rank as int, to_file as int, k));
                    assert(k < abs_diff(to_rank as int, from_rank as int));
                    assert(self.piece_on(
                        diag_sq(from_rank as int, from_file as int, to_rank as int, to_file as int, k),
                    ) is Some);
                    lemma_diag_blocked(*self, from, to, k);
                }
                return false;
            }
            rank = rank + rank_dir;
            file = file + file_dir;
            proof {
                k = k + 1;
            }
        }
        true
    }

    /// Whether the squares strictly between two squares on a common rank or file are empty.
    fn is_line_clear(&self, from: u8, to: u8) -> (r: bool)
        requires
            from < 64,
            to < 64,
        ensures
            r == line_clear(*self, from, to),
    {
        let from_rank = from / 8;
        let from_file = from % 8;
        let to_rank = to / 8;
        let to_file = to % 8;
        if from_rank == to_rank {
            let start = (if from_file < to_file { from_file } else { to_file }) + 1;
            let end = if from_file < to_file { to_file } else { from_file };
            let mut file = start;
            while file < end
                invariant
                    start <= file,
                    file <= end || start > end,
                    end < 8,
                    from_rank < 8,
                    from_rank == from / 8,
                    from_rank == to / 8,
                    start == (if from % 8 < to % 8 { from % 8 } else { to % 8 }) + 1,
                    end == (if from % 8 < to % 8 { to % 8 } else { from % 8 }),
                    forall|f: int| start <= f < file ==> (#[trigger] self.piece_on(from_rank * 8 + f)) is None,
                decreases end - file,
            {
                let sq = from_rank * 8 + file;
                if self.piece_at(sq).is_some() {
                    proof {
                        assert(sq as int == from_rank * 8 + file as int);
                        assert(self.piece_on(from_rank * 8 + file as int) is Some);
                        assert(!line_clear(*self, from, to));
                    }
                    return false;
                }
                file = file + 1;
            }
        } else if from_file == to_file {
            let start = (if from_rank < to_rank { from_rank } else { to_rank }) + 1;
            let end = if from_rank < to_rank { to_rank } else { from_rank };
            let mut rank = start;
            while rank < end
                invariant
                    start <= rank,
                    rank <= end || start > end,
                    end < 8,
                    from_file < 8,
                    from_file == from % 8,
                    from_file == to % 8,
                    from / 8 != to / 8,
                    start == (if from / 8 < to / 8 { from / 8 } else { to / 8 }) + 1,
                    end == (if from / 8 < to / 8 { to / 8 } else { from / 8 }),
                    forall|r: int| start <= r < rank ==> (#[trigger] self.piece_on(r * 8 + from_file)) is None,
                decreases end - rank,
            {
                let sq = rank * 8 + from_file;
                if self.piece_at(sq).is_some() {
                    proof {
                        assert(sq as int == rank as int * 8 + from_file);
                        assert(self.piece_on(rank as int * 8 + from_file) is Some);
                        assert(!line_clear(*self, from, to));
                    }
                    return false;
                }
                rank = rank + 1;
            }
        }
        true
    }

    fn piece_value_from_tuple(piece: &(PieceType, Color)) -> (r: i32)
        ensures
            r == see_value(piece.0),
            100 <= r <= 20000,
    {
        SEE_VALUES[piece.0.index()]
    }
}

proof fn lemma_diag_blocked(pos: Position, from: u8, to: u8, k: int)
    requires
        1 <= k < abs_diff((to / 8) as int, (from / 8) as int),
        pos.piece_on(diag_sq((from / 8) as int, (from % 8) as int, (to / 8) as int, (to % 8) as int, k)) is Some,
    ensures
        !diagonal_clear(pos, from, to),
{
}

proof fn lemma_attackers_below(pos: Position, square: u8, side: Color, k: nat)
    requires
        k <= 64,
    ensures
        forall|j: int| 0 <= j < attackers_upto(pos, square, side, k).len() ==> (#[trigger] attackers_upto(pos, square, side, k)[j]).0 < k,
    decreases k,
{
    if k > 0 {
        lemma_attackers_below(pos, square, side, (k - 1) as nat);
        let prev = attackers_upto(pos, square, side, (k - 1) as nat);
        let cur = attackers_upto(pos, square, side, k);
        assert forall|j: int| 0 <= j < cur.len() implies (#[trigger] cur[j]).0 < k by {
            if j < prev.len() {
                assert(cur[j] == prev[j]);
            }
        }
    }
}

proof fn lemma_attackers_nonempty(pos: Position, square: u8, side: Color, k: nat)
    requires
        k <= 64,
    ensures
        attackers_upto(pos, square, side, k).len() == 0 <==> !(exists|from: int| 0 <= from < k && #[trigger] attacker_on(pos, from, square, side)),
    decreases k,
{
    if k > 0 {
        lemma_attackers_nonempty(pos, square, side, (k - 1) as nat);
        if attacker_on(pos, k - 1, square, side) {
        } else {
            assert forall|from: int| 0 <= from < k && #[trigger] attacker_on(pos, from, square, side) implies from < k - 1 by {}
        }
    }
}


/// Taking a piece off `sq` leaves every other square as it was.
proof fn lemma_removed_elsewhere(pos: Position, sq: u8, p: PieceType, c: Color, s: int)
    requires
        sq < 64,
        s != sq,
    ensures
        pos.removed(sq, p, c).piece_on(s) == pos.piece_on(s),
{
    let r = pos.removed(sq, p, c);
    crate::bitboard::lemma_clear_bit(pos.cbb(Color::White), sq);
    crate::bitboard::lemma_clear_bit(pos.cbb(Color::Black), sq);
    crate::bitboard::lemma_clear_bit(pos.bb(c, p), sq);
    assert(bit_at(r.cbb(Color::White), s) == bit_at(pos.cbb(Color::White), s));
    assert(bit_at(r.cbb(Color::Black), s) == bit_at(pos.cbb(Color::Black), s));
    assert(bit_at(r.bb(c, p), s) == bit_at(pos.bb(c, p), s));
    assert(r.type_on(Color::White, s) == pos.type_on(Color::White, s));
    assert(r.type_on(Color::Black, s) == pos.type_on(Color::Black, s));
}

/// The attackers of `square` when `q` holds the only one.
proof fn lemma_attackers_single(pos: Position, square: u8, side: Color, q: int, k: nat)
    requires
        k <= 64,
        0 <= q < 64,
        attacker_on(pos, q, square, side),
        forall|s: int| 0 <= s < 64 && s != q ==> !#[trigger] attacker_on(pos, s, square, side),
    ensures
        attackers_upto(pos, square, side, k) == if q < k {
            seq![(q as u8, pos.piece_on(q).unwrap())]
        } else {
            Seq::<(u8, (PieceType, Color))>::empty()
        },
    decreases k,
{
    if k > 0 {
        lemma_attackers_single(pos, square, side, q, (k - 1) as nat);
        if k - 1 == q {
            assert(Seq::<(u8, (PieceType, Color))>::empty().push((q as u8, pos.piece_on(q).unwrap()))
                =~= seq![(q as u8, pos.piece_on(q).unwrap())]);
        } else {
            assert(!attacker_on(pos, k - 1, square, side));
        }
    }
}

/// A queen attacks exactly what a bishop or a rook on its square would: a square on one of its
/// diagonals when every square strictly between is empty, and a square on its rank or file
/// when every square between is empty.
pub proof fn lemma_queen_attacks(pos: Position, from: u8, to: u8, c: Color)
    ensures
        attacks_sq(pos, from, to, PieceType::Queen, c) == (attacks_sq(pos, from, to, PieceType::Bishop, c)
            || attacks_sq(pos, from, to, PieceType::Rook, c)),
        ({
            let fr = (from / 8) as int;
            let ff = (from % 8) as int;
            let tr = (to / 8) as int;
            let tf = (to % 8) as int;
            abs_diff(tr, fr) == abs_diff(tf, ff) && abs_diff(tr, fr) > 0 && (forall|k: int|
                1 <= k < abs_diff(tr, fr) ==> (#[trigger] pos.piece_on(diag_sq(fr, ff, tr, tf, k))) is None)
                ==> attacks_sq(pos, from, to, PieceType::Queen, c)
        }),
{
}

/// Capturing a piece whose only defender is a queen on a clear diagonal to it, with no second
/// attacker to follow: the queen takes back, so the exchange is worth the captured piece less
/// the capturing one.
pub proof fn lemma_see_lone_queen_defender(pos: Position, mv: Move, moving: PieceType, captured: PieceType, q: u8)
    requires
        mv.from < 64,
        mv.to < 64,
        q < 64,
        q != mv.to,
        q != mv.from,
        mv.from != mv.to,
        pos.piece_on(mv.from as int) == Some((moving, pos.side_to_move)),
        pos.piece_on(mv.to as int) == Some((captured, opp(pos.side_to_move))),
        pos.piece_on(q as int) == Some((PieceType::Queen, opp(pos.side_to_move))),
        ({
            let qr = (q / 8) as int;
            let qf = (q % 8) as int;
            let tr = (mv.to / 8) as int;
            let tf = (mv.to % 8) as int;
            &&& abs_diff(tr, qr) == abs_diff(tf, qf)
            &&& abs_diff(tr, qr) > 0
            &&& forall|k: int|
                1 <= k < abs_diff(tr, qr) ==> (#[trigger] pos.piece_on(diag_sq(qr, qf, tr, tf, k))) is None
        }),
        forall|s: int|
            0 <= s < 64 && s != q ==> !#[trigger] attacker_on(
                pos.removed(mv.from, moving, pos.side_to_move),
                s,
                mv.to,
                opp(pos.side_to_move),
            ),
        forall|s: int|
            0 <= s < 64 ==> !#[trigger] attacker_on(
                pos.removed(mv.from, moving, pos.side_to_move).removed(q, PieceType::Queen, opp(pos.side_to_move)),
                s,
                mv.to,
                pos.side_to_move,
            ),
    ensures
        see_score(pos, mv) == see_value(captured) - see_value(moving),
{
    let us = pos.side_to_move;
    let them = opp(us);
    let p1 = pos.removed(mv.from, moving, us);
    let p2 = p1.removed(q, PieceType::Queen, them);
    let qr = (q / 8) as int;
    let qf = (q % 8) as int;
    let tr = (mv.to / 8) as int;
    let tf = (mv.to % 8) as int;
    lemma_removed_elsewhere(pos, mv.from, moving, us, q as int);
    assert forall|k: int| 1 <= k < abs_diff(tr, qr) implies (#[trigger] p1.piece_on(diag_sq(qr, qf, tr, tf, k))) is None by {
        let d = diag_sq(qr, qf, tr, tf, k);
        assert(pos.piece_on(d) is None);
        assert(d != mv.from);
        lemma_removed_elsewhere(pos, mv.from, moving, us, d);
    }
    assert(diagonal_clear(p1, q, mv.to));
    assert(attacks_sq(p1, q, mv.to, PieceType::Queen, them));
    assert(attacker_on(p1, q as int, mv.to, them));
    lemma_attackers_single(p1, mv.to, them, q as int, 64);
    let only = (q, (PieceType::Queen, them));
    assert(attackers_upto(p1, mv.to, them, 64) == seq![only]);
    assert(seq![only].drop_last() =~= Seq::<(u8, (PieceType, Color))>::empty());
    assert(least_attacker(Seq::<(u8, (PieceType, Color))>::empty()) is None);
    assert(seq![only].last() == only);
    assert(least_attacker(seq![only]) == Some(only));
    lemma_attackers_nonempty(p2, mv.to, us, 64);
    assert(least_attacker(attackers_upto(p2, mv.to, us, 64)) is None);
    assert(see_exchange(p2, mv.to, us, PieceType::Queen, 63) == 0);
    assert(see_value(moving) > 0);
    assert(see_exchange(p1, mv.to, them, moving, 64) == see_value(moving));
}

} // verus!
