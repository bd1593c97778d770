use vstd::prelude::*;
use std::collections::HashMap;
use crate::movegen::Move;
use crate::position::Position;

verus! {

broadcast use vstd::std_specs::hash::group_hash_axioms;

/// Sum of the weights of a list of book moves.
pub open spec fn weight_sum(moves: Seq<(Move, u32)>) -> nat
    decreases moves.len(),
{
    if moves.len() == 0 {
        0
    } else {
        weight_sum(moves.drop_last()) + moves.last().1 as nat
    }
}

/// The first move whose weight exceeds what is left of `rng`, each move's weight taken off
/// in turn; the first move when none does.
pub open spec fn pick_from(moves: Seq<(Move, u32)>, i: nat, rng: int) -> Move
    decreases moves.len() - i,
{
    if i >= moves.len() {
        moves[0].0
    } else if rng < moves[i as int].1 {
        moves[i as int].0
    } else {
        pick_from(moves, i + 1, rng - moves[i as int].1)
    }
}

/// The move the book gives for a list of moves: none for an empty list, the first one when
/// all weights are zero, otherwise the weighted pick at the total weight modulo 100.
pub open spec fn book_pick(moves: Seq<(Move, u32)>) -> Option<Move> {
    if moves.len() == 0 {
        None
    } else if weight_sum(moves) == 0 {
        Some(moves[0].0)
    } else {
        Some(pick_from(moves, 0, (weight_sum(moves) % 100) as int))
    }
}

/// Book moves with weights, by position hash.
pub struct OpeningBook {
    book: HashMap<u64, Vec<(Move, u32)>>,
}

impl OpeningBook {
    /// The moves stored for each hash.
    pub closed spec fn entries(self) -> Map<u64, Seq<(Move, u32)>> {
        self.book@.map_values(|v: Vec<(Move, u32)>| v@)
    }

    pub fn new() -> (r: OpeningBook)
        ensures
            r.entries() == Map::<u64, Seq<(Move, u32)>>::empty(),
    {
        let r = OpeningBook { book: HashMap::new() };
        assert(r.entries() =~= Map::<u64, Seq<(Move, u32)>>::empty());
        r
    }

    /// Add a weighted move for a position.
    pub fn add_move(&mut self, pos: &Position, mv: Move, weight: u32)
        ensures
            final(self).entries() == old(self).entries().insert(
                pos.hash,
                if old(self).entries().contains_key(pos.hash) {
                    old(self).entries()[pos.hash]
                } else {
                    Seq::empty()
                }.push((mv, weight)),
            ),
    {
        let mut moves = match self.book.remove(&pos.hash) {
            Some(v) => v,
            None => Vec::new(),
        };
        moves.push((mv, weight));
        self.book.insert(pos.hash, moves);
        assert(self.entries() =~= old(self).entries().insert(
            pos.hash,
            if old(self).entries().contains_key(pos.hash) {
                old(self).entries()[pos.hash]
            } else {
                Seq::empty()
            }.push((mv, weight)),
        ));
    }

    /// The book move for a position (see `book_pick`).
    pub fn get_move(&self, pos: &Position) -> (r: Option<Move>)
        requires
            self.entries().contains_key(pos.hash) ==> weight_sum(self.entries()[pos.hash]) <= u32::MAX,
        ensures
            r == (if self.entries().contains_key(pos.hash) {
                book_pick(self.entries()[pos.hash])
            } else {
                None
            }),
    {
        match self.book.get(&pos.hash) {
            Some(moves) => {
                assert(moves@ == self.entries()[pos.hash]);
                if moves.len() == 0 {
                    return None;
                }
                let mut total: u32 = 0;
                let mut i: usize = 0;
                while i < moves.len()
                    invariant
                        i <= moves@.len(),
                        moves@ == self.entries()[pos.hash],
                        self.entries().contains_key(pos.hash),
                        total == weight_sum(moves@.subrange(0, i as int)),
                        weight_sum(moves@) <= u32::MAX,
                    decreases moves@.len() - i,
                {
                    proof {
                        assert(moves@.subrange(0, i + 1).drop_last() =~= moves@.subrange(0, i as int));
                        lemma_weight_prefix(moves@, i + 1);
                    }
                    total = total + moves[i].1;
                    i = i + 1;
                }
                assert(moves@.subrange(0, i as int) =~= moves@);
                if total == 0 {
                    return Some(moves[0].0);
                }
                let mut rng: u32 = total % 100;
                let mut j: usize = 0;
                while j < moves.len()
                    invariant
                        j <= moves@.len(),
                        moves@.len() > 0,
                        moves@ == self.entries()[pos.hash],
                        self.entries().contains_key(pos.hash),
                        weight_sum(moves@) > 0,
                        pick_from(moves@, 0, (weight_sum(moves@) % 100) as int) == pick_from(moves@, j as nat, rng as int),
                    decreases moves@.len() - j,
                {
                    let (mv, weight) = moves[j];
                    if rng < weight {
                        assert(pick_from(moves@, j as nat, rng as int) == mv);
                        return Some(mv);
                    }
                    assert(pick_from(moves@, j as nat, rng as int) == pick_from(moves@, (j + 1) as nat, (rng - weight) as int));
                    rng = rng - weight;
                    j = j + 1;
                }
                assert(pick_from(moves@, j as nat, rng as int) == moves@[0].0);
                Some(moves[0].0)
            },
            None => None,
        }
    }

    /// Reading a book from PGN text is not supported: the book is left unchanged.
    pub fn load_from_pgn(&mut self, _pgn: &str)
        ensures
            final(self).entries() == old(self).entries(),
    {
    }

    /// Empty the book.
    pub fn clear(&mut self)
        ensures
            final(self).entries() == Map::<u64, Seq<(Move, u32)>>::empty(),
    {
        self.book.clear();
        assert(self.entries() =~= Map::<u64, Seq<(Move, u32)>>::empty());
    }
}

impl Default for OpeningBook {
    fn default() -> (r: OpeningBook)
        ensures
            r.entries() == Map::<u64, Seq<(Move, u32)>>::empty(),
    {
        OpeningBook::new()
    }
}

proof fn lemma_weight_prefix(moves: Seq<(Move, u32)>, i: int)
    requires
        0 <= i <= moves.len(),
    ensures
        weight_sum(moves.subrange(0, i)) <= weight_sum(moves),
    decreases moves.len() - i,
{
    if i < moves.len() {
        lemma_weight_prefix(moves, i + 1);
        assert(moves.subrange(0, i + 1).drop_last() =~= moves.subrange(0, i));
    } else {
        assert(moves.subrange(0, i) =~= moves);
    }
}

/// A position with a single book move always gets that move.
pub proof fn lemma_single_move_picked(mv: Move, weight: u32)
    ensures
        book_pick(seq![(mv, weight)]) == Some(mv),
{
    let s = seq![(mv, weight)];
    assert(s.drop_last() =~= Seq::<(Move, u32)>::empty());
    assert(weight_sum(Seq::<(Move, u32)>::empty()) == 0);
    assert(weight_sum(s) == weight);
    if weight > 0 {
        let rng = (weight % 100) as int;
        if rng < weight {
        } else {
            assert(pick_from(s, 1, rng - weight) == s[0].0);
        }
    }
}

/// A call that changes a book: `add_move` for a position hash, or `clear`.
pub enum BookOp {
    Add(u64, Move, u32),
    Clear,
}

/// What a book holds after the calls `ops`, from an empty one.
pub open spec fn book_after(ops: Seq<BookOp>) -> Map<u64, Seq<(Move, u32)>>
    decreases ops.len(),
{
    if ops.len() == 0 {
        Map::empty()
    } else {
        let prev = book_after(ops.drop_last());
        match ops.last() {
            BookOp::Clear => Map::empty(),
            BookOp::Add(h, mv, w) => prev.insert(
                h,
                if prev.contains_key(h) { prev[h] } else { Seq::empty() }.push((mv, w)),
            ),
        }
    }
}

/// The moves added for hash `h` since the last `clear`, in the order they were added.
pub open spec fn added_since_clear(ops: Seq<BookOp>, h: u64) -> Seq<(Move, u32)>
    decreases ops.len(),
{
    if ops.len() == 0 {
        Seq::empty()
    } else {
        match ops.last() {
            BookOp::Clear => Seq::empty(),
            BookOp::Add(h2, mv, w) => if h2 == h {
                added_since_clear(ops.drop_last(), h).push((mv, w))
            } else {
                added_since_clear(ops.drop_last(), h)
            },
        }
    }
}

/// A book made by a sequence of calls holds, for each hash, exactly the moves added for it
/// since the last clear, in order; it holds an entry for a hash only when such a move exists.
pub proof fn lemma_book_history(ops: Seq<BookOp>, h: u64)
    ensures
        book_after(ops).contains_key(h) <==> added_since_clear(ops, h).len() > 0,
        book_after(ops).contains_key(h) ==> book_after(ops)[h] == added_since_clear(ops, h),
    decreases ops.len(),
{
    if ops.len() > 0 {
        lemma_book_history(ops.drop_last(), h);
    }
}

/// A book's pick for a list of moves is one of those moves.
pub proof fn lemma_pick_is_listed(moves: Seq<(Move, u32)>)
    ensures
        book_pick(moves) matches Some(x) ==> exists|j: int| 0 <= j < moves.len() && #[trigger] moves[j].0 == x,
{
    if moves.len() > 0 && weight_sum(moves) != 0 {
        lemma_pick_from_listed(moves, 0, (weight_sum(moves) % 100) as int);
    }
}

proof fn lemma_pick_from_listed(moves: Seq<(Move, u32)>, i: nat, rng: int)
    requires
        moves.len() > 0,
    ensures
        exists|j: int| 0 <= j < moves.len() && #[trigger] moves[j].0 == pick_from(moves, i, rng),
    decreases moves.len() - i,
{
    if i >= moves.len() {
        assert(moves[0].0 == pick_from(moves, i, rng));
    } else if rng < moves[i as int].1 {
        assert(moves[i as int].0 == pick_from(moves, i, rng));
    } else {
        lemma_pick_from_listed(moves, i + 1, rng - moves[i as int].1);
    }
}

/// For a book made by a sequence of calls, the book move of a hash is `None` exactly when no
/// move was added for it since the last clear, and otherwise one of those moves.
pub proof fn lemma_book_move_history(ops: Seq<BookOp>, h: u64)
    ensures
        ({
            let b = book_after(ops);
            let got = if b.contains_key(h) { book_pick(b[h]) } else { None };
            &&& got is None <==> added_since_clear(ops, h).len() == 0
            &&& got matches Some(x) ==> exists|j: int|
                0 <= j < added_since_clear(ops, h).len() && #[trigger] added_since_clear(ops, h)[j].0 == x
        }),
{
    lemma_book_history(ops, h);
    lemma_pick_is_listed(added_since_clear(ops, h));
}

} // verus!
