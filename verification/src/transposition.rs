use vstd::prelude::*;
use crate::movegen::Move;

use rand::rngs::StdRng;
use rand::{Rng, SeedableRng};
use rand::distributions::Standard;

verus! {

/// How a stored score bounds the true score.
#[derive(Clone, Copy, PartialEq, Eq, Structural, Debug)]
pub enum NodeType {
    /// Exact score (PV node).
    Exact,
    /// The true score is at least the stored one (fail-high).
    LowerBound,
    /// The true score is at most the stored one (fail-low).
    UpperBound,
}

#[derive(Clone, Copy, Debug)]
pub struct TTEntry {
    pub hash: u64,
    pub depth: u8,
    pub score: i32,
    pub node_type: NodeType,
    pub best_move: Option<Move>,
    pub age: u8,
}

impl TTEntry {
    pub fn new(hash: u64, depth: u8, score: i32, node_type: NodeType, best_move: Option<Move>, age: u8) -> (r: TTEntry)
        ensures
            r == (TTEntry { hash, depth, score, node_type, best_move, age }),
    {
        TTEntry { hash, depth, score, node_type, best_move, age }
    }
}

/// Whether `n` is a power of two.
pub open spec fn is_pow2(n: nat) -> bool
    decreases n,
{
    if n <= 1 {
        n == 1
    } else {
        n % 2 == 0 && is_pow2(n / 2)
    }
}

/// The slot of a hash in a table of `size` slots.
pub open spec fn slot_of(hash: u64, size: nat) -> int {
    (hash as usize) as int % (size as int)
}

/// The replacement rule: an empty slot, the same position, a search at least as deep, or an
/// entry left from an earlier search is overwritten.
pub open spec fn should_replace(old: Option<TTEntry>, hash: u64, depth: u8, age: u8) -> bool {
    match old {
        None => true,
        Some(o) => o.hash == hash || depth >= o.depth || o.age != age,
    }
}

/// What a probe for `hash` finds: the entry in its slot, when it was stored for that hash.
pub open spec fn probed(slots: Seq<Option<TTEntry>>, size: nat, hash: u64) -> Option<TTEntry> {
    match slots[slot_of(hash, size)] {
        Some(e) => if e.hash == hash {
            Some(e)
        } else {
            None
        },
        None => None,
    }
}

/// The slots after storing an entry for `hash` under the replacement rule.
pub open spec fn stored(
    slots: Seq<Option<TTEntry>>,
    size: nat,
    age: u8,
    hash: u64,
    depth: u8,
    score: i32,
    node_type: NodeType,
    best_move: Option<Move>,
) -> Seq<Option<TTEntry>> {
    let i = slot_of(hash, size);
    if should_replace(slots[i], hash, depth, age) {
        slots.update(i, Some(TTEntry { hash, depth, score, node_type, best_move, age }))
    } else {
        slots
    }
}

/// Reading after writing: once an entry for `hash` has been stored (the slot was free, held
/// the same position, a shallower search or an older one), a probe for `hash` returns it.
pub proof fn lemma_probe_after_store(
    slots: Seq<Option<TTEntry>>,
    size: nat,
    age: u8,
    hash: u64,
    depth: u8,
    score: i32,
    node_type: NodeType,
    best_move: Option<Move>,
)
    requires
        size >= 1,
        slots.len() == size,
        should_replace(slots[slot_of(hash, size)], hash, depth, age),
    ensures
        probed(stored(slots, size, age, hash, depth, score, node_type, best_move), size, hash)
            == Some(TTEntry { hash, depth, score, node_type, best_move, age }),
{
}

/// A position already in the table is always refreshed by a new store for it.
pub proof fn lemma_hit_is_replaced(slots: Seq<Option<TTEntry>>, size: nat, age: u8, hash: u64, depth: u8)
    requires
        size >= 1,
        slots.len() == size,
        probed(slots, size, hash) is Some,
    ensures
        should_replace(slots[slot_of(hash, size)], hash, depth, age),
{
}

/// A store leaves the probes of hashes in other slots unchanged.
pub proof fn lemma_store_other_slot(
    slots: Seq<Option<TTEntry>>,
    size: nat,
    age: u8,
    hash: u64,
    depth: u8,
    score: i32,
    node_type: NodeType,
    best_move: Option<Move>,
    other: u64,
)
    requires
        size >= 1,
        slots.len() == size,
        slot_of(other, size) != slot_of(hash, size),
    ensures
        probed(stored(slots, size, age, hash, depth, score, node_type, best_move), size, other)
            == probed(slots, size, other),
{
}

/// The number of filled slots among the first `n`.
pub open spec fn filled_count(slots: Seq<Option<TTEntry>>, n: int) -> nat
    decreases n,
{
    if n <= 0 {
        0
    } else {
        filled_count(slots, n - 1) + (if slots[n - 1] is Some {
            1nat
        } else {
            0nat
        })
    }
}

/// A hash-indexed table of search results, one entry per slot.
pub struct TranspositionTable {
    table: Vec<Option<TTEntry>>,
    size: usize,
    age: u8,
}

impl TranspositionTable {
    /// The table has `size` slots, `size` a power of two.
    pub closed spec fn wf(self) -> bool {
        &&& self.table.len() == self.size
        &&& self.size >= 1
        &&& is_pow2(self.size as nat)
    }

    /// The slots, in index order.
    pub closed spec fn slots(self) -> Seq<Option<TTEntry>> {
        self.table@
    }

    /// The number of slots.
    pub closed spec fn size(self) -> nat {
        self.size as nat
    }

    /// The age stamped on new entries.
    pub closed spec fn age(self) -> u8 {
        self.age
    }

    pub proof fn lemma_wf(self)
        requires
            self.wf(),
        ensures
            self.slots().len() == self.size(),
            self.size() >= 1,
    {
    }

    /// Create a table of (the next power of two of) `size_mb` megabytes' worth of entries.
    pub fn new(size_mb: usize) -> (r: TranspositionTable)
        requires
            size_mb * 1024 * 1024 <= usize::MAX / 2,
        ensures
            r.wf(),
            is_next_pow2(r.size(), entries_for(size_mb as nat)),
            r.slots().len() == r.size(),
            forall|i: int| 0 <= i < r.slots().len() ==> r.slots()[i] is None,
            r.age() == 0,
    {
        let entry_size = std::mem::size_of::<Option<TTEntry>>();
        let bytes = size_mb * 1024 * 1024;
        // An entry holds a 64-bit hash, so its size is never zero.
        let num_entries = if entry_size > 0 {
            bytes / entry_size
        } else {
            bytes
        };
        let size = next_power_of_two(num_entries);
        let mut table: Vec<Option<TTEntry>> = Vec::new();
        let mut i: usize = 0;
        while i < size
            invariant
                i <= size,
                table.len() == i,
                forall|j: int| 0 <= j < table.len() ==> table@[j] is None,
            decreases size - i,
        {
            table.push(None);
            i = i + 1;
        }
        TranspositionTable { table, size, age: 0 }
    }

    /// How many of the first `min(1000, size)` slots are filled, and that sample size: the
    /// table's fill rate is the first over the second.
    pub fn usage_counts(&self) -> (r: (u64, u64))
        requires
            self.wf(),
        ensures
            r.1 == (if self.size() < 1000 {
                self.size()
            } else {
                1000
            }),
            r.0 == filled_count(self.slots(), r.1 as int),
    {
        let sample_size: usize = if self.size < 1000 {
            self.size
        } else {
            1000
        };
        let mut filled: u64 = 0;
        let mut i: usize = 0;
        while i < sample_size
            invariant
                i <= sample_size,
                sample_size <= self.table@.len(),
                sample_size <= 1000,
                filled == filled_count(self.table@, i as int),
                filled <= i,
            decreases sample_size - i,
        {
            if self.table[i].is_some() {
                filled = filled + 1;
            }
            i = i + 1;
        }
        (filled, sample_size as u64)
    }

    /// The entry stored for `hash`, when its slot holds that hash.
    pub fn probe(&self, hash: u64) -> (r: Option<TTEntry>)
        requires
            self.wf(),
        ensures
            r == probed(self.slots(), self.size(), hash),
    {
        let index = (hash as usize) % self.size;
        if let Some(e) = self.table[index] {
            if e.hash == hash {
                return Some(e);
            }
        }
        None
    }

    /// Store an entry for `hash`, under the replacement rule of `should_replace`.
    pub fn store(&mut self, hash: u64, depth: u8, score: i32, node_type: NodeType, best_move: Option<Move>)
        requires
            old(self).wf(),
        ensures
            final(self).wf(),
            final(self).size() == old(self).size(),
            final(self).age() == old(self).age(),
            final(self).slots().len() == final(self).size(),
            final(self).slots() == stored(
                old(self).slots(),
                old(self).size(),
                old(self).age(),
                hash,
                depth,
                score,
                node_type,
                best_move,
            ),
    {
        let index = (hash as usize) % self.size;
        let new_entry = TTEntry::new(hash, depth, score, node_type, best_move, self.age);
        let replace = match self.table[index] {
            None => true,
            Some(old_entry) => old_entry.hash == hash || new_entry.depth >= old_entry.depth
                || old_entry.age != self.age,
        };
        if replace {
            self.table.set(index, Some(new_entry));
        }
    }

    /// Empty every slot.
    pub fn clear(&mut self)
        requires
            old(self).wf(),
        ensures
            final(self).wf(),
            final(self).size() == old(self).size(),
            final(self).age() == old(self).age(),
            final(self).slots().len() == final(self).size(),
            forall|i: int| 0 <= i < final(self).slots().len() ==> final(self).slots()[i] is None,
    {
        let mut i: usize = 0;
        while i < self.table.len()
            invariant
                i <= self.table.len(),
                self.table.len() == old(self).table.len(),
                self.size == old(self).size,
                self.age == old(self).age,
                self.table.len() == self.size,
                self.size >= 1,
                is_pow2(self.size as nat),
                forall|j: int| 0 <= j < i ==> self.table@[j] is None,
            decreases self.table.len() - i,
        {
            self.table.set(i, None);
            i = i + 1;
        }
    }

    /// Start a new search: entries stored from now on carry the next age (modulo 256).
    pub fn new_search(&mut self)
        requires
            old(self).wf(),
        ensures
            final(self).wf(),
            final(self).size() == old(self).size(),
            final(self).slots() == old(self).slots(),
            final(self).slots().len() == final(self).size(),
            final(self).age() == (if old(self).age() == 255 {
                0u8
            } else {
                (old(self).age() + 1) as u8
            }),
    {
        self.age = self.age.wrapping_add(1);
    }
}

impl Default for TranspositionTable {
    fn default() -> (r: TranspositionTable)
        ensures
            r.wf(),
            is_next_pow2(r.size(), entries_for(64)),
            r.slots().len() == r.size(),
            forall|i: int| 0 <= i < r.slots().len() ==> r.slots()[i] is None,
            r.age() == 0,
    {
        TranspositionTable::new(64)
    }
}

/// `r` is the smallest power of two that is at least `n` (one for zero).
pub open spec fn is_next_pow2(r: nat, n: nat) -> bool {
    &&& is_pow2(r)
    &&& r >= n
    &&& (r == 1 || r / 2 < n)
}

/// The number of entries that `size_mb` megabytes hold.
pub open spec fn entries_for(size_mb: nat) -> nat {
    let bytes = size_mb * 1024 * 1024;
    let es = vstd::layout::size_of::<Option<TTEntry>>();
    if es > 0 {
        bytes / es
    } else {
        bytes
    }
}

/// The smallest power of two at least `n`.
pub fn next_power_of_two(n: usize) -> (r: usize)
    requires
        n <= usize::MAX / 2,
    ensures
        is_next_pow2(r as nat, n as nat),
{
    let mut p: usize = 1;
    while p < n
        invariant
            1 <= p,
            is_pow2(p as nat),
            p == 1 || p / 2 < n,
            n <= usize::MAX / 2,
        decreases usize::MAX - p,
    {
        assert(((p * 2) as nat) / 2 == p as nat);
        p = p * 2;
    }
    p
}

/// The first `count` numbers that a `StdRng` seeded by `seed_from_u64(seed)` yields as `u64`s,
/// in the order drawn.
pub uninterp spec fn seeded_u64s(seed: u64, count: nat) -> Seq<u64>;

/// Trusted: `StdRng::seed_from_u64(seed)`, then `count` draws of a `u64` from the `Standard`
/// distribution (`sample_iter`, the same draws as repeated `Rng::gen`); the result is named
/// `seeded_u64s` of the seed and the count, and holds `count` numbers.
#[verifier::external_body]
fn draw_seeded(seed: u64, count: usize) -> (r: Vec<u64>)
    ensures
        r@ == seeded_u64s(seed, count as nat),
        r@.len() == count,
{
    StdRng::seed_from_u64(seed).sample_iter(Standard).take(count).collect()
}

/// The seed of the Zobrist keys.
pub const ZOBRIST_SEED: u64 = 0x123456789ABCDEF0;

/// How many keys a `ZobristKeys` holds.
pub const ZOBRIST_KEY_COUNT: usize = 793;

/// Random keys for Zobrist hashing: one per colour, piece type and square, one per castling
/// rights combination, one per en passant file, and one for the side to move.
pub struct ZobristKeys {
    pub pieces: [[[u64; 64]; 6]; 2],
    pub castling: [u64; 16],
    pub en_passant: [u64; 8],
    pub side_to_move: u64,
}

impl ZobristKeys {
    /// Keys drawn in order (pieces by colour, type and square, then castling, en passant and
    /// side) from a `StdRng` seeded with `ZOBRIST_SEED`.
    pub fn new() -> (r: ZobristKeys)
        ensures
            forall|c: int, t: int, s: int|
                0 <= c < 2 && 0 <= t < 6 && 0 <= s < 64 ==> #[trigger] r.pieces[c][t][s]
                    == seeded_u64s(ZOBRIST_SEED, ZOBRIST_KEY_COUNT as nat)[c * 384 + t * 64 + s],
            forall|i: int| 0 <= i < 16 ==> #[trigger] r.castling[i] == seeded_u64s(ZOBRIST_SEED, ZOBRIST_KEY_COUNT as nat)[768 + i],
            forall|i: int| 0 <= i < 8 ==> #[trigger] r.en_passant[i] == seeded_u64s(ZOBRIST_SEED, ZOBRIST_KEY_COUNT as nat)[784 + i],
            r.side_to_move == seeded_u64s(ZOBRIST_SEED, ZOBRIST_KEY_COUNT as nat)[792],
    {
        let draws = draw_seeded(ZOBRIST_SEED, ZOBRIST_KEY_COUNT);
        let ghost d = draws@;
        let mut pieces: [[[u64; 64]; 6]; 2] = [[[0u64; 64]; 6]; 2];
        let mut color: usize = 0;
        while color < 2
            invariant
                color <= 2,
                draws@ == d,
                d.len() == 793,
                forall|c: int, t: int, s: int|
                    0 <= c < color && 0 <= t < 6 && 0 <= s < 64 ==> #[trigger] pieces[c][t][s] == d[c * 384 + t * 64 + s],
            decreases 2 - color,
        {
            let mut by_type: [[u64; 64]; 6] = pieces[color];
            let mut piece_type: usize = 0;
            while piece_type < 6
                invariant
                    color < 2,
                    piece_type <= 6,
                    draws@ == d,
                    d.len() == 793,
                    forall|t: int, s: int|
                        0 <= t < piece_type && 0 <= s < 64 ==> #[trigger] by_type[t][s] == d[color * 384 + t * 64 + s],
                decreases 6 - piece_type,
            {
                let mut by_square: [u64; 64] = by_type[piece_type];
                let mut square: usize = 0;
                while square < 64
                    invariant
                        color < 2,
                        piece_type < 6,
                        square <= 64,
                        draws@ == d,
                        d.len() == 793,
                        forall|s: int| 0 <= s < square ==> #[trigger] by_square[s] == d[color * 384 + piece_type * 64 + s],
                    decreases 64 - square,
                {
                    by_square[square] = draws[color * 384 + piece_type * 64 + square];
                    square = square + 1;
                }
                by_type[piece_type] = by_square;
                piece_type = piece_type + 1;
            }
            pieces[color] = by_type;
            color = color + 1;
        }
        let mut castling: [u64; 16] = [0u64; 16];
        let mut i: usize = 0;
        while i < 16
            invariant
                i <= 16,
                draws@ == d,
                d.len() == 793,
                forall|j: int| 0 <= j < i ==> #[trigger] castling[j] == d[768 + j],
            decreases 16 - i,
        {
            castling[i] = draws[768 + i];
            i = i + 1;
        }
        let mut en_passant: [u64; 8] = [0u64; 8];
        let mut i: usize = 0;
        while i < 8
            invariant
                i <= 8,
                draws@ == d,
                d.len() == 793,
                forall|j: int| 0 <= j < i ==> #[trigger] en_passant[j] == d[784 + j],
            decreases 8 - i,
        {
            en_passant[i] = draws[784 + i];
            i = i + 1;
        }
        let side_to_move = draws[792];
        ZobristKeys { pieces, castling, en_passant, side_to_move }
    }
}

} // verus!
