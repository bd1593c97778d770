use vstd::prelude::*;
use vstd::std_specs::bits::{u64_trailing_zeros, u64_leading_zeros, axiom_u64_trailing_zeros, axiom_u64_leading_zeros};

verus! {

/// Whether square `sq` (0..64) is set in the 64-bit board `x`.
pub open spec fn bit_at(x: u64, sq: int) -> bool {
    0 <= sq < 64 && (x >> (sq as u64)) & 1u64 == 1u64
}

/// Number of set bits of `x`.
pub open spec fn popcount(x: u64) -> nat
    decreases x,
{
    if x == 0 {
        0
    } else {
        proof {
            lemma_shr_smaller(x);
        }
        (x & 1u64) as nat + popcount(x >> 1u64)
    }
}

/// The set squares of `x`, lowest first: repeatedly take the lowest set bit and clear it.
pub open spec fn squares_seq(x: u64) -> Seq<u8>
    decreases x,
{
    if x == 0 {
        Seq::empty()
    } else {
        proof {
            lemma_clear_lowest_smaller(x);
        }
        seq![u64_trailing_zeros(x) as u8] + squares_seq(x & ((x - 1) as u64))
    }
}

pub proof fn lemma_shr_smaller(x: u64)
    requires
        x != 0,
    ensures
        x >> 1u64 < x,
{
    assert(x != 0 ==> x >> 1u64 < x) by (bit_vector);
}

pub proof fn lemma_clear_lowest_smaller(x: u64)
    requires
        x != 0,
    ensures
        x & ((x - 1) as u64) < x,
{
    assert(x != 0 ==> x & ((x - 1) as u64) < x) by (bit_vector);
}

/// Shift helpers with the masks the board uses to stop wrap-around.
pub open spec fn not_a_file() -> u64 {
    0xFEFE_FEFE_FEFE_FEFEu64
}

pub open spec fn not_h_file() -> u64 {
    0x7F7F_7F7F_7F7F_7F7Fu64
}

pub open spec fn not_ab_file() -> u64 {
    0xFCFC_FCFC_FCFC_FCFCu64
}

pub open spec fn not_gh_file() -> u64 {
    0x3F3F_3F3F_3F3F_3F3Fu64
}

/// The two-character name of a square: file letter then rank digit.
pub open spec fn square_name(sq: u8) -> Seq<char> {
    seq![((97 + sq % 8) as u32) as char, ((49 + sq / 8) as u32) as char]
}

/// The square a two-character name denotes, if any.
pub open spec fn name_square(s: Seq<char>) -> Option<u8> {
    if s.len() == 2 && 'a' <= s[0] <= 'h' && '1' <= s[1] <= '8' {
        Some(((s[1] as u32 - 49) * 8 + (s[0] as u32 - 97)) as u8)
    } else {
        None
    }
}

/// Bitboard representation of the chess board.
/// Each bit represents a square on the board (0-63):
/// bit 0 = a1, bit 7 = h1, bit 56 = a8, bit 63 = h8.
#[derive(Clone, Copy, PartialEq, Eq, Structural, Hash, Debug)]
pub struct Bitboard(pub u64);

pub const EMPTY_BB: u64 = 0;
pub const ALL_BB: u64 = 0xFFFF_FFFF_FFFF_FFFF;
pub const RANK_1_BB: u64 = 0x0000_0000_0000_00FF;
pub const RANK_8_BB: u64 = 0xFF00_0000_0000_0000;
pub const FILE_A_BB: u64 = 0x0101_0101_0101_0101;
pub const FILE_H_BB: u64 = 0x8080_8080_8080_8080;
pub const NOT_A_FILE_BB: u64 = 0xFEFE_FEFE_FEFE_FEFE;
pub const NOT_H_FILE_BB: u64 = 0x7F7F_7F7F_7F7F_7F7F;
pub const NOT_AB_FILE_BB: u64 = 0xFCFC_FCFC_FCFC_FCFC;
pub const NOT_GH_FILE_BB: u64 = 0x3F3F_3F3F_3F3F_3F3F;

impl Bitboard {
    pub fn new(value: u64) -> (r: Bitboard)
        ensures
            r.0 == value,
    {
        Bitboard(value)
    }

    /// The board with only `square` set.
    pub fn from_square(square: u8) -> (r: Bitboard)
        requires
            square < 64,
        ensures
            r.0 == 1u64 << square,
            forall|s: int| #[trigger] bit_at(r.0, s) <==> s == square,
    {
        proof {
            lemma_single_bit(square);
        }
        Bitboard(1u64 << square)
    }

    pub fn is_empty(self) -> (r: bool)
        ensures
            r == (self.0 == 0),
    {
        self.0 == 0
    }

    pub fn is_not_empty(self) -> (r: bool)
        ensures
            r == (self.0 != 0),
    {
        self.0 != 0
    }

    pub fn set_bit(&mut self, square: u8)
        requires
            square < 64,
        ensures
            final(self).0 == old(self).0 | (1u64 << square),
            forall|s: int| #[trigger] bit_at(final(self).0, s) <==> (bit_at(old(self).0, s) || s == square),
    {
        proof {
            lemma_set_bit(self.0, square);
        }
        self.0 = self.0 | (1u64 << square);
    }

    pub fn clear_bit(&mut self, square: u8)
        requires
            square < 64,
        ensures
            final(self).0 == old(self).0 & !(1u64 << square),
            forall|s: int| #[trigger] bit_at(final(self).0, s) <==> (bit_at(old(self).0, s) && s != square),
    {
        proof {
            lemma_clear_bit(self.0, square);
        }
        self.0 = self.0 & !(1u64 << square);
    }

    pub fn toggle_bit(&mut self, square: u8)
        requires
            square < 64,
        ensures
            final(self).0 == old(self).0 ^ (1u64 << square),
            forall|s: int| #[trigger] bit_at(final(self).0, s) <==> (bit_at(old(self).0, s) != (s == square)),
    {
        proof {
            lemma_toggle_bit(self.0, square);
        }
        self.0 = self.0 ^ (1u64 << square);
    }

    pub fn test_bit(self, square: u8) -> (r: bool)
        requires
            square < 64,
        ensures
            r == ((self.0 & (1u64 << square)) != 0),
            r == bit_at(self.0, square as int),
    {
        proof {
            lemma_test_bit(self.0, square);
        }
        (self.0 & (1u64 << square)) != 0
    }

    /// Count the number of set bits (population count).
    pub fn count(self) -> (r: u32)
        ensures
            r == popcount(self.0),
    {
        let mut x = self.0;
        let mut c: u32 = 0;
        proof {
            lemma_popcount_bound(self.0);
        }
        while x != 0
            invariant
                c + popcount(x) == popcount(self.0),
                popcount(self.0) <= 64,
            decreases x,
        {
            proof {
                lemma_shr_smaller(x);
            }
            c = c + (x & 1) as u32;
            x = x >> 1;
        }
        c
    }

    /// Index of the least significant set bit (64 when empty).
    pub fn lsb(self) -> (r: u8)
        ensures
            r == u64_trailing_zeros(self.0),
            self.0 != 0 ==> r < 64 && bit_at(self.0, r as int),
            self.0 == 0 ==> r == 64,
    {
        proof {
            axiom_u64_trailing_zeros(self.0);
        }
        self.0.trailing_zeros() as u8
    }

    /// Index of the most significant set bit.
    pub fn msb(self) -> (r: u8)
        requires
            self.0 != 0,
        ensures
            r == 63 - u64_leading_zeros(self.0),
            r < 64,
            bit_at(self.0, r as int),
    {
        proof {
            axiom_u64_leading_zeros(self.0);
            let x = self.0;
            let sh = (63 - u64_leading_zeros(x)) as u64;
            assert(((x >> sh) & 1u64) != 0u64 ==> ((x >> sh) & 1u64) == 1u64) by (bit_vector);
        }
        let lz = self.0.leading_zeros();
        63 - lz as u8
    }

    /// Clear the least significant set bit and return its index.
    pub fn pop_lsb(&mut self) -> (r: u8)
        requires
            old(self).0 != 0,
        ensures
            r == u64_trailing_zeros(old(self).0),
            r < 64,
            final(self).0 == old(self).0 & ((old(self).0 - 1) as u64),
            squares_seq(old(self).0) == seq![r] + squares_seq(final(self).0),
    {
        let lsb = self.lsb();
        self.0 = self.0 & (self.0 - 1);
        lsb
    }

    /// The set squares, lowest first.
    pub fn squares(self) -> (r: Vec<u8>)
        ensures
            r@ == squares_seq(self.0),
    {
        let mut bb = self;
        let mut out: Vec<u8> = Vec::new();
        while bb.0 != 0
            invariant
                out@ + squares_seq(bb.0) == squares_seq(self.0),
            decreases bb.0,
        {
            proof {
                lemma_clear_lowest_smaller(bb.0);
            }
            let sq = bb.pop_lsb();
            out.push(sq);
            assert(out@ + squares_seq(bb.0) =~= squares_seq(self.0));
        }
        assert(out@ =~= out@ + squares_seq(bb.0));
        out
    }

    /// Rank of a square (0-7 for board squares).
    pub fn rank_of(square: u8) -> (r: u8)
        ensures
            r == square / 8,
    {
        assert(square >> 3u8 == square / 8) by (bit_vector);
        square >> 3
    }

    /// File of a square (0-7).
    pub fn file_of(square: u8) -> (r: u8)
        ensures
            r == square % 8,
    {
        assert(square & 7u8 == square % 8) by (bit_vector);
        square & 7
    }

    /// Square index from file and rank.
    pub fn square_from_coords(file: u8, rank: u8) -> (r: u8)
        requires
            rank * 8 + file < 256,
        ensures
            r == rank * 8 + file,
    {
        rank * 8 + file
    }

    /// Board of a whole rank.
    pub fn rank(rank: u8) -> (r: Bitboard)
        requires
            rank < 8,
        ensures
            r.0 == 0xFFu64 << (rank * 8) as u64,
    {
        Bitboard(0xFFu64 << (rank * 8))
    }

    /// Board of a whole file.
    pub fn file(file: u8) -> (r: Bitboard)
        requires
            file < 64,
        ensures
            r.0 == 0x0101_0101_0101_0101u64 << file,
    {
        Bitboard(0x0101_0101_0101_0101u64 << file)
    }

    /// Shift toward rank 8.
    pub fn north(self) -> (r: Bitboard)
        ensures
            r.0 == self.0 << 8u64,
    {
        Bitboard(self.0 << 8)
    }

    /// Shift toward rank 1.
    pub fn south(self) -> (r: Bitboard)
        ensures
            r.0 == self.0 >> 8u64,
    {
        Bitboard(self.0 >> 8)
    }

    /// Shift toward the h file.
    pub fn east(self) -> (r: Bitboard)
        ensures
            r.0 == (self.0 << 1u64) & not_a_file(),
    {
        Bitboard((self.0 << 1) & NOT_A_FILE_BB)
    }

    /// Shift toward the a file.
    pub fn west(self) -> (r: Bitboard)
        ensures
            r.0 == (self.0 >> 1u64) & not_h_file(),
    {
        Bitboard((self.0 >> 1) & NOT_H_FILE_BB)
    }

    pub fn north_east(self) -> (r: Bitboard)
        ensures
            r.0 == (self.0 << 9u64) & not_a_file(),
    {
        Bitboard((self.0 << 9) & NOT_A_FILE_BB)
    }

    pub fn north_west(self) -> (r: Bitboard)
        ensures
            r.0 == (self.0 << 7u64) & not_h_file(),
    {
        Bitboard((self.0 << 7) & NOT_H_FILE_BB)
    }

    pub fn south_east(self) -> (r: Bitboard)
        ensures
            r.0 == (self.0 >> 7u64) & not_a_file(),
    {
        Bitboard((self.0 >> 7) & NOT_A_FILE_BB)
    }

    pub fn south_west(self) -> (r: Bitboard)
        ensures
            r.0 == (self.0 >> 9u64) & not_h_file(),
    {
        Bitboard((self.0 >> 9) & NOT_H_FILE_BB)
    }

    /// Square index of a name such as "e4".
    pub fn square_from_name(name: &str) -> (r: Option<u8>)
        ensures
            r == name_square(name@),
    {
        let n = name.unicode_len();
        if n != 2 {
            return None;
        }
        let c0 = name.get_char(0);
        let c1 = name.get_char(1);
        if 'a' <= c0 && c0 <= 'h' && '1' <= c1 && c1 <= '8' {
            let file = (c0 as u32 - 97) as u8;
            let rank = (c1 as u32 - 49) as u8;
            Some(Self::square_from_coords(file, rank))
        } else {
            None
        }
    }

    /// Name of a square such as "e4".
    pub fn square_to_name(square: u8) -> (r: String)
        ensures
            r@ == square_name(square),
    {
        let file = Self::file_of(square);
        let rank = Self::rank_of(square);
        let mut v: Vec<char> = Vec::new();
        v.push(char_from_u32((97 + file) as u32));
        v.push(char_from_u32((49 + rank) as u32));
        assert(v@ =~= square_name(square));
        crate::text::string_from_chars(&v)
    }
}

/// The character with an ASCII code below 128.
pub fn char_from_u32(c: u32) -> (r: char)
    requires
        c < 128,
    ensures
        r == c as char,
        r as u32 == c,
{
    crate::text::ascii_char(c as u8)
}

pub proof fn lemma_single_bit(square: u8)
    requires
        square < 64,
    ensures
        forall|s: int| #[trigger] bit_at(1u64 << square, s) <==> s == square,
{
    assert forall|s: int| #[trigger] bit_at(1u64 << square, s) <==> s == square by {
        if 0 <= s < 64 {
            let t = s as u64;
            assert(square < 64 && t < 64 ==> (((1u64 << square) >> t) & 1u64 == 1u64 <==> t == square))
                by (bit_vector);
        }
    }
}

pub proof fn lemma_set_bit(x: u64, square: u8)
    requires
        square < 64,
    ensures
        forall|s: int| #[trigger] bit_at(x | (1u64 << square), s) <==> (bit_at(x, s) || s == square),
{
    assert forall|s: int| #[trigger] bit_at(x | (1u64 << square), s) <==> (bit_at(x, s) || s == square) by {
        if 0 <= s < 64 {
            let t = s as u64;
            assert(square < 64 && t < 64 ==> (((x | (1u64 << square)) >> t) & 1u64 == 1u64 <==> ((x >> t) & 1u64 == 1u64 || t == square)))
                by (bit_vector);
        }
    }
}

pub proof fn lemma_clear_bit(x: u64, square: u8)
    requires
        square < 64,
    ensures
        forall|s: int| #[trigger] bit_at(x & !(1u64 << square), s) <==> (bit_at(x, s) && s != square),
{
    assert forall|s: int| #[trigger] bit_at(x & !(1u64 << square), s) <==> (bit_at(x, s) && s != square) by {
        if 0 <= s < 64 {
            let t = s as u64;
            assert(square < 64 && t < 64 ==> (((x & !(1u64 << square)) >> t) & 1u64 == 1u64 <==> ((x >> t) & 1u64 == 1u64 && t != square)))
                by (bit_vector);
        }
    }
}

pub proof fn lemma_toggle_bit(x: u64, square: u8)
    requires
        square < 64,
    ensures
        forall|s: int| #[trigger] bit_at(x ^ (1u64 << square), s) <==> (bit_at(x, s) != (s == square)),
{
    assert forall|s: int| #[trigger] bit_at(x ^ (1u64 << square), s) <==> (bit_at(x, s) != (s == square)) by {
        if 0 <= s < 64 {
            let t = s as u64;
            assert(square < 64 && t < 64 ==> (((x ^ (1u64 << square)) >> t) & 1u64 == 1u64 <==> (((x >> t) & 1u64 == 1u64) != (t == square))))
                by (bit_vector);
        }
    }
}

pub proof fn lemma_test_bit(x: u64, square: u8)
    requires
        square < 64,
    ensures
        ((x & (1u64 << square)) != 0) == bit_at(x, square as int),
{
    let t = square as u64;
    assert(t < 64 ==> (((x & (1u64 << t)) != 0) == ((x >> t) & 1u64 == 1u64))) by (bit_vector);
}

pub proof fn lemma_popcount_zero_iff(x: u64)
    ensures
        popcount(x) == 0 <==> x == 0,
    decreases x,
{
    if x != 0 {
        assert(x >> 1u64 < x) by (bit_vector)
            requires
                x != 0,
        ;
        assert((x & 1u64) == 0u64 ==> (x >> 1u64) != 0u64) by (bit_vector)
            requires
                x != 0,
        ;
        lemma_popcount_zero_iff(x >> 1u64);
    }
}

/// A board has at most 64 set squares; the count of a shifted board is bounded by its width.
pub proof fn lemma_popcount_bound(x: u64)
    ensures
        popcount(x) <= 64,
{
    lemma_popcount_width(x, 64u64);
}

pub proof fn lemma_popcount_width(x: u64, w: u64)
    requires
        w <= 64,
        w < 64 ==> x >> w == 0,
    ensures
        popcount(x) <= w,
    decreases x,
{
    if x != 0 {
        assert(x >> 0u64 == x) by (bit_vector);
        assert(w != 0);
        let v: u64 = (w - 1) as u64;
        assert(x >> 1u64 < x) by (bit_vector)
            requires
                x != 0,
        ;
        assert((x >> 1u64) >> v == 0) by (bit_vector)
            requires
                w <= 64,
                w == v + 1,
                w < 64 ==> x >> w == 0,
        ;
        lemma_popcount_width(x >> 1u64, v);
        assert((x & 1u64) <= 1) by (bit_vector);
    }
}

/// Every listed square is a set square of the board.
pub proof fn lemma_squares_seq_bits(x: u64)
    ensures
        forall|i: int|
            0 <= i < squares_seq(x).len() ==> (#[trigger] squares_seq(x)[i]) < 64 && bit_at(
                x,
                squares_seq(x)[i] as int,
            ),
    decreases x,
{
    if x != 0 {
        lemma_clear_lowest_smaller(x);
        let y = x & ((x - 1) as u64);
        lemma_squares_seq_bits(y);
        axiom_u64_trailing_zeros(x);
        let t = u64_trailing_zeros(x);
        assert forall|s: int| #[trigger] bit_at(y, s) implies bit_at(x, s) by {
            let u = s as u64;
            assert(u < 64 && ((x & ((x - 1) as u64)) >> u) & 1u64 == 1u64 ==> (x >> u) & 1u64 == 1u64)
                by (bit_vector);
        }
        assert forall|i: int|
            0 <= i < squares_seq(x).len() implies (#[trigger] squares_seq(x)[i]) < 64 && bit_at(
                x,
                squares_seq(x)[i] as int,
            ) by {
            if i > 0 {
                assert(squares_seq(x)[i] == squares_seq(y)[i - 1]);
            }
        }
    }
}

/// A set square of a board shifted up by `k` ranks lies at or above rank `k`.
pub proof fn lemma_shl_bits_high(x: u64, k: u64, t: int)
    requires
        k < 64,
        bit_at(x << k, t),
    ensures
        t >= k,
        bit_at(x, t - k),
{
    let u = t as u64;
    assert(u < 64 && k < 64 && ((x << k) >> u) & 1u64 == 1u64 ==> u >= k) by (bit_vector);
    let v = (u - k) as u64;
    assert(u < 64 && k < 64 && u >= k && v == u - k && ((x << k) >> u) & 1u64 == 1u64 ==> (x >> v) & 1u64 == 1u64)
        by (bit_vector);
}

/// A set square of a board shifted down by `k` lies `k` below a set square of the board.
pub proof fn lemma_shr_bits_low(x: u64, k: u64, t: int)
    requires
        k < 64,
        bit_at(x >> k, t),
    ensures
        t + k < 64,
        bit_at(x, t + k),
{
    let u = t as u64;
    assert(u < 64 && k < 64 && ((x >> k) >> u) & 1u64 == 1u64 ==> u + k < 64) by (bit_vector);
    let v = (u + k) as u64;
    assert(u < 64 && k < 64 && u + k < 64 && v == u + k && ((x >> k) >> u) & 1u64 == 1u64 ==> (x >> v) & 1u64 == 1u64)
        by (bit_vector);
}

/// A set square of `a & b` is set in both.
pub proof fn lemma_and_bits(a: u64, b: u64, t: int)
    requires
        bit_at(a & b, t),
    ensures
        bit_at(a, t),
        bit_at(b, t),
{
    let u = t as u64;
    assert(u < 64 && ((a & b) >> u) & 1u64 == 1u64 ==> (a >> u) & 1u64 == 1u64 && (b >> u) & 1u64 == 1u64)
        by (bit_vector);
}


/// The empty board has no square.
pub proof fn lemma_zero_bits()
    ensures
        forall|s: int| !#[trigger] bit_at(0u64, s),
{
    assert forall|s: int| !#[trigger] bit_at(0u64, s) by {
        if 0 <= s < 64 {
            let t = s as u64;
            assert(t < 64 ==> (0u64 >> t) & 1u64 == 0u64) by (bit_vector);
        }
    }
}

/// A square is in a union when it is in either part.
pub proof fn lemma_or_bits(a: u64, b: u64)
    ensures
        forall|s: int| #[trigger] bit_at(a | b, s) <==> (bit_at(a, s) || bit_at(b, s)),
{
    assert forall|s: int| #[trigger] bit_at(a | b, s) <==> (bit_at(a, s) || bit_at(b, s)) by {
        if 0 <= s < 64 {
            let t = s as u64;
            assert(t < 64 ==> (((a | b) >> t) & 1u64 == 1u64 <==> ((a >> t) & 1u64 == 1u64 || (b >> t)
                & 1u64 == 1u64))) by (bit_vector);
        }
    }
}

/// Two boards with the same squares are equal.
pub proof fn lemma_bits_ext(x: u64, y: u64)
    requires
        forall|s: int| 0 <= s < 64 ==> #[trigger] bit_at(x, s) == bit_at(y, s),
    ensures
        x == y,
{
    assert(bit_at(x, 0) == bit_at(y, 0));
    assert(bit_at(x, 1) == bit_at(y, 1));
    assert(bit_at(x, 2) == bit_at(y, 2));
    assert(bit_at(x, 3) == bit_at(y, 3));
    assert(bit_at(x, 4) == bit_at(y, 4));
    assert(bit_at(x, 5) == bit_at(y, 5));
    assert(bit_at(x, 6) == bit_at(y, 6));
    assert(bit_at(x, 7) == bit_at(y, 7));
    assert(bit_at(x, 8) == bit_at(y, 8));
    assert(bit_at(x, 9) == bit_at(y, 9));
    assert(bit_at(x, 10) == bit_at(y, 10));
    assert(bit_at(x, 11) == bit_at(y, 11));
    assert(bit_at(x, 12) == bit_at(y, 12));
    assert(bit_at(x, 13) == bit_at(y, 13));
    assert(bit_at(x, 14) == bit_at(y, 14));
    assert(bit_at(x, 15) == bit_at(y, 15));
    assert(bit_at(x, 16) == bit_at(y, 16));
    assert(bit_at(x, 17) == bit_at(y, 17));
    assert(bit_at(x, 18) == bit_at(y, 18));
    assert(bit_at(x, 19) == bit_at(y, 19));
    assert(bit_at(x, 20) == bit_at(y, 20));
    assert(bit_at(x, 21) == bit_at(y, 21));
    assert(bit_at(x, 22) == bit_at(y, 22));
    assert(bit_at(x, 23) == bit_at(y, 23));
    assert(bit_at(x, 24) == bit_at(y, 24));
    assert(bit_at(x, 25) == bit_at(y, 25));
    assert(bit_at(x, 26) == bit_at(y, 26));
    assert(bit_at(x, 27) == bit_at(y, 27));
    assert(bit_at(x, 28) == bit_at(y, 28));
    assert(bit_at(x, 29) == bit_at(y, 29));
    assert(bit_at(x, 30) == bit_at(y, 30));
    assert(bit_at(x, 31) == bit_at(y, 31));
    assert(bit_at(x, 32) == bit_at(y, 32));
    assert(bit_at(x, 33) == bit_at(y, 33));
    assert(bit_at(x, 34) == bit_at(y, 34));
    assert(bit_at(x, 35) == bit_at(y, 35));
    assert(bit_at(x, 36) == bit_at(y, 36));
    assert(bit_at(x, 37) == bit_at(y, 37));
    assert(bit_at(x, 38) == bit_at(y, 38));
    assert(bit_at(x, 39) == bit_at(y, 39));
    assert(bit_at(x, 40) == bit_at(y, 40));
    assert(bit_at(x, 41) == bit_at(y, 41));
    assert(bit_at(x, 42) == bit_at(y, 42));
    assert(bit_at(x, 43) == bit_at(y, 43));
    assert(bit_at(x, 44) == bit_at(y, 44));
    assert(bit_at(x, 45) == bit_at(y, 45));
    assert(bit_at(x, 46) == bit_at(y, 46));
    assert(bit_at(x, 47) == bit_at(y, 47));
    assert(bit_at(x, 48) == bit_at(y, 48));
    assert(bit_at(x, 49) == bit_at(y, 49));
    assert(bit_at(x, 50) == bit_at(y, 50));
    assert(bit_at(x, 51) == bit_at(y, 51));
    assert(bit_at(x, 52) == bit_at(y, 52));
    assert(bit_at(x, 53) == bit_at(y, 53));
    assert(bit_at(x, 54) == bit_at(y, 54));
    assert(bit_at(x, 55) == bit_at(y, 55));
    assert(bit_at(x, 56) == bit_at(y, 56));
    assert(bit_at(x, 57) == bit_at(y, 57));
    assert(bit_at(x, 58) == bit_at(y, 58));
    assert(bit_at(x, 59) == bit_at(y, 59));
    assert(bit_at(x, 60) == bit_at(y, 60));
    assert(bit_at(x, 61) == bit_at(y, 61));
    assert(bit_at(x, 62) == bit_at(y, 62));
    assert(bit_at(x, 63) == bit_at(y, 63));
    assert(x == y) by (bit_vector)
        requires
            ((x >> 0u64) & 1u64 == 1u64) == ((y >> 0u64) & 1u64 == 1u64),
            ((x >> 1u64) & 1u64 == 1u64) == ((y >> 1u64) & 1u64 == 1u64),
            ((x >> 2u64) & 1u64 == 1u64) == ((y >> 2u64) & 1u64 == 1u64),
            ((x >> 3u64) & 1u64 == 1u64) == ((y >> 3u64) & 1u64 == 1u64),
            ((x >> 4u64) & 1u64 == 1u64) == ((y >> 4u64) & 1u64 == 1u64),
            ((x >> 5u64) & 1u64 == 1u64) == ((y >> 5u64) & 1u64 == 1u64),
            ((x >> 6u64) & 1u64 == 1u64) == ((y >> 6u64) & 1u64 == 1u64),
            ((x >> 7u64) & 1u64 == 1u64) == ((y >> 7u64) & 1u64 == 1u64),
            ((x >> 8u64) & 1u64 == 1u64) == ((y >> 8u64) & 1u64 == 1u64),
            ((x >> 9u64) & 1u64 == 1u64) == ((y >> 9u64) & 1u64 == 1u64),
            ((x >> 10u64) & 1u64 == 1u64) == ((y >> 10u64) & 1u64 == 1u64),
            ((x >> 11u64) & 1u64 == 1u64) == ((y >> 11u64) & 1u64 == 1u64),
            ((x >> 12u64) & 1u64 == 1u64) == ((y >> 12u64) & 1u64 == 1u64),
            ((x >> 13u64) & 1u64 == 1u64) == ((y >> 13u64) & 1u64 == 1u64),
            ((x >> 14u64) & 1u64 == 1u64) == ((y >> 14u64) & 1u64 == 1u64),
            ((x >> 15u64) & 1u64 == 1u64) == ((y >> 15u64) & 1u64 == 1u64),
            ((x >> 16u64) & 1u64 == 1u64) == ((y >> 16u64) & 1u64 == 1u64),
            ((x >> 17u64) & 1u64 == 1u64) == ((y >> 17u64) & 1u64 == 1u64),
            ((x >> 18u64) & 1u64 == 1u64) == ((y >> 18u64) & 1u64 == 1u64),
            ((x >> 19u64) & 1u64 == 1u64) == ((y >> 19u64) & 1u64 == 1u64),
            ((x >> 20u64) & 1u64 == 1u64) == ((y >> 20u64) & 1u64 == 1u64),
            ((x >> 21u64) & 1u64 == 1u64) == ((y >> 21u64) & 1u64 == 1u64),
            ((x >> 22u64) & 1u64 == 1u64) == ((y >> 22u64) & 1u64 == 1u64),
            ((x >> 23u64) & 1u64 == 1u64) == ((y >> 23u64) & 1u64 == 1u64),
            ((x >> 24u64) & 1u64 == 1u64) == ((y >> 24u64) & 1u64 == 1u64),
            ((x >> 25u64) & 1u64 == 1u64) == ((y >> 25u64) & 1u64 == 1u64),
            ((x >> 26u64) & 1u64 == 1u64) == ((y >> 26u64) & 1u64 == 1u64),
            ((x >> 27u64) & 1u64 == 1u64) == ((y >> 27u64) & 1u64 == 1u64),
            ((x >> 28u64) & 1u64 == 1u64) == ((y >> 28u64) & 1u64 == 1u64),
            ((x >> 29u64) & 1u64 == 1u64) == ((y >> 29u64) & 1u64 == 1u64),
            ((x >> 30u64) & 1u64 == 1u64) == ((y >> 30u64) & 1u64 == 1u64),
            ((x >> 31u64) & 1u64 == 1u64) == ((y >> 31u64) & 1u64 == 1u64),
            ((x >> 32u64) & 1u64 == 1u64) == ((y >> 32u64) & 1u64 == 1u64),
            ((x >> 33u64) & 1u64 == 1u64) == ((y >> 33u64) & 1u64 == 1u64),
            ((x >> 34u64) & 1u64 == 1u64) == ((y >> 34u64) & 1u64 == 1u64),
            ((x >> 35u64) & 1u64 == 1u64) == ((y >> 35u64) & 1u64 == 1u64),
            ((x >> 36u64) & 1u64 == 1u64) == ((y >> 36u64) & 1u64 == 1u64),
            ((x >> 37u64) & 1u64 == 1u64) == ((y >> 37u64) & 1u64 == 1u64),
            ((x >> 38u64) & 1u64 == 1u64) == ((y >> 38u64) & 1u64 == 1u64),
            ((x >> 39u64) & 1u64 == 1u64) == ((y >> 39u64) & 1u64 == 1u64),
            ((x >> 40u64) & 1u64 == 1u64) == ((y >> 40u64) & 1u64 == 1u64),
            ((x >> 41u64) & 1u64 == 1u64) == ((y >> 41u64) & 1u64 == 1u64),
            ((x >> 42u64) & 1u64 == 1u64) == ((y >> 42u64) & 1u64 == 1u64),
            ((x >> 43u64) & 1u64 == 1u64) == ((y >> 43u64) & 1u64 == 1u64),
            ((x >> 44u64) & 1u64 == 1u64) == ((y >> 44u64) & 1u64 == 1u64),
            ((x >> 45u64) & 1u64 == 1u64) == ((y >> 45u64) & 1u64 == 1u64),
            ((x >> 46u64) & 1u64 == 1u64) == ((y >> 46u64) & 1u64 == 1u64),
            ((x >> 47u64) & 1u64 == 1u64) == ((y >> 47u64) & 1u64 == 1u64),
            ((x >> 48u64) & 1u64 == 1u64) == ((y >> 48u64) & 1u64 == 1u64),
            ((x >> 49u64) & 1u64 == 1u64) == ((y >> 49u64) & 1u64 == 1u64),
            ((x >> 50u64) & 1u64 == 1u64) == ((y >> 50u64) & 1u64 == 1u64),
            ((x >> 51u64) & 1u64 == 1u64) == ((y >> 51u64) & 1u64 == 1u64),
            ((x >> 52u64) & 1u64 == 1u64) == ((y >> 52u64) & 1u64 == 1u64),
            ((x >> 53u64) & 1u64 == 1u64) == ((y >> 53u64) & 1u64 == 1u64),
            ((x >> 54u64) & 1u64 == 1u64) == ((y >> 54u64) & 1u64 == 1u64),
            ((x >> 55u64) & 1u64 == 1u64) == ((y >> 55u64) & 1u64 == 1u64),
            ((x >> 56u64) & 1u64 == 1u64) == ((y >> 56u64) & 1u64 == 1u64),
            ((x >> 57u64) & 1u64 == 1u64) == ((y >> 57u64) & 1u64 == 1u64),
            ((x >> 58u64) & 1u64 == 1u64) == ((y >> 58u64) & 1u64 == 1u64),
            ((x >> 59u64) & 1u64 == 1u64) == ((y >> 59u64) & 1u64 == 1u64),
            ((x >> 60u64) & 1u64 == 1u64) == ((y >> 60u64) & 1u64 == 1u64),
            ((x >> 61u64) & 1u64 == 1u64) == ((y >> 61u64) & 1u64 == 1u64),
            ((x >> 62u64) & 1u64 == 1u64) == ((y >> 62u64) & 1u64 == 1u64),
            ((x >> 63u64) & 1u64 == 1u64) == ((y >> 63u64) & 1u64 == 1u64),
    ;
}

/// The listed squares climb strictly: the `i`-th is at least `i` above the lowest.
pub proof fn lemma_squares_seq_rising(x: u64)
    ensures
        forall|i: int|
            0 <= i < squares_seq(x).len() ==> (#[trigger] squares_seq(x)[i]) >= i
                + u64_trailing_zeros(x),
    decreases x,
{
    if x != 0 {
        lemma_clear_lowest_smaller(x);
        let y = x & ((x - 1) as u64);
        lemma_squares_seq_rising(y);
        axiom_u64_trailing_zeros(x);
        axiom_u64_trailing_zeros(y);
        let t = u64_trailing_zeros(x) as u64;
        if y != 0 {
            let j = u64_trailing_zeros(y) as u64;
            assert(j > t) by (bit_vector)
                requires
                    x != 0,
                    t < 64,
                    j < 64,
                    (x >> t) & 1u64 == 1u64,
                    x << ((64 - t) as u64) == 0,
                    ((x & ((x - 1) as u64)) >> j) & 1u64 == 1u64,
            ;
        }
        assert forall|i: int| 0 <= i < squares_seq(x).len() implies (#[trigger] squares_seq(x)[i])
            >= i + u64_trailing_zeros(x) by {
            if i > 0 {
                assert(squares_seq(x)[i] == squares_seq(y)[i - 1]);
            }
        }
    }
}

/// A board lists at most 64 squares.
pub proof fn lemma_squares_seq_len(x: u64)
    ensures
        squares_seq(x).len() <= 64,
{
    lemma_squares_seq_rising(x);
    lemma_squares_seq_bits(x);
    let s = squares_seq(x);
    if s.len() > 64 {
        assert(s[64] >= 64);
        assert(s[64] < 64);
    }
}

impl std::ops::BitAnd for Bitboard {
    type Output = Bitboard;

    fn bitand(self, rhs: Bitboard) -> (r: Bitboard)
        ensures
            r == Bitboard(self.0 & rhs.0),
    {
        Bitboard(self.0 & rhs.0)
    }
}

impl vstd::std_specs::ops::BitAndSpecImpl for Bitboard {
    open spec fn obeys_bitand_spec() -> bool {
        true
    }

    open spec fn bitand_req(self, rhs: Bitboard) -> bool {
        true
    }

    open spec fn bitand_spec(self, rhs: Bitboard) -> Bitboard {
        Bitboard(self.0 & rhs.0)
    }
}

impl std::ops::BitOr for Bitboard {
    type Output = Bitboard;

    fn bitor(self, rhs: Bitboard) -> (r: Bitboard)
        ensures
            r == Bitboard(self.0 | rhs.0),
    {
        Bitboard(self.0 | rhs.0)
    }
}

impl vstd::std_specs::ops::BitOrSpecImpl for Bitboard {
    open spec fn obeys_bitor_spec() -> bool {
        true
    }

    open spec fn bitor_req(self, rhs: Bitboard) -> bool {
        true
    }

    open spec fn bitor_spec(self, rhs: Bitboard) -> Bitboard {
        Bitboard(self.0 | rhs.0)
    }
}

impl std::ops::BitXor for Bitboard {
    type Output = Bitboard;

    fn bitxor(self, rhs: Bitboard) -> (r: Bitboard)
        ensures
            r == Bitboard(self.0 ^ rhs.0),
    {
        Bitboard(self.0 ^ rhs.0)
    }
}

impl vstd::std_specs::ops::BitXorSpecImpl for Bitboard {
    open spec fn obeys_bitxor_spec() -> bool {
        true
    }

    open spec fn bitxor_req(self, rhs: Bitboard) -> bool {
        true
    }

    open spec fn bitxor_spec(self, rhs: Bitboard) -> Bitboard {
        Bitboard(self.0 ^ rhs.0)
    }
}

impl std::ops::Not for Bitboard {
    type Output = Bitboard;

    fn not(self) -> (r: Bitboard)
        ensures
            r == Bitboard(!self.0),
    {
        Bitboard(!self.0)
    }
}

impl vstd::std_specs::ops::NotSpecImpl for Bitboard {
    open spec fn obeys_not_spec() -> bool {
        true
    }

    open spec fn not_req(self) -> bool {
        true
    }

    open spec fn not_spec(self) -> Bitboard {
        Bitboard(!self.0)
    }
}

impl std::ops::Shl<u8> for Bitboard {
    type Output = Bitboard;

    fn shl(self, rhs: u8) -> (r: Bitboard)
        ensures
            r == Bitboard(self.0 << rhs),
    {
        Bitboard(self.0 << rhs)
    }
}

impl vstd::std_specs::ops::ShlSpecImpl<u8> for Bitboard {
    open spec fn obeys_shl_spec() -> bool {
        true
    }

    open spec fn shl_req(self, rhs: u8) -> bool {
        rhs < 64
    }

    open spec fn shl_spec(self, rhs: u8) -> Bitboard {
        Bitboard(self.0 << rhs)
    }
}

impl std::ops::Shr<u8> for Bitboard {
    type Output = Bitboard;

    fn shr(self, rhs: u8) -> (r: Bitboard)
        ensures
            r == Bitboard(self.0 >> rhs),
    {
        Bitboard(self.0 >> rhs)
    }
}

impl vstd::std_specs::ops::ShrSpecImpl<u8> for Bitboard {
    open spec fn obeys_shr_spec() -> bool {
        true
    }

    open spec fn shr_req(self, rhs: u8) -> bool {
        rhs < 64
    }

    open spec fn shr_spec(self, rhs: u8) -> Bitboard {
        Bitboard(self.0 >> rhs)
    }
}

/// One row of a board's picture from `file` on: "1 " for a set square, ". " for an empty one.
pub open spec fn picture_row(x: u64, rank: int, file: int) -> Seq<char>
    decreases 8 - file,
{
    if file >= 8 {
        Seq::empty()
    } else {
        seq![if bit_at(x, rank * 8 + file) { '1' } else { '.' }, ' '] + picture_row(x, rank, file + 1)
    }
}

/// The top `k` rows of a board's picture, rank 8 first, each ending a line.
pub open spec fn picture_rows(x: u64, k: int) -> Seq<char>
    decreases k,
{
    if k <= 0 {
        Seq::empty()
    } else {
        picture_rows(x, k - 1) + picture_row(x, 8 - k, 0) + seq!['\n']
    }
}

impl Bitboard {
    /// The board as a picture: a blank line, then eight rows from rank 8 down.
    pub fn to_string(&self) -> (r: String)
        ensures
            r@ == seq!['\n'] + picture_rows(self.0, 8),
    {
        let mut out: Vec<char> = Vec::new();
        out.push('\n');
        let mut k: u8 = 0;
        while k < 8
            invariant
                k <= 8,
                out@ == seq!['\n'] + picture_rows(self.0, k as int),
            decreases 8 - k,
        {
            let rank: u8 = 7 - k;
            let ghost before = out@;
            let mut file: u8 = 0;
            while file < 8
                invariant
                    file <= 8,
                    rank < 8,
                    out@ + picture_row(self.0, rank as int, file as int) == before + picture_row(
                        self.0,
                        rank as int,
                        0,
                    ),
                decreases 8 - file,
            {
                let ghost b2 = out@;
                let square = Self::square_from_coords(file, rank);
                if self.test_bit(square) {
                    out.push('1');
                } else {
                    out.push('.');
                }
                out.push(' ');
                assert(out@ + picture_row(self.0, rank as int, file + 1) =~= b2 + picture_row(
                    self.0,
                    rank as int,
                    file as int,
                ));
                file = file + 1;
            }
            out.push('\n');
            k = k + 1;
            assert(out@ =~= seq!['\n'] + picture_rows(self.0, k as int));
        }
        crate::text::string_from_chars(&out)
    }
}

} // verus!
