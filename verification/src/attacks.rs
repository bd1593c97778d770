use vstd::prelude::*;
use crate::bitboard::{Bitboard, bit_at, lemma_test_bit};

verus! {

/// The squares reached from (f, r) stepping by (df, dr): each square is included, and the walk
/// stops after the first occupied one or at the board's edge.
pub open spec fn ray(occ: u64, f: int, r: int, df: int, dr: int, fuel: nat) -> u64
    decreases fuel,
{
    if fuel == 0 || !(0 <= f < 8 && 0 <= r < 8) {
        0u64
    } else {
        let sq = r * 8 + f;
        let b = 1u64 << (sq as u64);
        if bit_at(occ, sq) {
            b
        } else {
            b | ray(occ, f + df, r + dr, df, dr, (fuel - 1) as nat)
        }
    }
}

/// Attacks along one direction from `square`.
pub open spec fn dir_attacks(square: u8, occ: u64, df: int, dr: int) -> u64 {
    ray(occ, (square % 8) + df, (square / 8) + dr, df, dr, 8)
}

/// Attacks along the file (north then south).
pub open spec fn file_attacks(square: u8, occ: u64) -> u64 {
    dir_attacks(square, occ, 0, 1) | dir_attacks(square, occ, 0, -1)
}

/// Attacks along the rank (east then west).
pub open spec fn rank_attacks(square: u8, occ: u64) -> u64 {
    dir_attacks(square, occ, 1, 0) | dir_attacks(square, occ, -1, 0)
}

/// Attacks along the a1-h8 diagonal (north-east then south-west).
pub open spec fn diagonal_attacks(square: u8, occ: u64) -> u64 {
    dir_attacks(square, occ, 1, 1) | dir_attacks(square, occ, -1, -1)
}

/// Attacks along the h1-a8 diagonal (north-west then south-east).
pub open spec fn anti_diagonal_attacks(square: u8, occ: u64) -> u64 {
    dir_attacks(square, occ, -1, 1) | dir_attacks(square, occ, 1, -1)
}

pub open spec fn bishop_attacks(square: u8, occ: u64) -> u64 {
    diagonal_attacks(square, occ) | anti_diagonal_attacks(square, occ)
}

pub open spec fn rook_attacks(square: u8, occ: u64) -> u64 {
    file_attacks(square, occ) | rank_attacks(square, occ)
}

pub open spec fn queen_attacks(square: u8, occ: u64) -> u64 {
    bishop_attacks(square, occ) | rook_attacks(square, occ)
}

/// Walks one direction from `square`, adding squares until the edge or the first occupied one.
pub fn ray_attacks(square: u8, occupied: Bitboard, df: i8, dr: i8) -> (r: Bitboard)
    requires
        square < 64,
        -1 <= df <= 1,
        -1 <= dr <= 1,
    ensures
        r.0 == dir_attacks(square, occupied.0, df as int, dr as int),
{
    let file = Bitboard::file_of(square);
    let rank = Bitboard::rank_of(square);
    let mut f: i8 = file as i8 + df;
    let mut r: i8 = rank as i8 + dr;
    let mut acc: u64 = 0;
    let mut fuel: u8 = 8;
    let mut done = false;
    let ghost full = dir_attacks(square, occupied.0, df as int, dr as int);
    proof {
        let z = ray(occupied.0, f as int, r as int, df as int, dr as int, 8);
        assert(0u64 | z == z) by (bit_vector);
    }
    while !done && fuel > 0 && 0 <= f && f < 8 && 0 <= r && r < 8
        invariant
            -1 <= df <= 1,
            -1 <= dr <= 1,
            -1 <= f <= 8,
            -1 <= r <= 8,
            full == dir_attacks(square, occupied.0, df as int, dr as int),
            done ==> acc == full,
            !done ==> acc | ray(occupied.0, f as int, r as int, df as int, dr as int, fuel as nat)
                == full,
        decreases fuel,
    {
        let sq: u8 = (r * 8 + f) as u8;
        let b = Bitboard::from_square(sq).0;
        let hit = occupied.test_bit(sq);
        let ghost rest = ray(occupied.0, (f + df) as int, (r + dr) as int, df as int, dr as int, (fuel - 1) as nat);
        let ghost a0 = acc;
        if hit {
            acc = acc | b;
            done = true;
        } else {
            acc = acc | b;
            proof {
                assert((a0 | b) | rest == a0 | (b | rest)) by (bit_vector);
            }
            f = f + df;
            r = r + dr;
        }
        fuel = fuel - 1;
    }
    proof {
        if !done {
            let z = acc;
            assert(z | 0u64 == z) by (bit_vector);
        }
    }
    Bitboard(acc)
}

pub fn get_file_attacks(square: u8, occupied: Bitboard) -> (r: Bitboard)
    requires
        square < 64,
    ensures
        r.0 == file_attacks(square, occupied.0),
{
    Bitboard(ray_attacks(square, occupied, 0, 1).0 | ray_attacks(square, occupied, 0, -1).0)
}

pub fn get_rank_attacks(square: u8, occupied: Bitboard) -> (r: Bitboard)
    requires
        square < 64,
    ensures
        r.0 == rank_attacks(square, occupied.0),
{
    Bitboard(ray_attacks(square, occupied, 1, 0).0 | ray_attacks(square, occupied, -1, 0).0)
}

pub fn get_diagonal_attacks(square: u8, occupied: Bitboard) -> (r: Bitboard)
    requires
        square < 64,
    ensures
        r.0 == diagonal_attacks(square, occupied.0),
{
    Bitboard(ray_attacks(square, occupied, 1, 1).0 | ray_attacks(square, occupied, -1, -1).0)
}

pub fn get_anti_diagonal_attacks(square: u8, occupied: Bitboard) -> (r: Bitboard)
    requires
        square < 64,
    ensures
        r.0 == anti_diagonal_attacks(square, occupied.0),
{
    Bitboard(ray_attacks(square, occupied, -1, 1).0 | ray_attacks(square, occupied, 1, -1).0)
}

pub fn get_bishop_attacks(square: u8, occupied: Bitboard) -> (r: Bitboard)
    requires
        square < 64,
    ensures
        r.0 == bishop_attacks(square, occupied.0),
{
    Bitboard(get_diagonal_attacks(square, occupied).0 | get_anti_diagonal_attacks(square, occupied).0)
}

pub fn get_rook_attacks(square: u8, occupied: Bitboard) -> (r: Bitboard)
    requires
        square < 64,
    ensures
        r.0 == rook_attacks(square, occupied.0),
{
    Bitboard(get_file_attacks(square, occupied).0 | get_rank_attacks(square, occupied).0)
}

pub fn get_queen_attacks(square: u8, occupied: Bitboard) -> (r: Bitboard)
    requires
        square < 64,
    ensures
        r.0 == queen_attacks(square, occupied.0),
{
    Bitboard(get_bishop_attacks(square, occupied).0 | get_rook_attacks(square, occupied).0)
}

} // verus!
