use vstd::prelude::*;
use std::hash::Hasher;
use std::collections::hash_map::DefaultHasher;
use vstd::std_specs::hash::DefaultHasherAdditionalSpecFns;
use vstd::bytes::{u64_to_le_bytes, spec_u64_to_le_bytes};

verus! {

/// The byte strings written to the hasher for a position: each piece board as eight
/// little-endian bytes, then the side byte and the castling byte, then the en passant square as
/// a variant number (eight little-endian bytes, 0 for none and 1 for a square) followed, for a
/// square, by its byte.
pub open spec fn hash_writes(boards: Seq<u64>, side: u8, castling: u8, en_passant: Option<u8>) -> Seq<
    Seq<u8>,
> {
    Seq::new(12, |i: int| spec_u64_to_le_bytes(boards[i])) + seq![seq![side], seq![castling]]
        + match en_passant {
        None => seq![spec_u64_to_le_bytes(0)],
        Some(s) => seq![spec_u64_to_le_bytes(1), seq![s]],
    }
}

/// The hash of a position's piece boards, side, castling bits and en passant square: what a
/// fresh `DefaultHasher` finishes with after the writes of `hash_writes`.
pub open spec fn hash_value(boards: Seq<u64>, side: u8, castling: u8, en_passant: Option<u8>) -> u64 {
    DefaultHasher::spec_finish(hash_writes(boards, side, castling, en_passant))
}

/// Hash of a position's piece boards, side, castling bits and en passant square, by std's
/// `DefaultHasher` over the byte strings of `hash_writes`.
pub fn position_hash(boards: [u64; 12], side: u8, castling: u8, en_passant: Option<u8>) -> (r: u64)
    ensures
        r == hash_value(boards@, side, castling, en_passant),
{
    let mut hasher = DefaultHasher::new();
    let mut i: usize = 0;
    while i < 12
        invariant
            i <= 12,
            hasher@ == Seq::new(i as nat, |k: int| spec_u64_to_le_bytes(boards@[k])),
        decreases 12 - i,
    {
        let bytes = u64_to_le_bytes(boards[i]);
        hasher.write(bytes.as_slice());
        proof {
            assert(hasher@ =~= Seq::new((i + 1) as nat, |k: int| spec_u64_to_le_bytes(boards@[k])));
        }
        i = i + 1;
    }
    let ghost boards_part = hasher@;
    assert(boards_part =~= Seq::new(12, |k: int| spec_u64_to_le_bytes(boards@[k])));
    let side_byte: Vec<u8> = vec![side];
    hasher.write(side_byte.as_slice());
    let castling_byte: Vec<u8> = vec![castling];
    hasher.write(castling_byte.as_slice());
    assert(side_byte@ =~= seq![side]);
    assert(castling_byte@ =~= seq![castling]);
    assert(hasher@ =~= boards_part + seq![seq![side], seq![castling]]);
    match en_passant {
        None => {
            let tag = u64_to_le_bytes(0);
            hasher.write(tag.as_slice());
            assert(hasher@ =~= boards_part + seq![seq![side], seq![castling]] + seq![spec_u64_to_le_bytes(0)]);
        },
        Some(s) => {
            let tag = u64_to_le_bytes(1);
            hasher.write(tag.as_slice());
            let square_byte: Vec<u8> = vec![s];
            hasher.write(square_byte.as_slice());
            assert(square_byte@ =~= seq![s]);
            assert(hasher@ =~= boards_part + seq![seq![side], seq![castling]] + seq![spec_u64_to_le_bytes(1), seq![s]]);
        },
    }
    proof {
        assert(side_byte@ =~= seq![side]);
        assert(castling_byte@ =~= seq![castling]);
        assert(hasher@ =~= hash_writes(boards@, side, castling, en_passant));
    }
    hasher.finish()
}

} // verus!
