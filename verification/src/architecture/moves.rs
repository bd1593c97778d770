use vstd::prelude::*;
use crate::architecture::board::Board;

verus! {

/// The step between squares of the 64-square board in each direction: a row is 8 squares.
#[derive(Clone, Copy, PartialEq, Eq, Structural, Debug)]
#[allow(non_camel_case_types)]
pub enum DirectionOffsets {
    UP,
    DOWN,
    LEFT,
    RIGHT,
    UP_LEFT,
    UP_RIGHT,
    DOWN_LEFT,
    DOWN_RIGHT,
}

/// The square-index difference of one step in a direction.
pub open spec fn direction_offset(d: DirectionOffsets) -> int {
    match d {
        DirectionOffsets::UP => 8,
        DirectionOffsets::DOWN => -8,
        DirectionOffsets::LEFT => -1,
        DirectionOffsets::RIGHT => 1,
        DirectionOffsets::UP_LEFT => 7,
        DirectionOffsets::UP_RIGHT => 9,
        DirectionOffsets::DOWN_LEFT => -9,
        DirectionOffsets::DOWN_RIGHT => -7,
    }
}

impl DirectionOffsets {
    /// The square-index difference of one step in this direction.
    pub fn offset(self) -> (r: i8)
        ensures
            r == direction_offset(self),
    {
        match self {
            DirectionOffsets::UP => 8,
            DirectionOffsets::DOWN => -8,
            DirectionOffsets::LEFT => -1,
            DirectionOffsets::RIGHT => 1,
            DirectionOffsets::UP_LEFT => 7,
            DirectionOffsets::UP_RIGHT => 9,
            DirectionOffsets::DOWN_LEFT => -9,
            DirectionOffsets::DOWN_RIGHT => -7,
        }
    }
}

/// The number of king-free steps between squares `i` and `j` along files and rows: the
/// difference of their files plus the difference of their rows.
pub open spec fn manhattan(i: int, j: int) -> int {
    let df = i % 8 - j % 8;
    let dr = i / 8 - j / 8;
    (if df < 0 {
        -df
    } else {
        df
    }) + (if dr < 0 {
        -dr
    } else {
        dr
    })
}

impl Board {
    /// For every pair of squares, the file distance plus the row distance between them.
    pub fn get_edge_distances(&self) -> (r: [[i8; 64]; 64])
        ensures
            forall|i: int, j: int|
                0 <= i < 64 && 0 <= j < 64 ==> #[trigger] r@[i]@[j] == manhattan(i, j),
    {
        let mut edge_distances: [[i8; 64]; 64] = [[0; 64]; 64];
        let mut i: usize = 0;
        while i < 64
            invariant
                i <= 64,
                forall|a: int, b: int|
                    0 <= a < i && 0 <= b < 64 ==> #[trigger] edge_distances@[a]@[b] == manhattan(
                        a,
                        b,
                    ),
            decreases 64 - i,
        {
            let mut row: [i8; 64] = [0; 64];
            let mut j: usize = 0;
            while j < 64
                invariant
                    j <= 64,
                    i < 64,
                    forall|b: int| 0 <= b < j ==> #[trigger] row@[b] == manhattan(i as int, b),
                decreases 64 - j,
            {
                let mut i_diff: i8 = (i % 8) as i8 - (j % 8) as i8;
                let mut j_diff: i8 = (i / 8) as i8 - (j / 8) as i8;
                if i_diff < 0 {
                    i_diff = -i_diff;
                }
                if j_diff < 0 {
                    j_diff = -j_diff;
                }
                row[j] = i_diff + j_diff;
                j = j + 1;
            }
            let ghost before = edge_distances@;
            edge_distances[i] = row;
            assert forall|a: int, b: int| 0 <= a <= i && 0 <= b < 64 implies #[trigger]
                edge_distances@[a]@[b] == manhattan(a, b) by {
                if a < i {
                    assert(edge_distances@[a] == before[a]);
                }
            }
            i = i + 1;
        }
        edge_distances
    }
}

} // verus!
