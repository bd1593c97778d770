use vstd::prelude::*;

verus! {

/// Clock state of a game, in milliseconds.
pub struct TimeManager {
    pub white_time_ms: u64,
    pub black_time_ms: u64,
    pub white_inc_ms: u64,
    pub black_inc_ms: u64,
    pub moves_to_go: Option<u16>,
}

/// The time to spend on a move: the remaining time shared over the moves to go (forty when
/// unknown) plus the increment, at most a third of the remaining time, at least 100 ms; in
/// whole milliseconds. With zero moves to go the share is unbounded, so the third applies.
pub open spec fn time_for_move(time: u64, inc: u64, moves_to_go: Option<u16>) -> int {
    let third = time as int / 3;
    let allocated = match moves_to_go {
        Some(m) => if m == 0 {
            third
        } else {
            let share = time as int / m as int + inc as int;
            if share < third {
                share
            } else {
                third
            }
        },
        None => {
            let share = time as int / 40 + inc as int;
            if share < third {
                share
            } else {
                third
            }
        },
    };
    if allocated < 100 {
        100
    } else {
        allocated
    }
}

impl TimeManager {
    /// Five minutes each, no increment, moves to go unknown.
    pub fn new() -> (r: TimeManager)
        ensures
            r.white_time_ms == 300_000 && r.black_time_ms == 300_000,
            r.white_inc_ms == 0 && r.black_inc_ms == 0,
            r.moves_to_go is None,
    {
        TimeManager {
            white_time_ms: 300_000,
            black_time_ms: 300_000,
            white_inc_ms: 0,
            black_inc_ms: 0,
            moves_to_go: None,
        }
    }

    /// Milliseconds to spend on the next move of the given side.
    pub fn calculate_time_for_move(&self, is_white: bool) -> (r: u64)
        ensures
            r == (if is_white {
                time_for_move(self.white_time_ms, self.white_inc_ms, self.moves_to_go)
            } else {
                time_for_move(self.black_time_ms, self.black_inc_ms, self.moves_to_go)
            }),
    {
        let (time, inc) = if is_white {
            (self.white_time_ms, self.white_inc_ms)
        } else {
            (self.black_time_ms, self.black_inc_ms)
        };
        let third: u64 = time / 3;
        let allocated: u64 = match self.moves_to_go {
            Some(moves) => {
                if moves == 0 {
                    third
                } else {
                    let share: u128 = (time / moves as u64) as u128 + inc as u128;
                    if share < third as u128 {
                        share as u64
                    } else {
                        third
                    }
                }
            },
            None => {
                let share: u128 = (time / 40) as u128 + inc as u128;
                if share < third as u128 {
                    share as u64
                } else {
                    third
                }
            },
        };
        if allocated < 100 {
            100
        } else {
            allocated
        }
    }
}

impl Default for TimeManager {
    fn default() -> (r: TimeManager)
        ensures
            r.white_time_ms == 300_000 && r.black_time_ms == 300_000,
            r.white_inc_ms == 0 && r.black_inc_ms == 0,
            r.moves_to_go is None,
    {
        TimeManager::new()
    }
}

} // verus!
