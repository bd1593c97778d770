use vstd::prelude::*;

verus! {

/// Limits of a Monte Carlo tree search.
#[derive(Clone, Copy, Debug)]
pub struct MCTSLimits {
    pub max_iterations: Option<usize>,
    /// Time limit in milliseconds.
    pub max_time_ms: Option<u64>,
}

impl Default for MCTSLimits {
    fn default() -> (r: MCTSLimits)
        ensures
            r.max_iterations == Some(10000usize),
            r.max_time_ms == Some(5000u64),
    {
        MCTSLimits { max_iterations: Some(10000), max_time_ms: Some(5000) }
    }
}

/// Counters of a Monte Carlo tree search.
#[derive(Debug)]
pub struct MCTSStats {
    pub iterations: usize,
    pub nodes_created: usize,
    pub total_playouts: usize,
    /// Milliseconds the search took.
    pub time_elapsed_ms: u64,
}

} // verus!
