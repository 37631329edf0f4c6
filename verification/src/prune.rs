//! How far pruning has come.

use vstd::prelude::*;

verus! {

/// How much of the history a pruned segment keeps.
#[derive(Debug, PartialEq, Eq, Clone, Copy, Structural)]
pub enum PruneMode {
    /// Everything is pruned.
    Full,
    /// The given number of blocks below the tip is kept.
    Distance(u64),
    /// Everything before the given block is pruned.
    Before(u64),
}

/// How far the pruning of a segment has come.
#[derive(Debug, PartialEq, Eq, Clone, Copy, Structural)]
pub struct PruneCheckpoint {
    /// The highest pruned block.
    pub block_number: u64,
    /// The mode under which it was pruned.
    pub prune_mode: PruneMode,
}

} // verus!
