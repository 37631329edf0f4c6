//! What executes blocks: the shapes of executors and of what they take and give.

use crate::primitives::U256;
use vstd::prelude::*;

verus! {

/// Something that executes on an input, such as a block, and gives an
/// output, such as state changes and receipts.
pub trait Executor<DB> {
    /// What the executor takes.
    type Input<'a>;

    /// What the executor gives.
    type Output;

    /// What the executor fails with.
    type Error;

    /// Uses the executor up on one input.
    fn execute(self, input: Self::Input<'_>) -> Result<Self::Output, Self::Error>;
}

/// Something that executes several blocks in a row and keeps the state of
/// the whole batch.
pub trait BatchExecutor<DB> {
    /// What the executor takes.
    type Input<'a>;

    /// What the executor gives at the end.
    type Output;

    /// What the executor fails with.
    type Error;

    /// Executes the next block of the batch.
    fn execute_one(&mut self, input: Self::Input<'_>) -> Result<BatchBlockOutput, Self::Error>;

    /// Ends the batch and gives its state.
    fn finalize(self) -> Self::Output;
}

/// What the execution of one block of a batch gives.
#[derive(Debug, Clone, Copy)]
pub struct BatchBlockOutput {
    /// A hint at the size of the state that the batch tracks.
    pub size_hint: Option<usize>,
}

/// What the execution of a block gives: the changed state, the receipts of
/// the transactions and the gas they used.
#[derive(Debug)]
pub struct EthBlockOutput<S, T> {
    /// The state after the block.
    pub state: S,
    /// The receipts of the transactions of the block.
    pub receipts: Vec<T>,
    /// The gas that the block used.
    pub gas_used: u64,
}

/// A block to execute, with the total difficulty up to it.
#[derive(Debug)]
pub struct EthBlockExecutionInput<'a, Block> {
    /// The block to execute.
    pub block: &'a Block,
    /// The total difficulty of the chain up to the block.
    pub total_difficulty: U256,
}

impl<'a, Block> EthBlockExecutionInput<'a, Block> {
    /// The input for `block` with the given total difficulty.
    pub fn new(block: &'a Block, total_difficulty: U256) -> (r: Self)
        ensures
            r.block == block,
            r.total_difficulty == total_difficulty,
    {
        Self { block, total_difficulty }
    }
}

} // verus!
