//! Which block a fetch or a simulation is pinned to.

use crate::primitives::B256;
use vstd::prelude::*;

verus! {

/// A block height or a named block.
#[derive(Clone, Copy, Debug, PartialEq, Eq, Structural)]
pub enum BlockNumberOrTag {
    /// The newest block.
    Latest,
    /// The newest finalized block.
    Finalized,
    /// The newest safe block.
    Safe,
    /// The genesis block.
    Earliest,
    /// The block being built.
    Pending,
    /// The block at a height.
    Number(u64),
}

/// A block by height, name or hash.
#[derive(Clone, Copy, Debug, PartialEq, Eq, Structural)]
pub enum BlockId {
    /// By height or name.
    Number(BlockNumberOrTag),
    /// By hash.
    Hash {
        /// The hash.
        block_hash: B256,
        /// Whether the block must be canonical, where that is asked.
        require_canonical: Option<bool>,
    },
}

impl BlockId {
    /// The newest block.
    pub fn latest() -> (r: Self)
        ensures
            r == BlockId::Number(BlockNumberOrTag::Latest),
    {
        BlockId::Number(BlockNumberOrTag::Latest)
    }

    /// The block at a height.
    pub fn number(number: u64) -> (r: Self)
        ensures
            r == BlockId::Number(BlockNumberOrTag::Number(number)),
    {
        BlockId::Number(BlockNumberOrTag::Number(number))
    }

    /// The height, where the pin names one.
    pub open spec fn spec_concrete_number(self) -> Option<u64> {
        match self {
            BlockId::Number(BlockNumberOrTag::Number(n)) => Some(n),
            _ => None,
        }
    }

    /// The height, where the pin names one.
    pub fn concrete_number(&self) -> (r: Option<u64>)
        ensures
            r == self.spec_concrete_number(),
    {
        match self {
            BlockId::Number(BlockNumberOrTag::Number(n)) => Some(*n),
            _ => None,
        }
    }
}

} // verus!
