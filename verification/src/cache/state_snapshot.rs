//! The whole state of a cache, to keep and to return to.

use crate::block::{BlockId, BlockNumberOrTag};
use crate::cache::base::BaseMemo;
use crate::cache::code_seeds::{copy_marks, CodeSeedState};
use crate::cache::context::{BlockContext, BlockEnvSource};
use crate::cache::durable_checkpoint::{
    DurableCheckpointBlock, DurableCheckpointError, DurableCheckpointIdentity,
    DurableCheckpointMetadata,
};
use crate::cache::evm_cache::EvmCache;
use crate::cache::layers::Layers;
use crate::cache::mapping::TrackedMapping;
use crate::cache::metadata::ImmutableDataCache;
use crate::collections::{Duplicate, SortedMap};
use crate::primitives::{Address, B256};
use vstd::prelude::*;

verus! {

/// The block that a cache is pinned to, as it is saved.
#[derive(Clone, Copy, Debug, PartialEq, Eq, Structural)]
pub enum PersistedBlockId {
    /// By hash.
    Hash {
        /// The hash.
        hash: B256,
        /// Whether the block must be canonical, where that is asked.
        require_canonical: Option<bool>,
    },
    /// The newest block.
    Latest,
    /// The newest finalized block.
    Finalized,
    /// The newest safe block.
    Safe,
    /// The genesis block.
    Earliest,
    /// The block being built.
    Pending,
    /// The block at a height.
    Number(u64),
}

impl PersistedBlockId {
    /// A block as it is saved.
    pub open spec fn spec_of(block: BlockId) -> Self {
        match block {
            BlockId::Hash { block_hash, require_canonical } => PersistedBlockId::Hash {
                hash: block_hash,
                require_canonical,
            },
            BlockId::Number(BlockNumberOrTag::Latest) => PersistedBlockId::Latest,
            BlockId::Number(BlockNumberOrTag::Finalized) => PersistedBlockId::Finalized,
            BlockId::Number(BlockNumberOrTag::Safe) => PersistedBlockId::Safe,
            BlockId::Number(BlockNumberOrTag::Earliest) => PersistedBlockId::Earliest,
            BlockId::Number(BlockNumberOrTag::Pending) => PersistedBlockId::Pending,
            BlockId::Number(BlockNumberOrTag::Number(number)) => PersistedBlockId::Number(number),
        }
    }

    /// The block that was saved.
    pub open spec fn spec_block(self) -> BlockId {
        match self {
            PersistedBlockId::Hash { hash, require_canonical } => BlockId::Hash {
                block_hash: hash,
                require_canonical,
            },
            PersistedBlockId::Latest => BlockId::Number(BlockNumberOrTag::Latest),
            PersistedBlockId::Finalized => BlockId::Number(BlockNumberOrTag::Finalized),
            PersistedBlockId::Safe => BlockId::Number(BlockNumberOrTag::Safe),
            PersistedBlockId::Earliest => BlockId::Number(BlockNumberOrTag::Earliest),
            PersistedBlockId::Pending => BlockId::Number(BlockNumberOrTag::Pending),
            PersistedBlockId::Number(number) => BlockId::Number(BlockNumberOrTag::Number(number)),
        }
    }

    /// A block as it is saved.
    pub fn of(block: BlockId) -> (r: Self)
        ensures
            r == PersistedBlockId::spec_of(block),
    {
        match block {
            BlockId::Hash { block_hash, require_canonical } => PersistedBlockId::Hash {
                hash: block_hash,
                require_canonical,
            },
            BlockId::Number(BlockNumberOrTag::Latest) => PersistedBlockId::Latest,
            BlockId::Number(BlockNumberOrTag::Finalized) => PersistedBlockId::Finalized,
            BlockId::Number(BlockNumberOrTag::Safe) => PersistedBlockId::Safe,
            BlockId::Number(BlockNumberOrTag::Earliest) => PersistedBlockId::Earliest,
            BlockId::Number(BlockNumberOrTag::Pending) => PersistedBlockId::Pending,
            BlockId::Number(BlockNumberOrTag::Number(number)) => PersistedBlockId::Number(number),
        }
    }

    /// The block that was saved.
    pub fn block(&self) -> (r: BlockId)
        ensures
            r == self.spec_block(),
    {
        match *self {
            PersistedBlockId::Hash { hash, require_canonical } => BlockId::Hash {
                block_hash: hash,
                require_canonical,
            },
            PersistedBlockId::Latest => BlockId::Number(BlockNumberOrTag::Latest),
            PersistedBlockId::Finalized => BlockId::Number(BlockNumberOrTag::Finalized),
            PersistedBlockId::Safe => BlockId::Number(BlockNumberOrTag::Safe),
            PersistedBlockId::Earliest => BlockId::Number(BlockNumberOrTag::Earliest),
            PersistedBlockId::Pending => BlockId::Number(BlockNumberOrTag::Pending),
            PersistedBlockId::Number(number) => BlockId::Number(BlockNumberOrTag::Number(number)),
        }
    }
}

/// A block that is saved comes back, and nothing else is saved in its place.
pub proof fn law_saved_blocks_come_back(block: BlockId, saved: PersistedBlockId)
    ensures
        PersistedBlockId::spec_of(block).spec_block() == block,
        PersistedBlockId::spec_of(saved.spec_block()) == saved,
{
}

/// The state of a cache.
pub struct EvmCacheStateSnapshot {
    /// The two layers.
    pub layers: Layers,
    /// The decimals of tokens.
    pub token_decimals: SortedMap<Address, u8>,
    /// On-chain data that never changes.
    pub immutable_cache: ImmutableDataCache,
    /// Where code came from that was not fetched.
    pub code_seeds: SortedMap<Address, CodeSeedState>,
    /// Where tokens keep balances.
    pub erc20_balance_slots: SortedMap<Address, TrackedMapping>,
    /// Known block hashes.
    pub block_hashes: SortedMap<u64, B256>,
    /// The block that simulations run in.
    pub context: BlockContext,
    /// The number of the state.
    pub snapshot_generation: u64,
}

impl EvmCacheStateSnapshot {
    /// Whether a cache is in this state.
    pub open spec fn mirrors(self, cache: EvmCache) -> bool {
        &&& self.layers@ == cache.layers@
        &&& self.token_decimals@ == cache.token_decimals@
        &&& self.immutable_cache@ == cache.immutable_cache@
        &&& self.code_seeds@ == cache.code_seeds@
        &&& self.erc20_balance_slots@ == cache.erc20_balance_slots@
        &&& self.block_hashes@ == cache.block_hashes@
        &&& self.context == (BlockContext { chain_id: self.context.chain_id, ..cache.context })
        &&& self.snapshot_generation == cache.snapshot_generation
    }

    /// The state of a cache.
    pub fn capture(cache: &EvmCache) -> (r: Self)
        ensures
            r.mirrors(*cache),
            r.context == cache.context,
    {
        let layers = Layers {
            overlay: cache.layers.copy_overlay(),
            accounts: cache.layers.copy_accounts(),
            storage: cache.layers.copy_storage(),
        };
        assert(layers@ =~= cache.layers@);
        let immutable_cache = ImmutableDataCache {
            token_decimals: copy_decimals(&cache.immutable_cache.token_decimals),
        };
        EvmCacheStateSnapshot {
            layers,
            token_decimals: copy_decimals(&cache.token_decimals),
            immutable_cache,
            code_seeds: copy_marks(&cache.code_seeds),
            erc20_balance_slots: copy_mappings(&cache.erc20_balance_slots),
            block_hashes: copy_hashes(&cache.block_hashes),
            context: cache.context,
            snapshot_generation: cache.snapshot_generation,
        }
    }

    /// Brings a cache back to this state. The chain, the requirements and the
    /// settings of the cache stay, and snapshots share nothing with earlier ones.
    pub fn restore(self, cache: &mut EvmCache)
        ensures
            final(cache).wf(),
            self.mirrors(*final(cache)),
            final(cache).memo.base is None,
            final(cache).pinned == self.context.block,
            final(cache).context.chain_id == old(cache).context.chain_id,
            final(cache).requirements == old(cache).requirements,
            final(cache).storage_batch_config == old(cache).storage_batch_config,
            final(cache).shared_memory_capacity == old(cache).shared_memory_capacity,
    {
        let chain_id: u64 = cache.context.chain_id;
        cache.layers = self.layers;
        cache.token_decimals = self.token_decimals;
        cache.immutable_cache = self.immutable_cache;
        cache.code_seeds = self.code_seeds;
        cache.erc20_balance_slots = self.erc20_balance_slots;
        cache.block_hashes = self.block_hashes;
        cache.context = BlockContext { chain_id, ..self.context };
        cache.pinned = self.context.block;
        cache.snapshot_generation = self.snapshot_generation;
        cache.memo = BaseMemo::new();
        cache.memo.invalidate();
    }

    /// Aligns the context with the block that a checkpoint commits.
    pub fn align_to_checkpoint_block(&mut self, block: &DurableCheckpointBlock)
        ensures
            *final(self) == (EvmCacheStateSnapshot {
                context: aligned(old(self).context, *block),
                ..*old(self)
            }),
    {
        let agrees: bool = match (block.timestamp, self.context.timestamp) {
            (Some(expected), Some(actual)) => expected == actual,
            _ => true,
        };
        let preserve: bool = match self.context.source {
            Some(BlockEnvSource::VerifiedHash { number, hash }) => number == block.number && hash
                == block.hash && agrees,
            None => false,
        };
        self.context.block = BlockId::Hash {
            block_hash: block.hash,
            require_canonical: Some(true),
        };
        self.context.block_number = Some(block.number);
        if !preserve {
            self.context.timestamp = block.timestamp;
            self.context.basefee = None;
            self.context.coinbase = None;
            self.context.prevrandao = None;
            self.context.block_gas_limit = None;
            self.context.source = None;
        }
    }
}

/// A copy of the decimals of tokens.
fn copy_decimals(decimals: &SortedMap<Address, u8>) -> (r: SortedMap<Address, u8>)
    ensures
        r@ == decimals@,
{
    let r = decimals.copy();
    proof {
        assert forall|a: Address| #[trigger] decimals@.contains_key(a) implies decimals@[a]
            == r@[a] by {
            assert(decimals@[a].same(&r@[a]));
        }
        assert(r@ =~= decimals@);
    }
    r
}

/// A copy of where tokens keep balances.
fn copy_mappings(mappings: &SortedMap<Address, TrackedMapping>) -> (r: SortedMap<
    Address,
    TrackedMapping,
>)
    ensures
        r@ == mappings@,
{
    let r = mappings.copy();
    proof {
        assert forall|a: Address| #[trigger] mappings@.contains_key(a) implies mappings@[a]
            == r@[a] by {
            assert(mappings@[a].same(&r@[a]));
        }
        assert(r@ =~= mappings@);
    }
    r
}

/// A copy of block hashes.
fn copy_hashes(hashes: &SortedMap<u64, B256>) -> (r: SortedMap<u64, B256>)
    ensures
        r@ == hashes@,
{
    let r = hashes.copy();
    proof {
        assert forall|a: u64| #[trigger] hashes@.contains_key(a) implies hashes@[a] == r@[a] by {
            assert(hashes@[a].same(&r@[a]));
        }
        assert(r@ =~= hashes@);
    }
    r
}

/// Whether a context is known to be that of a block: it came from the header of
/// that height and hash, and its timestamp is the block's where both are known.
pub open spec fn is_context_of(context: BlockContext, block: DurableCheckpointBlock) -> bool {
    &&& context.source == Some(
        BlockEnvSource::VerifiedHash { number: block.number, hash: block.hash },
    )
    &&& block.timestamp is Some && context.timestamp is Some ==> block.timestamp
        == context.timestamp
}

/// A context aligned with a block: pinned to its hash, at its height. What is not
/// known to be of that block is dropped.
pub open spec fn aligned(context: BlockContext, block: DurableCheckpointBlock) -> BlockContext {
    let pinned = BlockContext {
        block: BlockId::Hash { block_hash: block.hash, require_canonical: Some(true) },
        block_number: Some(block.number),
        ..context
    };
    if is_context_of(context, block) {
        pinned
    } else {
        BlockContext {
            timestamp: block.timestamp,
            basefee: None,
            coinbase: None,
            prevrandao: None,
            block_gas_limit: None,
            source: None,
            ..pinned
        }
    }
}

/// An aligned context names the block, and holds nothing of another block: the
/// fields of a header stand only where they came from this block's header, and
/// aligning once more changes nothing.
pub proof fn law_aligned_context_is_of_one_block(
    context: BlockContext,
    block: DurableCheckpointBlock,
)
    ensures
        aligned(context, block).block_number == Some(block.number),
        aligned(context, block).block == (BlockId::Hash {
            block_hash: block.hash,
            require_canonical: Some(true),
        }),
        block.timestamp is Some && aligned(context, block).timestamp is Some ==> aligned(
            context,
            block,
        ).timestamp == block.timestamp,
        !is_context_of(context, block) ==> {
            &&& aligned(context, block).basefee is None
            &&& aligned(context, block).coinbase is None
            &&& aligned(context, block).prevrandao is None
            &&& aligned(context, block).block_gas_limit is None
            &&& aligned(context, block).timestamp == block.timestamp
        },
        aligned(aligned(context, block), block) == aligned(context, block),
{
}

/// What a context holds of a block's environment is kept for a checkpoint's block only
/// where it was verified to be of that very block, by number and by hash, and tells no
/// other time; there all of it is kept. The chain and the rules always are.
pub proof fn law_only_a_verified_environment_is_kept(
    context: BlockContext,
    block: DurableCheckpointBlock,
)
    ensures
        ({
            let after = aligned(context, block);
            let verified = context.source == Some(
                BlockEnvSource::VerifiedHash { number: block.number, hash: block.hash },
            ) && (context.timestamp is None || block.timestamp is None || context.timestamp
                == block.timestamp);
            &&& after.basefee is Some || after.coinbase is Some || after.prevrandao is Some
                || after.block_gas_limit is Some || after.source is Some ==> verified
            &&& verified ==> after.basefee == context.basefee && after.coinbase == context.coinbase
                && after.prevrandao == context.prevrandao && after.block_gas_limit
                == context.block_gas_limit && after.source == context.source && after.timestamp
                == context.timestamp
            &&& after.chain_id == context.chain_id
            &&& after.spec == context.spec
        }),
{
}

/// Whether a cache can be captured under an identity: it is of the same chain.
pub fn validate_capture_identity(cache: &EvmCache, metadata: &DurableCheckpointMetadata) -> (r:
    Result<(), DurableCheckpointError>)
    ensures
        r == if metadata.identity.chain_id == cache.context.chain_id {
            Ok::<(), DurableCheckpointError>(())
        } else {
            Err(
                DurableCheckpointError::CacheChainMismatch {
                    cache_chain_id: cache.context.chain_id,
                    checkpoint_chain_id: metadata.identity.chain_id,
                },
            )
        },
{
    if metadata.identity.chain_id != cache.context.chain_id {
        return Err(
            DurableCheckpointError::CacheChainMismatch {
                cache_chain_id: cache.context.chain_id,
                checkpoint_chain_id: metadata.identity.chain_id,
            },
        );
    }
    Ok(())
}

/// A checkpoint: the state, and what is committed along with it.
pub struct LoadedDurableCheckpoint {
    /// What is committed along with the state.
    pub metadata: DurableCheckpointMetadata,
    /// The state.
    pub state: EvmCacheStateSnapshot,
}

impl LoadedDurableCheckpoint {
    /// Whether this was taken of a cache: it holds what the cache holds, with the
    /// context aligned with the block committed.
    pub open spec fn is_of(self, cache: EvmCache) -> bool {
        &&& self.state.context == aligned(cache.context, self.metadata.block)
        &&& self.state.layers@ == cache.layers@
        &&& self.state.token_decimals@ == cache.token_decimals@
        &&& self.state.immutable_cache@ == cache.immutable_cache@
        &&& self.state.code_seeds@ == cache.code_seeds@
        &&& self.state.erc20_balance_slots@ == cache.erc20_balance_slots@
        &&& self.state.block_hashes@ == cache.block_hashes@
        &&& self.state.snapshot_generation == cache.snapshot_generation
    }

    /// A checkpoint of a cache, its context aligned with the block committed.
    pub fn capture(cache: &EvmCache, metadata: DurableCheckpointMetadata) -> (r: Result<
        Self,
        DurableCheckpointError,
    >)
        ensures
            match r {
                Ok(checkpoint) => {
                    &&& metadata.identity.chain_id == cache.context.chain_id
                    &&& checkpoint.metadata == metadata
                    &&& checkpoint.is_of(*cache)
                },
                Err(error) => metadata.identity.chain_id != cache.context.chain_id && error == (
                DurableCheckpointError::CacheChainMismatch {
                    cache_chain_id: cache.context.chain_id,
                    checkpoint_chain_id: metadata.identity.chain_id,
                }),
            },
    {
        match validate_capture_identity(cache, &metadata) {
            Ok(()) => {},
            Err(error) => return Err(error),
        }
        let mut state: EvmCacheStateSnapshot = EvmCacheStateSnapshot::capture(cache);
        state.align_to_checkpoint_block(&metadata.block);
        Ok(LoadedDurableCheckpoint { metadata, state })
    }

    /// What is committed along with the state.
    pub fn metadata(&self) -> (r: &DurableCheckpointMetadata)
        ensures
            *r == self.metadata,
    {
        &self.metadata
    }

    /// Brings a cache to the state of the checkpoint, pinned to the block
    /// committed. The identity asked for must be the checkpoint's, and its chain
    /// the cache's; otherwise the cache stays as it is.
    pub fn restore_into(self, cache: &mut EvmCache, expected: &DurableCheckpointIdentity) -> (r:
        Result<DurableCheckpointMetadata, DurableCheckpointError>)
        requires
            old(cache).wf(),
        ensures
            final(cache).wf(),
            if self.metadata.identity@ != expected@ {
                &&& r == Err::<DurableCheckpointMetadata, DurableCheckpointError>(
                    DurableCheckpointError::IdentityMismatch {
                        expected: *expected,
                        actual: self.metadata.identity,
                    },
                )
                &&& *final(cache) == *old(cache)
            } else if old(cache).context.chain_id != expected.chain_id {
                &&& r == Err::<DurableCheckpointMetadata, DurableCheckpointError>(
                    DurableCheckpointError::CacheChainMismatch {
                        cache_chain_id: old(cache).context.chain_id,
                        checkpoint_chain_id: expected.chain_id,
                    },
                )
                &&& *final(cache) == *old(cache)
            } else {
                &&& r == Ok::<DurableCheckpointMetadata, DurableCheckpointError>(self.metadata)
                &&& self.pinned_state().mirrors(*final(cache))
                &&& final(cache).pinned == self.pinned_state().context.block
                &&& final(cache).context.chain_id == old(cache).context.chain_id
                &&& final(cache).requirements == old(cache).requirements
                &&& final(cache).storage_batch_config == old(cache).storage_batch_config
                &&& final(cache).shared_memory_capacity == old(cache).shared_memory_capacity
                &&& final(cache).memo.base is None
            },
    {
        if !self.metadata.identity.matches_identity(expected) {
            return Err(
                DurableCheckpointError::IdentityMismatch {
                    expected: expected.clone(),
                    actual: self.metadata.identity.clone(),
                },
            );
        }
        if cache.context.chain_id != expected.chain_id {
            return Err(
                DurableCheckpointError::CacheChainMismatch {
                    cache_chain_id: cache.context.chain_id,
                    checkpoint_chain_id: expected.chain_id,
                },
            );
        }
        let block_hash: B256 = self.metadata.block.hash;
        self.state.restore(cache);
        cache.context.block = BlockId::Hash { block_hash, require_canonical: Some(true) };
        cache.pinned = cache.context.block;
        Ok(self.metadata)
    }

    /// The state, pinned to the block committed.
    pub open spec fn pinned_state(self) -> EvmCacheStateSnapshot {
        EvmCacheStateSnapshot {
            context: BlockContext {
                block: BlockId::Hash {
                    block_hash: self.metadata.block.hash,
                    require_canonical: Some(true),
                },
                ..self.state.context
            },
            ..self.state
        }
    }
}

/// Saved state comes back: a cache that is brought to the state captured of another
/// is in the state that the other was in, the chain aside.
pub proof fn law_captured_state_comes_back(
    saved: EvmCacheStateSnapshot,
    source: EvmCache,
    target: EvmCache,
)
    requires
        saved.mirrors(source),
        saved.mirrors(target),
    ensures
        target.layers@ == source.layers@,
        target.token_decimals@ == source.token_decimals@,
        target.immutable_cache@ == source.immutable_cache@,
        target.code_seeds@ == source.code_seeds@,
        target.erc20_balance_slots@ == source.erc20_balance_slots@,
        target.block_hashes@ == source.block_hashes@,
        target.snapshot_generation == source.snapshot_generation,
        target.context == (BlockContext { chain_id: target.context.chain_id, ..source.context }),
{
}

/// A checkpoint comes back: a cache restored from it holds what the cache that it
/// was taken of held, at the block committed.
pub proof fn law_checkpoints_come_back(
    checkpoint: LoadedDurableCheckpoint,
    source: EvmCache,
    target: EvmCache,
)
    requires
        checkpoint.is_of(source),
        checkpoint.pinned_state().mirrors(target),
        target.context.chain_id == source.context.chain_id,
    ensures
        target.layers@ == source.layers@,
        target.token_decimals@ == source.token_decimals@,
        target.immutable_cache@ == source.immutable_cache@,
        target.code_seeds@ == source.code_seeds@,
        target.erc20_balance_slots@ == source.erc20_balance_slots@,
        target.block_hashes@ == source.block_hashes@,
        target.snapshot_generation == source.snapshot_generation,
        target.context == aligned(source.context, checkpoint.metadata.block),
{
    assert(target.context =~= aligned(source.context, checkpoint.metadata.block));
}

} // verus!
