//! Building a cache from options.

use crate::block::BlockId;
use crate::bulk_storage::config::{BulkCallConfig, CallDispatch};
use crate::cache::config::{
    CacheSpeedMode, SharedMemoryCapacity, StorageBatchConfig, StorageFetchStrategy,
    DEFAULT_SHARED_MEMORY_CAPACITY,
};
use crate::cache::context::{
    BlockContextError, BlockContextRequirements, BlockHeader, EvmSpec,
};
use crate::cache::evm_cache::{is_assembled, resolve_chain_id, EvmCache, LoadedState};
use crate::cache::metadata::CacheConfig;
use crate::cache::point_reads::DEFAULT_MAX_CONCURRENT_PROOFS;
use vstd::prelude::*;

verus! {

/// The options of a cache.
pub struct EvmCacheBuilder {
    /// The block that fetches read at.
    pub block: BlockId,
    /// Where persisted state lies, where any is kept.
    pub cache_config: Option<CacheConfig>,
    /// The hard fork.
    pub spec_id: EvmSpec,
    /// How much working memory to allocate ahead.
    pub shared_memory_capacity: SharedMemoryCapacity,
    /// How slots are fetched one by one.
    pub storage_batch_config: StorageBatchConfig,
    /// How slots are loaded.
    pub storage_fetch_strategy: StorageFetchStrategy,
    /// The chain, where it is given.
    pub chain_id: Option<u64>,
    /// What a header must carry.
    pub block_context_requirements: BlockContextRequirements,
    /// How many proofs are fetched at a time.
    pub max_concurrent_proofs: usize,
}

impl EvmCacheBuilder {
    /// The newest block, nothing persisted, the Cancun fork, and the defaults of
    /// everything else.
    pub fn new() -> (r: Self)
        ensures
            r.block == BlockId::Number(crate::block::BlockNumberOrTag::Latest),
            r.cache_config is None,
            r.spec_id == EvmSpec::spec_cancun(),
            r.shared_memory_capacity == SharedMemoryCapacity::Fixed(
                DEFAULT_SHARED_MEMORY_CAPACITY,
            ),
            r.storage_batch_config == StorageBatchConfig::spec_from_mode(CacheSpeedMode::Slow),
            r.storage_fetch_strategy == StorageFetchStrategy::BulkCall(
                BulkCallConfig {
                    max_slots_per_call: 10_000,
                    max_targets_per_call: 250,
                    max_concurrent_calls: 4,
                    point_read_threshold: 2,
                    pre_shanghai_extractor: false,
                    dispatch: CallDispatch::PerCall,
                    max_slots_per_request: 25_000,
                },
            ),
            r.chain_id is None,
            r.block_context_requirements == BlockContextRequirements::spec_lenient(),
            r.max_concurrent_proofs == DEFAULT_MAX_CONCURRENT_PROOFS,
    {
        EvmCacheBuilder {
            block: BlockId::latest(),
            cache_config: None,
            spec_id: EvmSpec::cancun(),
            shared_memory_capacity: SharedMemoryCapacity::default(),
            storage_batch_config: StorageBatchConfig::default(),
            storage_fetch_strategy: StorageFetchStrategy::default(),
            chain_id: None,
            block_context_requirements: BlockContextRequirements::lenient(),
            max_concurrent_proofs: DEFAULT_MAX_CONCURRENT_PROOFS,
        }
    }

    /// Fetches so many proofs at a time, at least one.
    pub fn max_concurrent_proofs(self, cap: usize) -> (r: Self)
        ensures
            r == (EvmCacheBuilder {
                max_concurrent_proofs: if cap == 0 {
                    1
                } else {
                    cap
                },
                ..self
            }),
    {
        EvmCacheBuilder {
            max_concurrent_proofs: if cap == 0 {
                1
            } else {
                cap
            },
            ..self
        }
    }

    /// Reads at a block.
    pub fn block(self, block: BlockId) -> (r: Self)
        ensures
            r == (EvmCacheBuilder { block, ..self }),
    {
        EvmCacheBuilder { block, ..self }
    }

    /// Reads at the newest block.
    pub fn latest_block(self) -> (r: Self)
        ensures
            r == (EvmCacheBuilder {
                block: BlockId::Number(crate::block::BlockNumberOrTag::Latest),
                ..self
            }),
    {
        EvmCacheBuilder { block: BlockId::latest(), ..self }
    }

    /// Runs a hard fork.
    pub fn spec(self, spec_id: EvmSpec) -> (r: Self)
        ensures
            r == (EvmCacheBuilder { spec_id, ..self }),
    {
        EvmCacheBuilder { spec_id, ..self }
    }

    /// Runs on a chain.
    pub fn chain_id(self, chain_id: u64) -> (r: Self)
        ensures
            r == (EvmCacheBuilder { chain_id: Some(chain_id), ..self }),
    {
        EvmCacheBuilder { chain_id: Some(chain_id), ..self }
    }

    /// Persists state.
    pub fn cache_config(self, cache_config: CacheConfig) -> (r: Self)
        ensures
            r == (EvmCacheBuilder { cache_config: Some(cache_config), ..self }),
    {
        EvmCacheBuilder { cache_config: Some(cache_config), ..self }
    }

    /// Allocates working memory ahead.
    pub fn shared_memory_capacity(self, capacity: SharedMemoryCapacity) -> (r: Self)
        ensures
            r == (EvmCacheBuilder { shared_memory_capacity: capacity, ..self }),
    {
        EvmCacheBuilder { shared_memory_capacity: capacity, ..self }
    }

    /// Fetches slots one by one in this way.
    pub fn storage_batch_config(self, config: StorageBatchConfig) -> (r: Self)
        ensures
            r == (EvmCacheBuilder { storage_batch_config: config.spec_normalized(), ..self }),
    {
        EvmCacheBuilder { storage_batch_config: config.normalized(), ..self }
    }

    /// Fetches slots one by one as a preset has it.
    pub fn speed_mode(self, mode: CacheSpeedMode) -> (r: Self)
        ensures
            r == (EvmCacheBuilder {
                storage_batch_config: StorageBatchConfig::spec_from_mode(mode).spec_normalized(),
                ..self
            }),
    {
        self.storage_batch_config(StorageBatchConfig::from(mode))
    }

    /// Loads slots in this way.
    pub fn storage_fetch_strategy(self, strategy: StorageFetchStrategy) -> (r: Self)
        ensures
            r == (EvmCacheBuilder { storage_fetch_strategy: strategy, ..self }),
    {
        EvmCacheBuilder { storage_fetch_strategy: strategy, ..self }
    }

    /// Loads slots in bulk in this way.
    pub fn bulk_call_config(self, config: BulkCallConfig) -> (r: Self)
        ensures
            r == (EvmCacheBuilder {
                storage_fetch_strategy: StorageFetchStrategy::BulkCall(config),
                ..self
            }),
    {
        self.storage_fetch_strategy(StorageFetchStrategy::BulkCall(config))
    }

    /// Requires these fields of a header.
    pub fn block_context_requirements(self, reqs: BlockContextRequirements) -> (r: Self)
        ensures
            r == (EvmCacheBuilder { block_context_requirements: reqs, ..self }),
    {
        EvmCacheBuilder { block_context_requirements: reqs, ..self }
    }

    /// Requires every field of a header, or none.
    pub fn strict_block_context(self, strict: bool) -> (r: Self)
        ensures
            r == (EvmCacheBuilder {
                block_context_requirements: if strict {
                    BlockContextRequirements::spec_strict()
                } else {
                    BlockContextRequirements::spec_lenient()
                },
                ..self
            }),
    {
        EvmCacheBuilder {
            block_context_requirements: if strict {
                BlockContextRequirements::strict()
            } else {
                BlockContextRequirements::lenient()
            },
            ..self
        }
    }

    /// The chain: the one given, else the one of the persisted state, else the
    /// provider's, else the first.
    pub open spec fn chain(self, reported: Option<u64>) -> u64 {
        match self.chain_id {
            Some(id) => id,
            None => match self.cache_config {
                Some(config) => config.chain_id,
                None => match reported {
                    Some(id) => id,
                    None => 1,
                },
            },
        }
    }

    /// Whether a cache is what the options ask for.
    pub open spec fn describes(
        self,
        cache: EvmCache,
        header: Option<&BlockHeader>,
        reported: Option<u64>,
        loaded: LoadedState,
    ) -> bool {
        is_assembled(
            cache,
            self.block,
            header,
            self.spec_id,
            self.chain(reported),
            match self.cache_config {
                Some(config) => Some(&config),
                None => None,
            },
            loaded,
            self.shared_memory_capacity,
            self.storage_batch_config,
        )
    }

    /// A cache, from the header of the block where it could be fetched, the chain
    /// that the provider reports, and what was loaded. Nothing is required of the
    /// header.
    pub fn build(
        self,
        header: Option<&BlockHeader>,
        reported_chain_id: Option<u64>,
        loaded: LoadedState,
    ) -> (r: EvmCache)
        ensures
            r.wf(),
            self.describes(r, header, reported_chain_id, loaded),
            r.requirements == BlockContextRequirements::spec_lenient(),
    {
        let configured: Option<u64> = match self.chain_id {
            Some(id) => Some(id),
            None => match &self.cache_config {
                Some(config) => Some(config.chain_id),
                None => None,
            },
        };
        let chain_id: u64 = resolve_chain_id(configured, reported_chain_id);
        match &self.cache_config {
            Some(config) => EvmCache::assemble(
                self.block,
                header,
                self.spec_id,
                chain_id,
                Some(config),
                loaded,
                self.shared_memory_capacity,
                self.storage_batch_config,
            ),
            None => EvmCache::assemble(
                self.block,
                header,
                self.spec_id,
                chain_id,
                None,
                loaded,
                self.shared_memory_capacity,
                self.storage_batch_config,
            ),
        }
    }

    /// Whether a header is to be fetched to be checked.
    pub fn checks_header(&self) -> (r: bool)
        ensures
            r == (self.block_context_requirements != BlockContextRequirements::spec_lenient()),
    {
        self.block_context_requirements != BlockContextRequirements::lenient()
    }

    /// A cache as [`build`](Self::build) makes it, if the header that was fetched
    /// to be checked carries what is required. Where nothing is required it always
    /// does. The cache goes on to require it.
    pub fn try_build(
        self,
        header: Option<&BlockHeader>,
        reported_chain_id: Option<u64>,
        loaded: LoadedState,
        checked: Result<BlockHeader, String>,
    ) -> (r: Result<EvmCache, BlockContextError>)
        ensures
            ({
                let reqs = self.block_context_requirements;
                let accepted = reqs == BlockContextRequirements::spec_lenient() || (checked is Ok
                    && reqs.met_by(checked->Ok_0));
                match r {
                    Ok(cache) => {
                        &&& accepted
                        &&& cache.wf()
                        &&& self.describes(cache, header, reported_chain_id, loaded)
                        &&& cache.requirements == reqs
                    },
                    Err(error) => {
                        &&& !accepted
                        &&& match checked {
                            Err(details) => error == BlockContextError::FetchFailed(details),
                            Ok(found) => error matches BlockContextError::MissingField { field }
                                && field@ == if reqs.require_basefee
                                && found.base_fee_per_gas is None {
                                "basefee"@
                            } else {
                                "prevrandao"@
                            },
                        }
                    },
                }
            }),
    {
        let reqs: BlockContextRequirements = self.block_context_requirements;
        match reqs.validate_fetched(checked) {
            Ok(()) => {},
            Err(error) => return Err(error),
        }
        let mut cache: EvmCache = self.build(header, reported_chain_id, loaded);
        cache.set_block_context_requirements(reqs);
        Ok(cache)
    }
}

} // verus!
