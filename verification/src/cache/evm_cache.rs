//! The cache: both layers, the block they are read at, and what is known beside.

use crate::block::BlockId;
use crate::cache::account::{
    AccountInfo, AccountModel, Bytecode, DbAccount, InfoModel, SlotMap,
};
use crate::cache::base::{BaseMemo, BaseState};
use crate::cache::code_seeds::{mark_survives, surviving_marks, CodeSeedState};
use crate::cache::config::{
    SharedMemoryCapacity, StorageBatchConfig,
};
use crate::cache::context::{
    BlockContext, BlockContextError, BlockContextRequirements, BlockHeader, EvmSpec,
};
use crate::cache::layers::{
    accounts_model, overlay_model, slots_at, storage_model, Layers, LayersModel,
};
use crate::cache::mapping::TrackedMapping;
use crate::cache::metadata::{kept_storage, CacheConfig, ImmutableDataCache};
use crate::cache::snapshot::EvmSnapshot;
use crate::cache::state_update::{ScopeModel, UpdateModel};
use crate::collections::SortedMap;
use crate::foreign::code_hash_of;
use crate::primitives::{Address, B256, U256};
use std::sync::Arc;
use vstd::prelude::*;

verus! {

/// The cache.
pub struct EvmCache {
    /// The two layers of state.
    pub layers: Layers,
    /// The image of layer 2 that snapshots share.
    pub memo: BaseMemo,
    /// The block that the backend fetches at. Caches that were given the backend in
    /// between may have pinned it to another one than this cache's own.
    pub pinned: BlockId,
    /// The block that simulations run in.
    pub context: BlockContext,
    /// What a new header must carry.
    pub requirements: BlockContextRequirements,
    /// A number that changes with every targeted write and every new block.
    pub snapshot_generation: u64,
    /// Where code came from that was not fetched.
    pub code_seeds: SortedMap<Address, CodeSeedState>,
    /// The decimals of tokens.
    pub token_decimals: SortedMap<Address, u8>,
    /// On-chain data that never changes.
    pub immutable_cache: ImmutableDataCache,
    /// Where tokens keep balances.
    pub erc20_balance_slots: SortedMap<Address, TrackedMapping>,
    /// Known block hashes.
    pub block_hashes: SortedMap<u64, B256>,
    /// How slots are fetched one by one.
    pub storage_batch_config: StorageBatchConfig,
    /// Bytes of working memory to allocate ahead.
    pub shared_memory_capacity: usize,
}

/// A number one further on, starting again at zero after the largest.
pub open spec fn next_generation(generation: u64) -> u64 {
    if generation == u64::MAX {
        0
    } else {
        (generation + 1) as u64
    }
}

/// A number so many further on.
pub open spec fn later_generation(generation: u64, steps: nat) -> u64
    decreases steps,
{
    if steps == 0 {
        generation
    } else {
        next_generation(later_generation(generation, (steps - 1) as nat))
    }
}

/// The marks after an update: taking an account out takes its mark out.
pub open spec fn marks_after(marks: Map<Address, CodeSeedState>, update: UpdateModel) -> Map<
    Address,
    CodeSeedState,
> {
    match update {
        UpdateModel::Purge { address, scope: ScopeModel::Account } => marks.remove(address),
        _ => marks,
    }
}

/// The marks after several updates.
pub open spec fn marks_after_all(
    marks: Map<Address, CodeSeedState>,
    updates: Seq<UpdateModel>,
) -> Map<Address, CodeSeedState>
    decreases updates.len(),
{
    if updates.len() == 0 {
        marks
    } else {
        marks_after(marks_after_all(marks, updates.drop_last()), updates.last())
    }
}

/// How often a batch changes the generation: once for itself and once for each
/// update that is not part of a run of slot writes.
pub open spec fn batch_steps(updates: Seq<UpdateModel>) -> nat
    decreases updates.len(),
{
    if updates.len() == 0 {
        0
    } else if updates.len() == 1 {
        if updates.last().in_slot_run() {
            1
        } else {
            2
        }
    } else {
        batch_steps(updates.drop_last()) + if updates.last().in_slot_run() {
            0nat
        } else {
            1nat
        }
    }
}

/// The state with slots written to the backend, in order.
pub open spec fn injected(layers: LayersModel, results: Seq<(Address, U256, U256)>) -> LayersModel
    decreases results.len(),
{
    if results.len() == 0 {
        layers
    } else {
        injected(layers, results.drop_last()).with_backend_slot(
            results.last().0,
            results.last().1,
            results.last().2,
        )
    }
}

/// What was loaded from disk.
pub struct LoadedState {
    /// Accounts.
    pub accounts: SortedMap<Address, AccountInfo>,
    /// Storage.
    pub storage: SortedMap<Address, SlotMap>,
    /// Runtime code.
    pub bytecodes: Vec<(Address, Bytecode)>,
    /// Marks.
    pub code_seeds: SortedMap<Address, CodeSeedState>,
    /// On-chain data that never changes.
    pub immutable: ImmutableDataCache,
}

/// Accounts with code entered, in order: with neither balance nor nonce. Empty
/// code is passed over.
pub open spec fn with_bytecodes(
    accounts: Map<Address, InfoModel>,
    bytecodes: Seq<(Address, Bytecode)>,
) -> Map<Address, InfoModel>
    decreases bytecodes.len(),
{
    if bytecodes.len() == 0 {
        accounts
    } else {
        let before = with_bytecodes(accounts, bytecodes.drop_last());
        let (address, code) = bytecodes.last();
        if code@.len() == 0 {
            before
        } else {
            before.insert(
                address,
                InfoModel {
                    balance: U256::spec_zero(),
                    nonce: 0,
                    code_hash: B256::spec_from(code_hash_of(code@)),
                    code: Some(code@),
                },
            )
        }
    }
}

/// Enters code into accounts.
pub fn seed_bytecodes(accounts: &mut SortedMap<Address, AccountInfo>, bytecodes: &Vec<
    (Address, Bytecode),
>)
    ensures
        accounts_model(final(accounts)@) == with_bytecodes(
            accounts_model(old(accounts)@),
            bytecodes@,
        ),
{
    let mut i: usize = 0;
    assert(bytecodes@.take(0) =~= Seq::empty());
    while i < bytecodes.len()
        invariant
            i <= bytecodes.len(),
            accounts_model(accounts@) == with_bytecodes(
                accounts_model(old(accounts)@),
                bytecodes@.take(i as int),
            ),
        decreases bytecodes.len() - i,
    {
        let ghost before = accounts@;
        assert(bytecodes@.take(i as int + 1).drop_last() =~= bytecodes@.take(i as int));
        if !bytecodes[i].1.is_empty() {
            let info = AccountInfo {
                balance: U256::zero(),
                nonce: 0,
                code_hash: bytecodes[i].1.hash_slow(),
                code: Some(bytecodes[i].1.clone()),
            };
            accounts.insert(bytecodes[i].0, info);
            assert(accounts_model(accounts@) =~= accounts_model(before).insert(
                bytecodes@[i as int].0,
                info@,
            ));
        }
        i = i + 1;
    }
    assert(bytecodes@.take(i as int) =~= bytecodes@);
}

/// The chain that simulations see: the one configured, else the provider's, else
/// the first.
pub fn resolve_chain_id(configured: Option<u64>, reported: Option<u64>) -> (r: u64)
    ensures
        r == match (configured, reported) {
            (Some(id), _) => id,
            (None, Some(id)) => id,
            (None, None) => 1,
        },
{
    match configured {
        Some(id) => id,
        None => match reported {
            Some(id) => id,
            None => 1,
        },
    }
}

/// Whether a cache is made of what was loaded, pinned to a block.
pub open spec fn is_assembled(
    cache: EvmCache,
    block: BlockId,
    header: Option<&BlockHeader>,
    spec: EvmSpec,
    chain_id: u64,
    config: Option<&CacheConfig>,
    loaded: LoadedState,
    capacity: SharedMemoryCapacity,
    storage_batch_config: StorageBatchConfig,
) -> bool {
    &&& cache.layers@.overlay == Map::<Address, AccountModel>::empty()
    &&& cache.layers@.accounts == with_bytecodes(
        accounts_model(loaded.accounts@),
        loaded.bytecodes@,
    )
    &&& cache.layers@.storage == match config {
        Some(config) => kept_storage(
            storage_model(loaded.storage@),
            config.maintain_addresses@,
            config.maintain_slots@,
        ),
        None => storage_model(loaded.storage@),
    }
    &&& forall|a: Address| #[trigger]
        cache.code_seeds@.contains_key(a) <==> loaded.code_seeds@.contains_key(a)
            && mark_survives(cache.layers.accounts@, a, loaded.code_seeds@[a])
    &&& forall|a: Address| #[trigger]
        cache.code_seeds@.contains_key(a) ==> cache.code_seeds@[a] == loaded.code_seeds@[a]
    &&& cache.immutable_cache@ == loaded.immutable@
    &&& cache.token_decimals@ == loaded.immutable@
    &&& cache.context == match header {
        Some(header) => BlockContext {
            block,
            ..BlockContext::spec_pinned(block, chain_id, spec).spec_at_header(*header)
        },
        None => BlockContext::spec_pinned(block, chain_id, spec),
    }
    &&& cache.pinned == block
    &&& cache.snapshot_generation == 0
    &&& cache.erc20_balance_slots@ == Map::<Address, TrackedMapping>::empty()
    &&& cache.block_hashes@ == Map::<u64, B256>::empty()
    &&& cache.storage_batch_config == storage_batch_config.spec_normalized()
    &&& cache.shared_memory_capacity == match capacity {
        SharedMemoryCapacity::Fixed(bytes) => bytes as int,
        SharedMemoryCapacity::Auto => {
            let wanted = cache.layers.spec_backend_slot_total()
                * SharedMemoryCapacity::AUTO_BYTES_PER_SLOT as nat;
            if wanted < SharedMemoryCapacity::MIN_AUTO {
                SharedMemoryCapacity::MIN_AUTO as int
            } else if wanted > SharedMemoryCapacity::MAX_AUTO {
                SharedMemoryCapacity::MAX_AUTO as int
            } else {
                wanted as int
            }
        },
    }
}

impl EvmCache {
    /// Whether the image of layer 2 can be brought up to date.
    pub open spec fn wf(self) -> bool {
        self.memo.honest(self.layers@)
    }

    /// A cache of what was loaded, pinned to `block`.
    ///
    /// The block's header, where it could be fetched, gives the context. Storage
    /// that is not to be kept is dropped, code is entered, and marks whose code
    /// did not survive are dropped.
    pub fn assemble(
        block: BlockId,
        header: Option<&BlockHeader>,
        spec: EvmSpec,
        chain_id: u64,
        config: Option<&CacheConfig>,
        loaded: LoadedState,
        capacity: SharedMemoryCapacity,
        storage_batch_config: StorageBatchConfig,
    ) -> (r: Self)
        ensures
            r.wf(),
            is_assembled(
                r,
                block,
                header,
                spec,
                chain_id,
                config,
                loaded,
                capacity,
                storage_batch_config,
            ),
            r.requirements == BlockContextRequirements::spec_lenient(),
    {
        let pinned = BlockContext::pinned(block, chain_id, spec);
        let context: BlockContext = match header {
            Some(header) => BlockContext { block, ..pinned.at_header(header) },
            None => pinned,
        };
        let storage: SortedMap<Address, SlotMap> = match config {
            Some(config) => config.filter_storage(loaded.storage),
            None => loaded.storage,
        };
        let mut accounts: SortedMap<Address, AccountInfo> = loaded.accounts;
        seed_bytecodes(&mut accounts, &loaded.bytecodes);
        let code_seeds = surviving_marks(&loaded.code_seeds, &accounts);
        let layers = Layers { overlay: SortedMap::new(), accounts, storage };
        assert(layers@.overlay =~= Map::empty());
        let slots: usize = match layers.backend_slot_total() {
            Some(total) => total,
            None => usize::MAX,
        };
        EvmCache {
            layers,
            memo: BaseMemo::new(),
            pinned: block,
            context,
            requirements: BlockContextRequirements::lenient(),
            snapshot_generation: 0,
            code_seeds,
            token_decimals: loaded.immutable.copy_decimals(),
            immutable_cache: loaded.immutable,
            erc20_balance_slots: SortedMap::new(),
            block_hashes: SortedMap::new(),
            storage_batch_config: storage_batch_config.normalized(),
            shared_memory_capacity: capacity.resolve(slots),
        }
    }

    /// Moves the generation on.
    pub(crate) fn bump_snapshot_generation(&mut self)
        ensures
            *final(self) == (EvmCache {
                snapshot_generation: next_generation(old(self).snapshot_generation),
                ..*old(self)
            }),
    {
        self.snapshot_generation = self.snapshot_generation.wrapping_add(1);
    }

    /// A number that changes with every targeted write and every new block.
    pub fn snapshot_generation(&self) -> (r: u64)
        ensures
            r == self.snapshot_generation,
    {
        self.snapshot_generation
    }

    /// Has the next snapshot build its image anew.
    pub fn invalidate_snapshot_base(&mut self)
        ensures
            final(self).wf(),
            final(self).memo.full_rebuild,
            *final(self) == (EvmCache { memo: final(self).memo, ..*old(self) }),
    {
        self.memo.invalidate();
    }

    /// A snapshot that reads as the cache does now. It shares its image of layer
    /// 2 with earlier snapshots as far as that is unchanged.
    pub fn snapshot(&mut self) -> (r: Arc<EvmSnapshot>)
        requires
            old(self).wf(),
        ensures
            final(self).wf(),
            r.mirrors(old(self).layers@),
            r.context == old(self).context,
            r.shared_memory_capacity == old(self).shared_memory_capacity,
            r.block_hashes@ == Map::<u64, B256>::empty(),
            *final(self) == (EvmCache { memo: final(self).memo, ..*old(self) }),
    {
        let base: Arc<BaseState> = self.memo.refresh(&self.layers);
        Arc::new(
            EvmSnapshot::over_base(base, &self.layers, self.context, self.shared_memory_capacity),
        )
    }

    /// A snapshot that reads as the cache does now, with an image of its own.
    pub fn snapshot_deep_clone(&self) -> (r: Arc<EvmSnapshot>)
        ensures
            r.mirrors(self.layers@),
            r.context == self.context,
            r.shared_memory_capacity == self.shared_memory_capacity,
            r.block_hashes@ == Map::<u64, B256>::empty(),
    {
        Arc::new(EvmSnapshot::flattened(&self.layers, self.context, self.shared_memory_capacity))
    }

    /// A copy of the overlay, to return to.
    pub fn checkpoint(&self) -> (r: SortedMap<Address, DbAccount>)
        ensures
            overlay_model(r@) == self.layers@.overlay,
    {
        self.layers.copy_overlay()
    }

    /// Returns to a copy of the overlay. The backend stays as it is.
    pub fn restore(&mut self, checkpoint: SortedMap<Address, DbAccount>)
        requires
            old(self).wf(),
        ensures
            final(self).wf(),
            final(self).layers@ == (LayersModel {
                overlay: overlay_model(checkpoint@),
                ..old(self).layers@
            }),
            *final(self) == (EvmCache { layers: final(self).layers, ..*old(self) }),
    {
        self.layers.overlay = checkpoint;
    }
}

impl EvmCache {
    /// The block that fetches read at.
    pub fn block(&self) -> (r: BlockId)
        ensures
            r == self.context.block,
    {
        self.context.block
    }

    /// Pins fetches to another block. A change of the pin moves the generation
    /// on and has the next snapshot build its image anew.
    pub fn set_block(&mut self, block: BlockId)
        requires
            old(self).wf(),
        ensures
            final(self).wf(),
            final(self).context == old(self).context.spec_at_block(block),
            old(self).context.block != block ==> {
                &&& final(self).memo.full_rebuild
                &&& *final(self) == (EvmCache {
                    pinned: block,
                    context: final(self).context,
                    memo: final(self).memo,
                    snapshot_generation: next_generation(old(self).snapshot_generation),
                    ..*old(self)
                })
            },
            old(self).context.block == block ==> *final(self) == (EvmCache {
                context: final(self).context,
                ..*old(self)
            }),
    {
        if self.context.block != block {
            self.pinned = block;
            self.bump_snapshot_generation();
            self.memo.invalidate();
        }
        self.context = self.context.at_block(block);
    }

    /// Pins fetches to a height.
    pub fn repin_to_block(&mut self, block_number: u64)
        requires
            old(self).wf(),
        ensures
            final(self).wf(),
            ({
                let block = BlockId::Number(
                    crate::block::BlockNumberOrTag::Number(block_number),
                );
                &&& final(self).context == old(self).context.spec_at_block(block)
                &&& old(self).context.block != block ==> {
                    &&& final(self).memo.full_rebuild
                    &&& *final(self) == (EvmCache {
                        pinned: block,
                        context: final(self).context,
                        memo: final(self).memo,
                        snapshot_generation: next_generation(old(self).snapshot_generation),
                        ..*old(self)
                    })
                }
                &&& old(self).context.block == block ==> *final(self) == (EvmCache {
                    context: final(self).context,
                    ..*old(self)
                })
            }),
    {
        self.set_block(BlockId::number(block_number));
    }

    /// Takes on the environment of a new block, unless its header lacks what is
    /// required. The image that snapshots share stays in use.
    pub fn advance_block(&mut self, header: &BlockHeader) -> (r: Result<(), BlockContextError>)
        requires
            old(self).wf(),
        ensures
            final(self).wf(),
            r is Ok <==> old(self).requirements.met_by(*header),
            r is Ok ==> *final(self) == (EvmCache {
                pinned: old(self).context.spec_at_header(*header).block,
                context: old(self).context.spec_at_header(*header),
                snapshot_generation: next_generation(old(self).snapshot_generation),
                ..*old(self)
            }),
            r matches Err(e) ==> {
                &&& *final(self) == *old(self)
                &&& e matches BlockContextError::MissingField { field }
                &&& field@ == if old(self).requirements.require_basefee
                    && header.base_fee_per_gas is None {
                    "basefee"@
                } else {
                    "prevrandao"@
                }
            },
    {
        match self.requirements.validate_header(header) {
            Ok(()) => {},
            Err(error) => {
                return Err(error);
            },
        }
        self.context = self.context.at_header(header);
        self.pinned = self.context.block;
        self.bump_snapshot_generation();
        Ok(())
    }

    /// Sets the height and the base fee that contracts see.
    pub fn set_block_context(&mut self, block_number: Option<u64>, basefee: Option<u64>)
        ensures
            *final(self) == (EvmCache {
                context: BlockContext { block_number, basefee, ..old(self).context },
                ..*old(self)
            }),
    {
        self.context = BlockContext { block_number, basefee, ..self.context };
    }

    /// Sets the base fee that contracts see: the given one, or the largest that
    /// fits.
    pub fn set_basefee(&mut self, basefee: U256)
        ensures
            *final(self) == (EvmCache {
                context: BlockContext {
                    basefee: Some(
                        if basefee@ > u64::MAX {
                            u64::MAX
                        } else {
                            basefee@ as u64
                        },
                    ),
                    ..old(self).context
                },
                ..*old(self)
            }),
    {
        self.context = self.context.with_basefee(basefee);
    }

    /// Sets the beneficiary that contracts see.
    pub fn set_coinbase(&mut self, coinbase: Option<Address>)
        ensures
            *final(self) == (EvmCache {
                context: BlockContext { coinbase, ..old(self).context },
                ..*old(self)
            }),
    {
        self.context = BlockContext { coinbase, ..self.context };
    }

    /// Sets the random value that contracts see.
    pub fn set_prevrandao(&mut self, prevrandao: Option<B256>)
        ensures
            *final(self) == (EvmCache {
                context: BlockContext { prevrandao, ..old(self).context },
                ..*old(self)
            }),
    {
        self.context = BlockContext { prevrandao, ..self.context };
    }

    /// Sets the gas limit that contracts see.
    pub fn set_block_gas_limit(&mut self, gas_limit: Option<u64>)
        ensures
            *final(self) == (EvmCache {
                context: BlockContext { block_gas_limit: gas_limit, ..old(self).context },
                ..*old(self)
            }),
    {
        self.context = BlockContext { block_gas_limit: gas_limit, ..self.context };
    }

    /// Sets the timestamp that contracts see.
    pub fn set_timestamp(&mut self, timestamp: Option<u64>)
        ensures
            *final(self) == (EvmCache {
                context: BlockContext { timestamp, ..old(self).context },
                ..*old(self)
            }),
    {
        self.context = BlockContext { timestamp, ..self.context };
    }

    /// Sets the chain that contracts see.
    pub fn set_chain_id(&mut self, chain_id: u64)
        ensures
            *final(self) == (EvmCache {
                context: BlockContext { chain_id, ..old(self).context },
                ..*old(self)
            }),
    {
        self.context = BlockContext { chain_id, ..self.context };
    }

    /// Sets what a new header must carry.
    pub fn set_block_context_requirements(&mut self, reqs: BlockContextRequirements)
        ensures
            *final(self) == (EvmCache { requirements: reqs, ..*old(self) }),
    {
        self.requirements = reqs;
    }

    /// The chain that contracts see.
    pub fn chain_id(&self) -> (r: u64)
        ensures
            r == self.context.chain_id,
    {
        self.context.chain_id
    }

    /// The block that the backend fetches at.
    pub fn pinned_block(&self) -> (r: BlockId)
        ensures
            r == self.pinned,
    {
        self.pinned
    }

    /// The height that contracts see, if set.
    pub fn block_number(&self) -> (r: Option<u64>)
        ensures
            r == self.context.block_number,
    {
        self.context.block_number
    }

    /// The base fee that contracts see, if set.
    pub fn basefee(&self) -> (r: Option<u64>)
        ensures
            r == self.context.basefee,
    {
        self.context.basefee
    }

    /// The beneficiary that contracts see, if set.
    pub fn coinbase(&self) -> (r: Option<Address>)
        ensures
            r == self.context.coinbase,
    {
        self.context.coinbase
    }

    /// The random value that contracts see, if set.
    pub fn prevrandao(&self) -> (r: Option<B256>)
        ensures
            r == self.context.prevrandao,
    {
        self.context.prevrandao
    }

    /// The gas limit that contracts see, if set.
    pub fn block_gas_limit(&self) -> (r: Option<u64>)
        ensures
            r == self.context.block_gas_limit,
    {
        self.context.block_gas_limit
    }

    /// The timestamp that contracts see, if set.
    pub fn timestamp(&self) -> (r: Option<u64>)
        ensures
            r == self.context.timestamp,
    {
        self.context.timestamp
    }

    /// Bytes of working memory to allocate ahead.
    pub fn shared_memory_capacity(&self) -> (r: usize)
        ensures
            r == self.shared_memory_capacity,
    {
        self.shared_memory_capacity
    }

    /// How slots are fetched one by one.
    pub fn storage_batch_config(&self) -> (r: StorageBatchConfig)
        ensures
            r == self.storage_batch_config,
    {
        self.storage_batch_config
    }

    /// On-chain data that never changes.
    pub fn immutable_cache(&self) -> (r: &ImmutableDataCache)
        ensures
            *r == self.immutable_cache,
    {
        &self.immutable_cache
    }
}

impl EvmCache {
    /// Allocates at least so many bytes of working memory ahead.
    pub fn reserve_shared_memory(&mut self, capacity: usize)
        requires
            old(self).wf(),
        ensures
            final(self).wf(),
            *final(self) == (EvmCache {
                shared_memory_capacity: if old(self).shared_memory_capacity < capacity {
                    capacity
                } else {
                    old(self).shared_memory_capacity
                },
                ..*old(self)
            }),
    {
        if self.shared_memory_capacity < capacity {
            self.shared_memory_capacity = capacity;
        }
    }

    /// On-chain data that never changes, to add to.
    pub fn immutable_cache_mut(&mut self) -> (r: &mut ImmutableDataCache)
        ensures
            *r == old(self).immutable_cache,
            *final(self) == (EvmCache { immutable_cache: *final(r), ..*old(self) }),
    {
        &mut self.immutable_cache
    }
}

impl EvmCache {
    /// Whether the backend holds storage of an account.
    pub fn has_contract_storage(&self, address: Address) -> (r: bool)
        ensures
            r == (slots_at(self.layers@.storage, address).len() > 0),
    {
        self.layers.has_contract_storage(address)
    }

    /// The number of slots of an account that the backend holds.
    pub fn contract_storage_slot_count(&self, address: Address) -> (r: usize)
        ensures
            r == slots_at(self.layers@.storage, address).len(),
    {
        self.layers.contract_storage_slot_count(address)
    }

    /// The number of slots of an account that the overlay holds.
    pub fn cache_db_storage_slot_count(&self, address: Address) -> (r: usize)
        ensures
            r == if self.layers@.overlay.contains_key(address) {
                self.layers@.overlay[address].storage.len()
            } else {
                0
            },
    {
        self.layers.cache_db_storage_slot_count(address)
    }

    /// The slots of an account that some layer holds, each once.
    pub fn enumerate_contract_slots(&self, address: Address) -> (r: Vec<U256>)
        ensures
            r@.no_duplicates(),
            r@.to_set() == self.layers.spec_contract_slots(address),
    {
        self.layers.enumerate_contract_slots(address)
    }

    /// The accounts that the backend keeps storage for, even none, or that have slots
    /// in the overlay, each once.
    pub fn all_cached_contract_addresses(&self) -> (r: Vec<Address>)
        ensures
            r@.no_duplicates(),
            forall|a: Address|
                r@.contains(a) <==> self.layers@.storage.contains_key(a) || (
                self.layers@.overlay.contains_key(a) && self.layers@.overlay[a].storage.dom()
                    != Set::<U256>::empty()),
    {
        self.layers.all_cached_contract_addresses()
    }
}

} // verus!
