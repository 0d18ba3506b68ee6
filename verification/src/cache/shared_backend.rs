//! The backend that several caches share.
//!
//! One cache holds the backend at a time: it gives it up, and another takes it over
//! with all that was fetched and written through it, and the block it is pinned to.

use crate::block::BlockId;
use crate::cache::account::{AccountInfo, AccountModel, InfoModel, SlotMap};
use crate::cache::base::BaseMemo;
use crate::cache::code_seeds::CodeSeedState;
use crate::cache::config::{
    CacheSpeedMode, StorageBatchConfig, DEFAULT_SHARED_MEMORY_CAPACITY,
};
use crate::cache::context::{BlockContext, BlockContextRequirements, EvmSpec};
use crate::cache::evm_cache::EvmCache;
use crate::cache::layers::{accounts_model, storage_model, Layers, LayersModel};
use crate::cache::mapping::TrackedMapping;
use crate::cache::metadata::ImmutableDataCache;
use crate::collections::SortedMap;
use crate::primitives::{Address, B256, U256};
use vstd::prelude::*;

verus! {

/// What was fetched, and the block that is fetched at.
pub struct SharedBackend {
    /// Accounts.
    pub accounts: SortedMap<Address, AccountInfo>,
    /// Slots by account.
    pub storage: SortedMap<Address, SlotMap>,
    /// Known block hashes.
    pub block_hashes: SortedMap<u64, B256>,
    /// The block that is fetched at.
    pub pinned: BlockId,
}

/// What a backend holds.
#[verifier::ext_equal]
pub struct BackendModel {
    /// Accounts.
    pub accounts: Map<Address, InfoModel>,
    /// Slots by account.
    pub storage: Map<Address, Map<U256, U256>>,
    /// Known block hashes.
    pub block_hashes: Map<u64, B256>,
    /// The block that is fetched at.
    pub pinned: BlockId,
}

impl View for SharedBackend {
    type V = BackendModel;

    open spec fn view(&self) -> BackendModel {
        BackendModel {
            accounts: accounts_model(self.accounts@),
            storage: storage_model(self.storage@),
            block_hashes: self.block_hashes@,
            pinned: self.pinned,
        }
    }
}

impl SharedBackend {
    /// A backend that has fetched nothing.
    pub fn new(pinned: BlockId) -> (r: Self)
        ensures
            r@ == (BackendModel {
                accounts: Map::empty(),
                storage: Map::empty(),
                block_hashes: Map::empty(),
                pinned,
            }),
    {
        let r = SharedBackend {
            accounts: SortedMap::new(),
            storage: SortedMap::new(),
            block_hashes: SortedMap::new(),
            pinned,
        };
        proof {
            assert(r@.accounts =~= Map::empty());
            assert(r@.storage =~= Map::empty());
        }
        r
    }
}

/// Layers with another backend below the overlay.
pub open spec fn over_backend(layers: LayersModel, backend: BackendModel) -> LayersModel {
    LayersModel { overlay: layers.overlay, accounts: backend.accounts, storage: backend.storage }
}

impl EvmCache {
    /// The backend that the cache holds.
    pub open spec fn backend(self) -> BackendModel {
        BackendModel {
            accounts: self.layers@.accounts,
            storage: self.layers@.storage,
            block_hashes: self.block_hashes@,
            pinned: self.pinned,
        }
    }

    /// A cache over a backend, without anything persisted, that loads slots as
    /// caches do by default. It takes the backend over, with the block that it is
    /// pinned to; other caches over it get it by `give_backend` and `take_backend`.
    pub fn from_backend(
        backend: SharedBackend,
        block: BlockId,
        chain_id: u64,
        block_number: Option<u64>,
        basefee: Option<u64>,
        spec: EvmSpec,
    ) -> (r: Self)
        ensures
            r.wf(),
            r.layers@.overlay == Map::<Address, AccountModel>::empty(),
            r.backend() == backend@,
            r.context == (BlockContext {
                block_number,
                basefee,
                ..BlockContext::spec_pinned(block, chain_id, spec)
            }),
            r.requirements == BlockContextRequirements::spec_lenient(),
            r.snapshot_generation == 0,
            r.code_seeds@ == Map::<Address, CodeSeedState>::empty(),
            r.token_decimals@ == Map::<Address, u8>::empty(),
            r.immutable_cache@ == Map::<Address, u8>::empty(),
            r.erc20_balance_slots@ == Map::<Address, TrackedMapping>::empty(),
            r.storage_batch_config == StorageBatchConfig::spec_from_mode(CacheSpeedMode::Slow),
            r.shared_memory_capacity == DEFAULT_SHARED_MEMORY_CAPACITY,
    {
        let layers = Layers {
            overlay: SortedMap::new(),
            accounts: backend.accounts,
            storage: backend.storage,
        };
        assert(layers@.overlay =~= Map::empty());
        EvmCache {
            layers,
            memo: BaseMemo::new(),
            pinned: backend.pinned,
            context: BlockContext {
                block_number,
                basefee,
                ..BlockContext::pinned(block, chain_id, spec)
            },
            requirements: BlockContextRequirements::lenient(),
            snapshot_generation: 0,
            code_seeds: SortedMap::new(),
            token_decimals: SortedMap::new(),
            immutable_cache: ImmutableDataCache::default(),
            erc20_balance_slots: SortedMap::new(),
            block_hashes: backend.block_hashes,
            storage_batch_config: StorageBatchConfig::default(),
            shared_memory_capacity: DEFAULT_SHARED_MEMORY_CAPACITY,
        }
    }

    /// Gives the backend up, with all that was fetched and written through this
    /// cache. What is left is the overlay, over a backend that has fetched nothing
    /// and is pinned to the same block.
    pub fn give_backend(&mut self) -> (r: SharedBackend)
        requires
            old(self).wf(),
        ensures
            final(self).wf(),
            r@ == old(self).backend(),
            final(self).backend() == (BackendModel {
                accounts: Map::empty(),
                storage: Map::empty(),
                block_hashes: Map::empty(),
                pinned: old(self).pinned,
            }),
            final(self).layers@ == over_backend(old(self).layers@, final(self).backend()),
            *final(self) == (EvmCache {
                layers: final(self).layers,
                memo: final(self).memo,
                block_hashes: final(self).block_hashes,
                ..*old(self)
            }),
    {
        let mut backend: SharedBackend = SharedBackend::new(self.pinned);
        self.swap_backend(&mut backend);
        backend
    }

    /// Takes a backend over, with all that was fetched and written through it, and
    /// the block that it is pinned to. What the cache fetched itself is let go; the
    /// overlay stays.
    pub fn take_backend(&mut self, backend: SharedBackend)
        requires
            old(self).wf(),
        ensures
            final(self).wf(),
            final(self).backend() == backend@,
            final(self).layers@ == over_backend(old(self).layers@, backend@),
            *final(self) == (EvmCache {
                layers: final(self).layers,
                memo: final(self).memo,
                pinned: backend.pinned,
                block_hashes: final(self).block_hashes,
                ..*old(self)
            }),
    {
        let mut backend: SharedBackend = backend;
        self.swap_backend(&mut backend);
    }

    /// Exchanges the backend for another.
    fn swap_backend(&mut self, backend: &mut SharedBackend)
        requires
            old(self).wf(),
        ensures
            final(self).wf(),
            final(self).backend() == old(backend)@,
            final(backend)@ == old(self).backend(),
            final(self).layers@ == over_backend(old(self).layers@, old(backend)@),
            *final(self) == (EvmCache {
                layers: final(self).layers,
                memo: final(self).memo,
                pinned: old(backend).pinned,
                block_hashes: final(self).block_hashes,
                ..*old(self)
            }),
    {
        std::mem::swap(&mut self.layers.accounts, &mut backend.accounts);
        std::mem::swap(&mut self.layers.storage, &mut backend.storage);
        std::mem::swap(&mut self.block_hashes, &mut backend.block_hashes);
        let pinned: BlockId = self.pinned;
        self.pinned = backend.pinned;
        backend.pinned = pinned;
        self.memo.invalidate();
        assert(self.layers@ =~= over_backend(old(self).layers@, old(backend)@));
    }
}

/// Caches over one backend share what was fetched and written through it: once the
/// one gave it up and the other took it over, the other reads the slots and accounts
/// of the one that its own overlay does not hold, and fetches at the block that the
/// one pinned. What only the overlay of the one holds is not seen.
pub proof fn law_caches_over_one_backend_share_it(
    one: EvmCache,
    other: EvmCache,
    taken: EvmCache,
    address: Address,
    slot: U256,
)
    requires
        taken.backend() == one.backend(),
        taken.layers@ == over_backend(other.layers@, one.backend()),
        !other.layers@.overlay.contains_key(address),
    ensures
        taken.pinned == one.pinned,
        taken.layers@.slot(address, slot) == (LayersModel {
            overlay: Map::empty(),
            ..one.layers@
        }).slot(address, slot),
        taken.layers@.info(address) == (LayersModel { overlay: Map::empty(), ..one.layers@ }).info(
            address,
        ),
        !one.layers@.overlay.contains_key(address) ==> taken.layers@.slot(address, slot)
            == one.layers@.slot(address, slot) && taken.layers@.info(address)
            == one.layers@.info(address),
{
}

/// A slot that is written through one cache is read by every cache over its backend
/// whose overlay does not hold the account.
pub proof fn law_writes_are_seen_over_one_backend(
    before: LayersModel,
    other: LayersModel,
    block_hashes: Map<u64, B256>,
    pinned: BlockId,
    address: Address,
    slot: U256,
    value: U256,
)
    requires
        !other.overlay.contains_key(address),
    ensures
        ({
            let after = before.with_slot(address, slot, value);
            let backend = BackendModel {
                accounts: after.accounts,
                storage: after.storage,
                block_hashes,
                pinned,
            };
            over_backend(other, backend).slot(address, slot) == Some(value)
        }),
{
}

} // verus!
