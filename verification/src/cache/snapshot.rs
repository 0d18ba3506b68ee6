//! Immutable snapshots that read exactly as the live cache does.
//!
//! A snapshot is the shared image of layer 2 and, over it, what layer 1 holds.

use crate::cache::account::{
    copy_slots, AccountInfo, AccountModel, AccountState, Bytecode, DbAccount, InfoModel, SlotMap,
};
use crate::cache::base::{
    code_index, code_index_of, codes_model, codes_of, shared_model, BaseState,
};
use crate::cache::context::BlockContext;
use crate::cache::layers::{accounts_model, lookup, slots_at, storage_model, Layers, LayersModel};
use crate::collections::{lemma_take_extend, SortedMap, SortedSet};
use crate::primitives::{Address, B256, U256};
use std::sync::Arc;
use vstd::prelude::*;

verus! {

/// The accounts of an overlay; one that does not exist has no code.
pub open spec fn existing_infos(overlay: Map<Address, AccountModel>) -> Map<Address, InfoModel> {
    overlay.map_values(
        |account: AccountModel|
            if account.account_state == AccountState::NotExisting {
                InfoModel { code: None, ..account.info }
            } else {
                account.info
            },
    )
}

impl LayersModel {
    /// An account as a simulation sees it without fetching, its code hash as it
    /// stands.
    pub open spec fn evm_info(self, address: Address) -> Option<InfoModel> {
        if self.overlay.contains_key(address) {
            if self.overlay[address].account_state == AccountState::NotExisting {
                None
            } else {
                Some(self.overlay[address].info)
            }
        } else {
            lookup(self.accounts, address)
        }
    }

    /// The code that the overlay's accounts hold, by its hash.
    pub open spec fn overlay_codes(self) -> Map<B256, Seq<u8>> {
        code_index_of(existing_infos(self.overlay))
    }

    /// Code by its hash, overlay first.
    pub open spec fn code(self, hash: B256) -> Option<Seq<u8>> {
        match lookup(self.overlay_codes(), hash) {
            Some(code) => Some(code),
            None => lookup(code_index_of(self.accounts), hash),
        }
    }
}

/// An immutable snapshot of the cache.
pub struct EvmSnapshot {
    /// The image of layer 2.
    pub base: Arc<BaseState>,
    /// Accounts of layer 1 that exist.
    pub overlay_accounts: SortedMap<Address, AccountInfo>,
    /// Storage of layer 1.
    pub overlay_storage: SortedMap<Address, SlotMap>,
    /// Code of layer 1 by its hash.
    pub overlay_code_by_hash: SortedMap<B256, Bytecode>,
    /// Accounts whose other slots are zero.
    pub storage_cleared: SortedSet<Address>,
    /// Accounts that do not exist.
    pub accounts_not_existing: SortedSet<Address>,
    /// Known block hashes.
    pub block_hashes: SortedMap<u64, B256>,
    /// The block that simulations run in.
    pub context: BlockContext,
    /// Bytes of working memory to allocate ahead.
    pub shared_memory_capacity: usize,
}

impl EvmSnapshot {
    /// An account as the snapshot holds it.
    pub open spec fn spec_account_info(self, address: Address) -> Option<InfoModel> {
        if self.accounts_not_existing@.contains(address) {
            None
        } else if self.overlay_accounts@.contains_key(address) {
            Some(self.overlay_accounts@[address]@)
        } else {
            lookup(self.base@.accounts, address)
        }
    }

    /// The value of a slot as the snapshot holds it.
    pub open spec fn spec_storage_value(self, address: Address, slot: U256) -> Option<U256> {
        if self.overlay_storage@.contains_key(address)
            && self.overlay_storage@[address]@.contains_key(slot) {
            Some(self.overlay_storage@[address]@[slot])
        } else if self.overlay_storage@.contains_key(address) && self.storage_cleared@.contains(
            address,
        ) {
            Some(U256::spec_zero())
        } else {
            lookup(slots_at(self.base@.storage, address), slot)
        }
    }

    /// Code by its hash as the snapshot holds it.
    pub open spec fn spec_code(self, hash: B256) -> Option<Seq<u8>> {
        if self.overlay_code_by_hash@.contains_key(hash) {
            Some(self.overlay_code_by_hash@[hash]@)
        } else {
            lookup(self.base@.code_by_hash, hash)
        }
    }

    /// Whether every read of the snapshot gives what the live cache gives.
    pub open spec fn mirrors(self, layers: LayersModel) -> bool {
        &&& forall|a: Address| #[trigger] self.spec_account_info(a) == layers.evm_info(a)
        &&& forall|a: Address, s: U256| #[trigger]
            self.spec_storage_value(a, s) == layers.slot(a, s)
        &&& forall|h: B256| #[trigger] self.spec_code(h) == layers.code(h)
    }

    /// An account as the snapshot holds it.
    pub fn account_info(&self, address: Address) -> (r: Option<&AccountInfo>)
        ensures
            (match r {
                Some(info) => Some(info@),
                None => None,
            }) == self.spec_account_info(address),
    {
        if self.accounts_not_existing.contains(&address) {
            return None;
        }
        match self.overlay_accounts.get(&address) {
            Some(info) => Some(info),
            None => self.base.accounts.get(&address),
        }
    }

    /// The value of a slot as the snapshot holds it.
    pub fn storage_value(&self, address: Address, slot: U256) -> (r: Option<U256>)
        ensures
            r == self.spec_storage_value(address, slot),
    {
        if let Some(slots) = self.overlay_storage.get(&address) {
            if let Some(value) = slots.get(&slot) {
                return Some(*value);
            }
            if self.storage_cleared.contains(&address) {
                return Some(U256::zero());
            }
        }
        match self.base.storage.get(&address) {
            Some(slots) => match slots.get(&slot) {
                Some(value) => Some(*value),
                None => None,
            },
            None => None,
        }
    }

    /// Code by its hash as the snapshot holds it.
    pub fn code(&self, hash: B256) -> (r: Option<&Bytecode>)
        ensures
            (match r {
                Some(code) => Some(code@),
                None => None,
            }) == self.spec_code(hash),
    {
        match self.overlay_code_by_hash.get(&hash) {
            Some(code) => Some(code),
            None => self.base.code_by_hash.get(&hash),
        }
    }

    /// The snapshot of the layers over an image of layer 2.
    pub fn over_base(
        base: Arc<BaseState>,
        layers: &Layers,
        context: BlockContext,
        shared_memory_capacity: usize,
    ) -> (r: Self)
        requires
            base@ == layers@.image(),
        ensures
            r.mirrors(layers@),
            r.base == base,
            r.block_hashes@ == Map::<u64, B256>::empty(),
            r.context == context,
            r.shared_memory_capacity == shared_memory_capacity,
    {
        let mut overlay_accounts: SortedMap<Address, AccountInfo> = SortedMap::new();
        let mut overlay_storage: SortedMap<Address, SlotMap> = SortedMap::new();
        let mut codes: SortedMap<B256, Bytecode> = SortedMap::new();
        let mut cleared: SortedSet<Address> = SortedSet::new();
        let mut not_existing: SortedSet<Address> = SortedSet::new();
        let n: usize = layers.overlay.len();
        let ghost order = layers.overlay.order();
        let ghost infos = existing_infos(layers@.overlay);
        let mut i: usize = 0;
        proof {
            assert(codes_model(codes@) =~= Map::empty());
            assert(order.take(0) =~= Seq::empty());
            assert(infos.dom() =~= layers.overlay@.dom());
        }
        while i < n
            invariant
                i <= n == order.len(),
                order == layers.overlay.order(),
                order.to_set() == layers.overlay@.dom(),
                infos == existing_infos(layers@.overlay),
                codes_model(codes@) == codes_of(infos, order.take(i as int)),
                forall|a: Address| #[trigger]
                    overlay_accounts@.contains_key(a) <==> order.take(i as int).to_set().contains(a)
                        && layers.overlay@[a].account_state != AccountState::NotExisting,
                forall|a: Address| #[trigger]
                    overlay_accounts@.contains_key(a) ==> overlay_accounts@[a]@
                        == layers.overlay@[a].info@,
                forall|a: Address| #[trigger]
                    not_existing@.contains(a) <==> order.take(i as int).to_set().contains(a)
                        && layers.overlay@[a].account_state == AccountState::NotExisting,
                forall|a: Address| #[trigger]
                    cleared@.contains(a) <==> order.take(i as int).to_set().contains(a)
                        && layers.overlay@[a].account_state.spec_clears_storage(),
                forall|a: Address| #[trigger]
                    overlay_storage@.contains_key(a) ==> order.take(i as int).to_set().contains(a)
                        && overlay_storage@[a]@ == layers.overlay@[a].storage@,
                forall|a: Address| #[trigger]
                    order.take(i as int).to_set().contains(a) && (
                    layers.overlay@[a].account_state.spec_clears_storage() || exists|s: U256|
                        layers.overlay@[a].storage@.contains_key(s))
                        ==> overlay_storage@.contains_key(a),
            decreases n - i,
        {
            let address: Address = layers.overlay.key_at(i);
            let account: &DbAccount = layers.overlay.value_at(i);
            let ghost codes_before = codes@;
            let ghost processed = order.take(i as int).to_set();
            proof {
                lemma_take_extend(order, i as int);
                assert(order.take(i as int + 1).drop_last() =~= order.take(i as int));
                assert(order.take(i as int + 1).last() == address);
            }
            match account.account_state {
                AccountState::NotExisting => {
                    not_existing.insert(address);
                },
                _ => {
                    if let Some(code) = &account.info.code {
                        codes.insert(account.info.code_hash, code.clone());
                        assert(codes_model(codes@) =~= codes_model(codes_before).insert(
                            account.info.code_hash,
                            code@,
                        ));
                    }
                    overlay_accounts.insert(address, account.info.clone());
                },
            }
            if account.account_state.clears_storage() {
                cleared.insert(address);
                overlay_storage.insert(address, copy_slots(&account.storage));
            } else if !account.storage.is_empty() {
                overlay_storage.insert(address, copy_slots(&account.storage));
            } else {
                assert(forall|s: U256| !account.storage@.contains_key(s));
            }
            proof {
                assert(order.take(i as int + 1).to_set() =~= processed.insert(address));
            }
            i = i + 1;
        }
        let r = EvmSnapshot {
            base,
            overlay_accounts,
            overlay_storage,
            overlay_code_by_hash: codes,
            storage_cleared: cleared,
            accounts_not_existing: not_existing,
            block_hashes: SortedMap::new(),
            context,
            shared_memory_capacity,
        };
        proof {
            assert(order.take(n as int) =~= order);
            assert(layers@.overlay.dom() =~= layers.overlay@.dom());
            assert(codes_model(codes@) == layers@.overlay_codes());
            assert forall|a: Address| #[trigger] r.spec_account_info(a) == layers@.evm_info(a) by {
                assert(layers@.overlay.contains_key(a) == order.to_set().contains(a));
            }
            assert forall|a: Address, s: U256| #[trigger]
                r.spec_storage_value(a, s) == layers@.slot(a, s) by {
                assert(layers@.overlay.contains_key(a) == order.to_set().contains(a));
                if layers@.overlay.contains_key(a) {
                    assert(layers@.overlay[a].storage == layers.overlay@[a].storage@);
                    if layers.overlay@[a].storage@.contains_key(s) {
                        assert(overlay_storage@.contains_key(a));
                    }
                }
            }
            assert forall|h: B256| #[trigger] r.spec_code(h) == layers@.code(h) by {
                assert(codes_model(codes@).contains_key(h) == codes@.contains_key(h));
            }
        }
        r
    }
}

/// Writes the slots of one map over those of another.
fn write_over(slots: &mut SlotMap, over: &SlotMap)
    ensures
        final(slots)@ == old(slots)@.union_prefer_right(over@),
{
    let n: usize = over.len();
    let ghost order = over.order();
    let mut i: usize = 0;
    assert(slots@ =~= old(slots)@.union_prefer_right(over@.restrict(order.take(0).to_set())));
    while i < n
        invariant
            i <= n == order.len(),
            order == over.order(),
            order.to_set() == over@.dom(),
            slots@ == old(slots)@.union_prefer_right(
                over@.restrict(order.take(i as int).to_set()),
            ),
        decreases n - i,
    {
        let key: U256 = over.key_at(i);
        slots.insert(key, *over.value_at(i));
        proof {
            lemma_take_extend(order, i as int);
            assert(order.to_set().contains(key));
            assert(slots@ =~= old(slots)@.union_prefer_right(
                over@.restrict(order.take(i as int + 1).to_set()),
            ));
        }
        i = i + 1;
    }
    assert(order.take(n as int) =~= order);
    assert(over@.restrict(order.to_set()) =~= over@);
}

/// Shares every slot map of a storage map.
fn share_all(storage: SortedMap<Address, SlotMap>) -> (r: SortedMap<Address, Arc<SlotMap>>)
    ensures
        shared_model(r@) == storage_model(storage@),
{
    let n: usize = storage.len();
    let ghost order = storage.order();
    let mut shared: SortedMap<Address, Arc<SlotMap>> = SortedMap::new();
    let mut i: usize = 0;
    while i < n
        invariant
            i <= n == order.len(),
            order == storage.order(),
            order.to_set() == storage@.dom(),
            shared@.dom() == order.take(i as int).to_set(),
            forall|a: Address| #[trigger]
                shared@.contains_key(a) ==> shared@[a]@ == storage@[a]@,
        decreases n - i,
    {
        let address: Address = storage.key_at(i);
        shared.insert(address, Arc::new(copy_slots(storage.value_at(i))));
        proof {
            lemma_take_extend(order, i as int);
            assert(order.to_set().contains(address));
        }
        i = i + 1;
    }
    assert(order.take(n as int) =~= order);
    assert(shared_model(shared@) =~= storage_model(storage@));
    shared
}

/// Where several codes may answer: the first that does.
pub open spec fn code_over(upper: Map<B256, Seq<u8>>, lower: Map<B256, Seq<u8>>, hash: B256) -> Option<
    Seq<u8>,
> {
    match lookup(upper, hash) {
        Some(code) => Some(code),
        None => lookup(lower, hash),
    }
}

/// The storage of one account where the overlay is written over the backend.
pub open spec fn merged_slots(layers: LayersModel, address: Address) -> Map<U256, U256> {
    slots_at(layers.storage, address).union_prefer_right(layers.overlay[address].storage)
}

impl EvmSnapshot {
    /// The snapshot of the layers with both flattened into one image of its own.
    pub fn flattened(layers: &Layers, context: BlockContext, shared_memory_capacity: usize) -> (r:
        Self)
        ensures
            r.mirrors(layers@),
            r.block_hashes@ == Map::<u64, B256>::empty(),
            r.context == context,
            r.shared_memory_capacity == shared_memory_capacity,
    {
        let mut accounts: SortedMap<Address, AccountInfo> = layers.copy_accounts();
        let mut codes: SortedMap<B256, Bytecode> = code_index(&layers.accounts);
        let mut storage: SortedMap<Address, SlotMap> = layers.copy_storage();
        let mut overlay_storage: SortedMap<Address, SlotMap> = SortedMap::new();
        let mut cleared: SortedSet<Address> = SortedSet::new();
        let mut not_existing: SortedSet<Address> = SortedSet::new();
        let n: usize = layers.overlay.len();
        let ghost order = layers.overlay.order();
        let ghost infos = existing_infos(layers@.overlay);
        let ghost lower = code_index_of(layers@.accounts);
        let mut i: usize = 0;
        proof {
            assert(order.take(0) =~= Seq::empty());
            assert(infos.dom() =~= layers.overlay@.dom());
        }
        while i < n
            invariant
                i <= n == order.len(),
                order == layers.overlay.order(),
                order.to_set() == layers.overlay@.dom(),
                order.no_duplicates(),
                layers@.overlay.dom() == layers.overlay@.dom(),
                infos == existing_infos(layers@.overlay),
                forall|h: B256| #[trigger]
                    lookup(codes_model(codes@), h) == code_over(
                        codes_of(infos, order.take(i as int)),
                        lower,
                        h,
                    ),
                forall|a: Address| #[trigger]
                    lookup(accounts_model(accounts@), a) == if order.take(i as int).to_set().contains(
                        a,
                    ) {
                        layers@.evm_info(a)
                    } else {
                        lookup(layers@.accounts, a)
                    },
                forall|a: Address| #[trigger]
                    lookup(storage_model(storage@), a) == if order.take(i as int).to_set().contains(
                        a,
                    ) {
                        if layers@.overlay[a].account_state.spec_clears_storage() {
                            None
                        } else {
                            Some(merged_slots(layers@, a))
                        }
                    } else {
                        lookup(layers@.storage, a)
                    },
                forall|a: Address| #[trigger]
                    not_existing@.contains(a) <==> order.take(i as int).to_set().contains(a)
                        && layers@.overlay[a].account_state == AccountState::NotExisting,
                forall|a: Address| #[trigger]
                    cleared@.contains(a) <==> order.take(i as int).to_set().contains(a)
                        && layers@.overlay[a].account_state.spec_clears_storage(),
                forall|a: Address| #[trigger]
                    overlay_storage@.contains_key(a) <==> order.take(i as int).to_set().contains(a)
                        && layers@.overlay[a].account_state.spec_clears_storage(),
                forall|a: Address| #[trigger]
                    overlay_storage@.contains_key(a) ==> overlay_storage@[a]@
                        == layers@.overlay[a].storage,
            decreases n - i,
        {
            let address: Address = layers.overlay.key_at(i);
            let account: &DbAccount = layers.overlay.value_at(i);
            let ghost codes_before = codes@;
            let ghost accounts_before = accounts@;
            let ghost storage_before = storage@;
            let ghost processed = order.take(i as int).to_set();
            proof {
                lemma_take_extend(order, i as int);
                assert(order.take(i as int + 1).drop_last() =~= order.take(i as int));
                assert(order.take(i as int + 1).last() == address);
                assert(order.to_set().contains(address));
                assert(!processed.contains(address)) by {
                    if processed.contains(address) {
                        let j = order.take(i as int).index_of(address);
                        assert(order[j] == order[i as int]);
                    }
                }
                assert(order.take(i as int + 1).to_set() =~= processed.insert(address));
                assert(layers@.overlay[address] == account@);
            }
            match account.account_state {
                AccountState::NotExisting => {
                    not_existing.insert(address);
                    accounts.remove(&address);
                    assert(infos[address].code is None);
                },
                _ => {
                    if let Some(code) = &account.info.code {
                        codes.insert(account.info.code_hash, code.clone());
                        assert(codes_model(codes@) =~= codes_model(codes_before).insert(
                            account.info.code_hash,
                            code@,
                        ));
                    }
                    accounts.insert(address, account.info.clone());
                },
            }
            proof {
                assert forall|h: B256| #[trigger]
                    lookup(codes_model(codes@), h) == code_over(
                        codes_of(infos, order.take(i as int + 1)),
                        lower,
                        h,
                    ) by {
                    assert(lookup(codes_model(codes_before), h) == code_over(
                        codes_of(infos, order.take(i as int)),
                        lower,
                        h,
                    ));
                }
                assert forall|a: Address| a != address implies #[trigger] lookup(
                    accounts_model(accounts@),
                    a,
                ) == lookup(accounts_model(accounts_before), a) by {}
            }
            if account.account_state.clears_storage() {
                cleared.insert(address);
                storage.remove(&address);
                overlay_storage.insert(address, copy_slots(&account.storage));
            } else {
                let mut slots: SlotMap = match storage.remove(&address) {
                    Some(slots) => slots,
                    None => SortedMap::new(),
                };
                assert(lookup(storage_model(storage_before), address) == lookup(
                    layers@.storage,
                    address,
                ));
                assert(slots@ =~= slots_at(layers@.storage, address));
                write_over(&mut slots, &account.storage);
                storage.insert(address, slots);
            }
            proof {
                assert forall|a: Address| a != address implies #[trigger] lookup(
                    storage_model(storage@),
                    a,
                ) == lookup(storage_model(storage_before), a) by {}
            }
            i = i + 1;
        }
        let ghost flat_storage = storage@;
        let base = BaseState { accounts, storage: share_all(storage), code_by_hash: codes };
        let r = EvmSnapshot {
            base: Arc::new(base),
            overlay_accounts: SortedMap::new(),
            overlay_storage,
            overlay_code_by_hash: SortedMap::new(),
            storage_cleared: cleared,
            accounts_not_existing: not_existing,
            block_hashes: SortedMap::new(),
            context,
            shared_memory_capacity,
        };
        proof {
            assert(order.take(n as int) =~= order);
            assert forall|a: Address| #[trigger] r.spec_account_info(a) == layers@.evm_info(a) by {
                assert(lookup(r.base@.accounts, a) == if order.to_set().contains(a) {
                    layers@.evm_info(a)
                } else {
                    lookup(layers@.accounts, a)
                });
            }
            assert forall|a: Address, s: U256| #[trigger]
                r.spec_storage_value(a, s) == layers@.slot(a, s) by {
                assert(r.base@.storage == storage_model(flat_storage));
                assert(lookup(storage_model(flat_storage), a) == if order.to_set().contains(a) {
                    if layers@.overlay[a].account_state.spec_clears_storage() {
                        None
                    } else {
                        Some(merged_slots(layers@, a))
                    }
                } else {
                    lookup(layers@.storage, a)
                });
            }
            assert forall|h: B256| #[trigger] r.spec_code(h) == layers@.code(h) by {
                assert(lookup(codes_model(codes@), h) == code_over(
                    layers@.overlay_codes(),
                    lower,
                    h,
                ));
            }
        }
        r
    }
}

/// A snapshot over the shared image and one with an image of its own read the
/// same everywhere.
pub proof fn law_snapshots_agree(shared: EvmSnapshot, own: EvmSnapshot, layers: LayersModel)
    requires
        shared.mirrors(layers),
        own.mirrors(layers),
    ensures
        forall|a: Address| #[trigger] shared.spec_account_info(a) == own.spec_account_info(a),
        forall|a: Address, s: U256| #[trigger]
            shared.spec_storage_value(a, s) == own.spec_storage_value(a, s),
        forall|h: B256| #[trigger] shared.spec_code(h) == own.spec_code(h),
{
    assert forall|a: Address| #[trigger] shared.spec_account_info(a) == own.spec_account_info(
        a,
    ) by {
        assert(own.spec_account_info(a) == layers.evm_info(a));
    }
    assert forall|a: Address, s: U256| #[trigger]
        shared.spec_storage_value(a, s) == own.spec_storage_value(a, s) by {
        assert(own.spec_storage_value(a, s) == layers.slot(a, s));
    }
    assert forall|h: B256| #[trigger] shared.spec_code(h) == own.spec_code(h) by {
        assert(own.spec_code(h) == layers.code(h));
    }
}

} // verus!
