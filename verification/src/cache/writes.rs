//! Writing to the cache.

use crate::cache::account::{AccountInfo, InfoModel};
use crate::cache::base::{law_growth_needs_no_mark, lemma_marked_write_is_honest};
use crate::cache::evm_cache::{
    batch_steps, injected, later_generation, marks_after, marks_after_all, next_generation,
    EvmCache,
};
use crate::cache::layers::{slots_at, LayersModel};
use crate::cache::state_update::{
    lemma_merging, lemma_update_is_local, updates_model, AccountChange, DiffModel, PurgeScope,
    SlotChange, StateDiff, StateUpdate, UpdateModel,
};
use crate::primitives::{Address, U256};
use vstd::prelude::*;

verus! {

impl StateUpdate {
    /// The account it is about.
    pub fn address(&self) -> (r: Address)
        ensures
            r == self@.subject(),
    {
        match self {
            StateUpdate::Slot { address, .. } => *address,
            StateUpdate::SlotDelta { address, .. } => *address,
            StateUpdate::SlotMasked { address, .. } => *address,
            StateUpdate::BalanceDelta { address, .. } => *address,
            StateUpdate::Account { address, .. } => *address,
            StateUpdate::AccountUpsert { address, .. } => *address,
            StateUpdate::Purge { address, .. } => *address,
        }
    }

    /// Whether it belongs to a run of slot writes.
    pub fn is_slot_write(&self) -> (r: bool)
        ensures
            r == self@.in_slot_run(),
    {
        match self {
            StateUpdate::Slot { .. } | StateUpdate::SlotDelta { .. } => true,
            _ => false,
        }
    }
}

impl EvmCache {
    /// Applies one update without moving the generation on.
    fn write_update(&mut self, update: &StateUpdate, diff: &mut StateDiff)
        requires
            old(self).wf(),
        ensures
            final(self).wf(),
            final(self).layers@ == old(self).layers@.updated(update@),
            final(diff)@ == old(diff)@.merged(old(self).layers@.update_diff(update@)),
            final(self).code_seeds@ == marks_after(old(self).code_seeds@, update@),
            *final(self) == (EvmCache {
                layers: final(self).layers,
                memo: final(self).memo,
                code_seeds: final(self).code_seeds,
                ..*old(self)
            }),
    {
        let written: bool = self.layers.apply_update(update, diff);
        if let StateUpdate::Purge { address, scope: PurgeScope::Account } = update {
            self.code_seeds.remove(address);
        }
        if written {
            self.memo.mark_dirty(update.address());
        }
        proof {
            lemma_update_is_local(old(self).layers@, update@);
            lemma_marked_write_is_honest(
                old(self).memo,
                old(self).layers@,
                self.memo,
                self.layers@,
            );
        }
    }

    /// Applies one update. The result is what it changed and what it skipped.
    pub fn apply_update(&mut self, update: &StateUpdate) -> (diff: StateDiff)
        requires
            old(self).wf(),
        ensures
            final(self).wf(),
            final(self).layers@ == old(self).layers@.updated(update@),
            diff@ == old(self).layers@.update_diff(update@),
            final(self).code_seeds@ == marks_after(old(self).code_seeds@, update@),
            final(self).snapshot_generation == next_generation(old(self).snapshot_generation),
            *final(self) == (EvmCache {
                layers: final(self).layers,
                memo: final(self).memo,
                code_seeds: final(self).code_seeds,
                snapshot_generation: final(self).snapshot_generation,
                ..*old(self)
            }),
    {
        self.bump_snapshot_generation();
        let mut diff = StateDiff::default();
        self.write_update(update, &mut diff);
        proof {
            lemma_merging(
                old(self).layers@.update_diff(update@),
                DiffModel::none(),
                DiffModel::none(),
            );
        }
        diff
    }

    /// Applies several updates in order, each seeing what those before it did.
    /// The result is what they changed and what they skipped.
    pub fn apply_updates(&mut self, updates: &[StateUpdate]) -> (diff: StateDiff)
        requires
            old(self).wf(),
        ensures
            final(self).wf(),
            final(self).layers@ == old(self).layers@.updated_all(updates_model(updates@)),
            diff@ == old(self).layers@.update_diff_all(updates_model(updates@)),
            final(self).code_seeds@ == marks_after_all(
                old(self).code_seeds@,
                updates_model(updates@),
            ),
            final(self).snapshot_generation == later_generation(
                old(self).snapshot_generation,
                batch_steps(updates_model(updates@)),
            ),
            *final(self) == (EvmCache {
                layers: final(self).layers,
                memo: final(self).memo,
                code_seeds: final(self).code_seeds,
                snapshot_generation: final(self).snapshot_generation,
                ..*old(self)
            }),
    {
        let ghost model = updates_model(updates@);
        let mut diff = StateDiff::default();
        let n: usize = updates.len();
        if n > 0 {
            self.bump_snapshot_generation();
        }
        let mut i: usize = 0;
        proof {
            assert(model.take(0) =~= Seq::empty());
            assert(later_generation(old(self).snapshot_generation, 0)
                == old(self).snapshot_generation);
            assert(later_generation(old(self).snapshot_generation, 1) == next_generation(
                later_generation(old(self).snapshot_generation, 0),
            ));
        }
        while i < n
            invariant
                i <= n == updates@.len(),
                model == updates_model(updates@),
                self.wf(),
                self.layers@ == old(self).layers@.updated_all(model.take(i as int)),
                diff@ == old(self).layers@.update_diff_all(model.take(i as int)),
                self.code_seeds@ == marks_after_all(old(self).code_seeds@, model.take(i as int)),
                self.snapshot_generation == later_generation(
                    old(self).snapshot_generation,
                    if i == 0 && n > 0 {
                        1
                    } else {
                        batch_steps(model.take(i as int))
                    },
                ),
                *self == (EvmCache {
                    layers: self.layers,
                    memo: self.memo,
                    code_seeds: self.code_seeds,
                    snapshot_generation: self.snapshot_generation,
                    ..*old(self)
                }),
            decreases n - i,
        {
            let update: &StateUpdate = &updates[i];
            let ghost taken = model.take(i as int + 1);
            proof {
                assert(taken.drop_last() =~= model.take(i as int));
                assert(taken.last() == update@);
                if i == 0 {
                    assert(taken.len() == 1);
                }
            }
            if !update.is_slot_write() {
                self.bump_snapshot_generation();
            }
            self.write_update(update, &mut diff);
            proof {
                let steps: nat = if i == 0 {
                    1
                } else {
                    batch_steps(model.take(i as int))
                };
                if update@.in_slot_run() {
                    assert(batch_steps(taken) == steps);
                } else {
                    assert(batch_steps(taken) == steps + 1);
                    assert(later_generation(old(self).snapshot_generation, steps + 1)
                        == next_generation(
                        later_generation(old(self).snapshot_generation, steps),
                    ));
                }
            }
            i = i + 1;
        }
        assert(model.take(n as int) =~= model);
        diff
    }

    /// Writes fetched slots to the backend, in order. The generation stays: this
    /// is state of the pinned block that was not known yet.
    pub fn inject_storage_batch(&mut self, results: &[(Address, U256, U256)])
        requires
            old(self).wf(),
        ensures
            final(self).wf(),
            final(self).layers@ == injected(old(self).layers@, results@),
            *final(self) == (EvmCache {
                layers: final(self).layers,
                memo: final(self).memo,
                ..*old(self)
            }),
    {
        let n: usize = results.len();
        let mut i: usize = 0;
        assert(results@.take(0) =~= Seq::empty());
        while i < n
            invariant
                i <= n == results@.len(),
                self.wf(),
                self.layers@ == injected(old(self).layers@, results@.take(i as int)),
                *self == (EvmCache { layers: self.layers, memo: self.memo, ..*old(self) }),
            decreases n - i,
        {
            let ghost before = *self;
            let (address, slot, value) = results[i];
            self.layers.insert_backend_slot(address, slot, value);
            self.memo.mark_dirty(address);
            proof {
                assert(results@.take(i as int + 1).drop_last() =~= results@.take(i as int));
                lemma_marked_write_is_honest(
                    before.memo,
                    before.layers@,
                    self.memo,
                    self.layers@,
                );
            }
            i = i + 1;
        }
        assert(results@.take(n as int) =~= results@);
    }

    /// Writes fetched slots through both layers, in order.
    pub fn inject_storage_batch_fresh(&mut self, results: &[(Address, U256, U256)])
        requires
            old(self).wf(),
        ensures
            final(self).wf(),
            final(self).layers@ == old(self).layers@.updated_all(slot_updates(results@)),
            final(self).snapshot_generation == if results@.len() == 0 {
                old(self).snapshot_generation
            } else {
                next_generation(old(self).snapshot_generation)
            },
            *final(self) == (EvmCache {
                layers: final(self).layers,
                memo: final(self).memo,
                code_seeds: final(self).code_seeds,
                snapshot_generation: final(self).snapshot_generation,
                ..*old(self)
            }),
            final(self).code_seeds@ == old(self).code_seeds@,
    {
        let mut updates: Vec<StateUpdate> = Vec::new();
        let n: usize = results.len();
        let mut i: usize = 0;
        while i < n
            invariant
                i <= n == results@.len(),
                updates_model(updates@) =~= slot_updates(results@).take(i as int),
            decreases n - i,
        {
            let (address, slot, value) = results[i];
            let ghost before = updates@;
            let update = StateUpdate::Slot { address, slot, value };
            updates.push(update);
            assert(updates_model(updates@) =~= updates_model(before).push(update@));
            i = i + 1;
        }
        proof {
            assert(updates_model(updates@) =~= slot_updates(results@));
            lemma_slot_updates(results@, old(self).code_seeds@, old(self).snapshot_generation);
        }
        self.apply_updates(updates.as_slice());
    }
}

/// The updates that write slots.
pub open spec fn slot_updates(results: Seq<(Address, U256, U256)>) -> Seq<UpdateModel> {
    results.map_values(
        |result: (Address, U256, U256)|
            UpdateModel::Slot { address: result.0, slot: result.1, value: result.2 },
    )
}

/// Slot writes leave marks alone and move the generation on once.
proof fn lemma_slot_updates(
    results: Seq<(Address, U256, U256)>,
    marks: Map<Address, crate::cache::code_seeds::CodeSeedState>,
    generation: u64,
)
    ensures
        marks_after_all(marks, slot_updates(results)) == marks,
        batch_steps(slot_updates(results)) == if results.len() == 0 {
            0nat
        } else {
            1nat
        },
        later_generation(generation, 0) == generation,
        later_generation(generation, 1) == next_generation(generation),
    decreases results.len(),
{
    assert(later_generation(generation, 1) == next_generation(later_generation(generation, 0)));
    if results.len() > 0 {
        let updates = slot_updates(results);
        assert(updates.drop_last() =~= slot_updates(results.drop_last()));
        lemma_slot_updates(results.drop_last(), marks, generation);
    }
}

/// The balance of an account, if it is cached.
pub open spec fn cached_balance(layers: LayersModel, address: Address) -> Option<U256> {
    match layers.info(address) {
        Some(info) => Some(info.balance),
        None => None,
    }
}

/// The account whose balance is written: the one cached, or a fresh one.
pub open spec fn balance_base(layers: LayersModel, address: Address) -> InfoModel {
    match layers.info(address) {
        Some(info) => info,
        None => InfoModel::fresh(),
    }
}

impl EvmCache {
    /// The value of a slot, as a simulation reads it without fetching.
    pub fn cached_storage_value(&self, address: Address, slot: U256) -> (r: Option<U256>)
        ensures
            r == self.layers@.slot(address, slot),
    {
        self.layers.cached_storage_value(address, slot)
    }

    /// Gives a slot the value decided on, if one was. The result is the change,
    /// where there is one.
    pub fn write_decided_slot(&mut self, address: Address, slot: U256, decided: Option<U256>) -> (r:
        Option<SlotChange>)
        requires
            old(self).wf(),
        ensures
            final(self).wf(),
            slot_decision(*old(self), *final(self), address, slot, decided, r),
            *final(self) == (EvmCache {
                layers: final(self).layers,
                memo: final(self).memo,
                snapshot_generation: final(self).snapshot_generation,
                ..*old(self)
            }),
    {
        let new: U256 = match decided {
            Some(new) => new,
            None => {
                return None;
            },
        };
        let old_value: U256 = match self.layers.cached_storage_value(address, slot) {
            Some(value) => value,
            None => U256::zero(),
        };
        self.bump_snapshot_generation();
        self.layers.write_slot_through(address, slot, new);
        self.memo.mark_dirty(address);
        proof {
            lemma_marked_write_is_honest(
                old(self).memo,
                old(self).layers@,
                self.memo,
                self.layers@,
            );
        }
        if old_value != new {
            Some(SlotChange { address, slot, old: old_value, new })
        } else {
            None
        }
    }

    /// Reads a slot, has `f` decide on a new value, and writes it. Where `f`
    /// decides on none, nothing is written; where it decides on a value, the
    /// generation advances, whether or not the value is another one.
    pub fn modify_slot<F>(&mut self, address: Address, slot: U256, f: F) -> (r: Option<
        SlotChange,
    >) where F: FnOnce(Option<U256>) -> Option<U256>
        requires
            old(self).wf(),
            call_requires(f, (old(self).layers@.slot(address, slot),)),
        ensures
            final(self).wf(),
            old(self).is_modified_slot(*final(self), address, slot, f, r),
            *final(self) == (EvmCache {
                layers: final(self).layers,
                memo: final(self).memo,
                snapshot_generation: final(self).snapshot_generation,
                ..*old(self)
            }),
    {
        let current: Option<U256> = self.layers.cached_storage_value(address, slot);
        let decided: Option<U256> = f(current);
        let r = self.write_decided_slot(address, slot, decided);
        assert(slot_decision(*old(self), *self, address, slot, decided, r));
        r
    }

    /// Whether a slot was modified as `f` decided.
    pub open spec fn is_modified_slot<F>(
        self,
        after: Self,
        address: Address,
        slot: U256,
        f: F,
        r: Option<SlotChange>,
    ) -> bool where F: FnOnce(Option<U256>) -> Option<U256> {
        exists|decided: Option<U256>|
            call_ensures(f, (self.layers@.slot(address, slot),), decided)
                && #[trigger] slot_decision(self, after, address, slot, decided, r)
    }

    /// Gives an account the balance decided on, if one was. An account that is
    /// not cached is created. The result is the change, where there is one.
    pub fn write_decided_balance(&mut self, address: Address, decided: Option<U256>) -> (r: Option<
        AccountChange,
    >)
        requires
            old(self).wf(),
        ensures
            final(self).wf(),
            balance_decision(*old(self), *final(self), address, decided, r),
            *final(self) == (EvmCache {
                layers: final(self).layers,
                memo: final(self).memo,
                ..*old(self)
            }),
    {
        let new: U256 = match decided {
            Some(new) => new,
            None => {
                return None;
            },
        };
        let base: AccountInfo = match self.layers.loaded_account_info(address) {
            Some(info) => info,
            None => AccountInfo::default(),
        };
        let current: U256 = base.balance;
        let mut info = base.clone();
        info.balance = new;
        self.layers.write_account_info_through(address, info);
        self.memo.mark_dirty(address);
        proof {
            lemma_marked_write_is_honest(
                old(self).memo,
                old(self).layers@,
                self.memo,
                self.layers@,
            );
        }
        if current != new {
            Some(
                AccountChange {
                    address,
                    balance: Some((current, new)),
                    nonce: None,
                    code_hash: None,
                },
            )
        } else {
            None
        }
    }

    /// Reads the balance of an account, has `f` decide on a new one, and writes
    /// it. Where `f` decides on none, nothing is written.
    pub fn modify_account_balance<F>(&mut self, address: Address, f: F) -> (r: Option<
        AccountChange,
    >) where F: FnOnce(Option<U256>) -> Option<U256>
        requires
            old(self).wf(),
            call_requires(f, (cached_balance(old(self).layers@, address),)),
        ensures
            final(self).wf(),
            exists|decided: Option<U256>|
                call_ensures(f, (cached_balance(old(self).layers@, address),), decided)
                    && #[trigger] balance_decision(*old(self), *final(self), address, decided, r),
            *final(self) == (EvmCache {
                layers: final(self).layers,
                memo: final(self).memo,
                ..*old(self)
            }),
    {
        let current: Option<U256> = match self.layers.loaded_account_info(address) {
            Some(info) => Some(info.balance),
            None => None,
        };
        let decided: Option<U256> = f(current);
        self.write_decided_balance(address, decided)
    }
}

/// Whether a slot got the value decided on, in the next generation, and the
/// change was reported; where none was decided on, nothing changed.
pub open spec fn slot_decision(
    before: EvmCache,
    after: EvmCache,
    address: Address,
    slot: U256,
    decided: Option<U256>,
    r: Option<SlotChange>,
) -> bool {
    match decided {
        Some(new) => {
            let old_value = before.layers@.slot_or_zero(address, slot);
            &&& after.layers@ == before.layers@.with_slot(address, slot, new)
            &&& after.snapshot_generation == next_generation(before.snapshot_generation)
            &&& r == if old_value != new {
                Some(SlotChange { address, slot, old: old_value, new })
            } else {
                None
            }
        },
        None => r is None && after == before,
    }
}

/// Whether an account got the balance decided on, and the change was reported;
/// where none was decided on, nothing changed.
pub open spec fn balance_decision(
    before: EvmCache,
    after: EvmCache,
    address: Address,
    decided: Option<U256>,
    r: Option<AccountChange>,
) -> bool {
    match decided {
        Some(new) => {
            let base = balance_base(before.layers@, address);
            &&& after.layers@ == before.layers@.with_info(address, InfoModel { balance: new, ..base })
            &&& r == if base.balance != new {
                Some(
                    AccountChange {
                        address,
                        balance: Some((base.balance, new)),
                        nonce: None,
                        code_hash: None,
                    },
                )
            } else {
                None
            }
        },
        None => r is None && after == before,
    }
}

impl EvmCache {
    /// Takes an account with its storage and its mark out of the cache.
    pub fn purge_account(&mut self, address: Address)
        requires
            old(self).wf(),
        ensures
            final(self).wf(),
            final(self).layers@ == old(self).layers@.without_account(address),
            final(self).code_seeds@ == old(self).code_seeds@.remove(address),
            *final(self) == (EvmCache {
                layers: final(self).layers,
                memo: final(self).memo,
                code_seeds: final(self).code_seeds,
                snapshot_generation: next_generation(old(self).snapshot_generation),
                ..*old(self)
            }),
    {
        let update = StateUpdate::Purge { address, scope: PurgeScope::Account };
        self.apply_update(&update);
    }

    /// Takes the storage of an account out of the cache. The result is the
    /// number of slots that the backend held.
    pub fn purge_contract_storage(&mut self, address: Address) -> (r: usize)
        requires
            old(self).wf(),
        ensures
            final(self).wf(),
            final(self).layers@ == old(self).layers@.without_storage(address),
            r == slots_at(old(self).layers@.storage, address).len(),
            final(self).code_seeds@ == old(self).code_seeds@,
            *final(self) == (EvmCache {
                layers: final(self).layers,
                memo: final(self).memo,
                code_seeds: final(self).code_seeds,
                snapshot_generation: next_generation(old(self).snapshot_generation),
                ..*old(self)
            }),
    {
        self.bump_snapshot_generation();
        let removed: usize = self.layers.purge_storage(address);
        self.memo.mark_dirty(address);
        proof {
            lemma_marked_write_is_honest(
                old(self).memo,
                old(self).layers@,
                self.memo,
                self.layers@,
            );
        }
        removed
    }

    /// Takes some slots of an account out of the cache. The result is the number
    /// of slots that the backend lost.
    pub fn purge_contract_slots(&mut self, address: Address, slots: &[U256]) -> (r: usize)
        requires
            old(self).wf(),
        ensures
            final(self).wf(),
            final(self).layers@ == old(self).layers@.without_slots(address, slots@.to_set()),
            r == slots_at(old(self).layers@.storage, address).len() - slots_at(
                final(self).layers@.storage,
                address,
            ).len(),
            *final(self) == (EvmCache {
                layers: final(self).layers,
                memo: final(self).memo,
                snapshot_generation: next_generation(old(self).snapshot_generation),
                ..*old(self)
            }),
    {
        self.bump_snapshot_generation();
        let removed: usize = self.layers.purge_slots(address, slots);
        self.memo.mark_dirty(address);
        proof {
            lemma_marked_write_is_honest(
                old(self).memo,
                old(self).layers@,
                self.memo,
                self.layers@,
            );
        }
        removed
    }

    /// Takes the storage of several accounts out of the cache. The result is the
    /// number of slots that the backend held, or the largest number.
    pub fn purge_contracts_storage(&mut self, addresses: &[Address]) -> (r: usize)
        requires
            old(self).wf(),
        ensures
            final(self).wf(),
            final(self).layers@ == without_storages(old(self).layers@, addresses@),
            r == capped(purged_total(old(self).layers@, addresses@)),
            final(self).memo.full_rebuild,
            *final(self) == (EvmCache {
                layers: final(self).layers,
                memo: final(self).memo,
                ..*old(self)
            }),
    {
        let n: usize = addresses.len();
        let mut total: usize = 0;
        let mut i: usize = 0;
        assert(addresses@.take(0) =~= Seq::empty());
        while i < n
            invariant
                i <= n == addresses@.len(),
                self.layers@ == without_storages(old(self).layers@, addresses@.take(i as int)),
                total == capped(purged_total(old(self).layers@, addresses@.take(i as int))),
                *self == (EvmCache { layers: self.layers, ..*old(self) }),
            decreases n - i,
        {
            assert(addresses@.take(i as int + 1).drop_last() =~= addresses@.take(i as int));
            let removed: usize = self.layers.purge_storage(addresses[i]);
            total = match total.checked_add(removed) {
                Some(sum) => sum,
                None => usize::MAX,
            };
            i = i + 1;
        }
        assert(addresses@.take(n as int) =~= addresses@);
        self.memo.invalidate();
        total
    }

    /// Takes all storage out of the cache. The result is the number of slots
    /// that the backend held, or the largest number.
    pub fn purge_all_storage(&mut self) -> (r: usize)
        requires
            old(self).wf(),
        ensures
            final(self).wf(),
            final(self).layers@ == old(self).layers@.without_any_storage(),
            r == capped(old(self).layers.spec_backend_slot_total()),
            final(self).memo.full_rebuild,
            *final(self) == (EvmCache {
                layers: final(self).layers,
                memo: final(self).memo,
                ..*old(self)
            }),
    {
        let total: usize = match self.layers.backend_slot_total() {
            Some(total) => total,
            None => usize::MAX,
        };
        self.layers.purge_all_storage();
        self.memo.invalidate();
        total
    }

    /// Writes a slot to the overlay alone. `fetched` is the account as fetched,
    /// for an account that the overlay does not hold.
    pub fn insert_storage_slot(
        &mut self,
        address: Address,
        slot: U256,
        value: U256,
        fetched: Option<AccountInfo>,
    )
        requires
            old(self).wf(),
        ensures
            final(self).wf(),
            final(self).layers@ == old(self).layers@.with_overlay_slot(
                address,
                slot,
                value,
                match fetched {
                    Some(info) => Some(info@),
                    None => None,
                },
            ),
            *final(self) == (EvmCache { layers: final(self).layers, ..*old(self) }),
    {
        self.layers.insert_overlay_slot(address, slot, value, fetched);
    }

    /// Puts an account that was fetched into the overlay, unless it is there.
    pub fn ensure_account(&mut self, address: Address, fetched: Option<AccountInfo>)
        requires
            old(self).wf(),
        ensures
            final(self).wf(),
            final(self).layers@ == if old(self).layers@.overlay.contains_key(address)
                || fetched is None {
                old(self).layers@
            } else {
                old(self).layers@.with_overlay_info(address, fetched->0@)
            },
            *final(self) == (EvmCache { layers: final(self).layers, ..*old(self) }),
    {
        if self.layers.overlay.contains_key(&address) {
            return;
        }
        if let Some(info) = fetched {
            self.layers.insert_overlay_info(address, info);
        }
    }

    /// Takes in an account that a simulation fetched; one that the backend holds
    /// stays as it is.
    pub fn absorb_fetched_account(&mut self, address: Address, info: AccountInfo)
        requires
            old(self).wf(),
        ensures
            final(self).wf(),
            final(self).layers@ == if old(self).layers@.accounts.contains_key(address) {
                old(self).layers@
            } else {
                old(self).layers@.with_backend_info(address, info@)
            },
            *final(self) == (EvmCache { layers: final(self).layers, ..*old(self) }),
    {
        if self.layers.accounts.contains_key(&address) {
            return;
        }
        self.layers.insert_backend_info(address, info);
        proof {
            law_growth_needs_no_mark(old(self).memo, old(self).layers@, self.layers@);
        }
    }

    /// Takes in a slot that a simulation fetched; one that the backend holds
    /// stays as it is.
    pub fn absorb_fetched_slot(&mut self, address: Address, slot: U256, value: U256)
        requires
            old(self).wf(),
        ensures
            final(self).wf(),
            final(self).layers@ == if slots_at(
                old(self).layers@.storage,
                address,
            ).contains_key(slot) {
                old(self).layers@
            } else {
                old(self).layers@.with_backend_slot(address, slot, value)
            },
            *final(self) == (EvmCache { layers: final(self).layers, ..*old(self) }),
    {
        if self.layers.backend_slot(address, slot).is_some() {
            return;
        }
        self.layers.insert_backend_slot(address, slot, value);
        proof {
            law_growth_needs_no_mark(old(self).memo, old(self).layers@, self.layers@);
        }
    }
}

/// The storage of several accounts taken out, in order.
pub open spec fn without_storages(layers: LayersModel, addresses: Seq<Address>) -> LayersModel
    decreases addresses.len(),
{
    if addresses.len() == 0 {
        layers
    } else {
        without_storages(layers, addresses.drop_last()).without_storage(addresses.last())
    }
}

/// How many slots the backend loses with the storage of several accounts.
pub open spec fn purged_total(layers: LayersModel, addresses: Seq<Address>) -> nat
    decreases addresses.len(),
{
    if addresses.len() == 0 {
        0
    } else {
        let before = without_storages(layers, addresses.drop_last());
        purged_total(layers, addresses.drop_last()) + slots_at(
            before.storage,
            addresses.last(),
        ).len()
    }
}

/// A count, or the largest number where that is smaller.
pub open spec fn capped(count: nat) -> nat {
    if count > usize::MAX {
        usize::MAX as nat
    } else {
        count
    }
}

/// Every targeted write and every new block changes the generation.
pub proof fn law_generation_changes(generation: u64, steps: nat)
    requires
        0 < steps <= u64::MAX,
    ensures
        next_generation(generation) != generation,
        later_generation(generation, steps) != generation,
{
    lemma_later_generation(generation, steps);
}

/// So many steps on, counting round after the largest number.
proof fn lemma_later_generation(generation: u64, steps: nat)
    requires
        steps <= u64::MAX,
    ensures
        later_generation(generation, steps) == if generation + steps > u64::MAX {
            generation + steps - u64::MAX - 1
        } else {
            generation + steps
        },
    decreases steps,
{
    if steps > 0 {
        lemma_later_generation(generation, (steps - 1) as nat);
    }
}

} // verus!
