//! The cache as the state that a machine reads from and writes back to.

use crate::cache::account::{
    AccountInfo, AccountModel, AccountState, Bytecode, DbAccount, InfoModel, SlotMap,
};
use crate::cache::base::{code_index_of, codes_of, law_growth_needs_no_mark};
use crate::cache::erc20::fetched_model;
use crate::cache::evm_cache::EvmCache;
use crate::cache::journal::JournalSlot;
use crate::cache::layers::{
    accounts_model, lemma_overlay_insert, lookup, overlay_info, overlay_model, slots_at, LayersModel,
};
use crate::cache::snapshot::existing_infos;
use crate::collections::SortedMap;
use crate::foreign::keccak_empty;
use crate::primitives::{Address, B256, U256};
use vstd::prelude::*;

verus! {

/// An account as an execution left it.
#[derive(Debug, PartialEq, Eq)]
pub struct ChangedAccount {
    /// The account.
    pub address: Address,
    /// Whether the execution touched it.
    pub touched: bool,
    /// Whether it destroyed itself.
    pub selfdestructed: bool,
    /// Whether the execution created it.
    pub created: bool,
    /// Balance, nonce and code.
    pub info: AccountInfo,
    /// The slots that were read or written, with their values.
    pub storage: Vec<JournalSlot>,
}

/// What a [`ChangedAccount`] holds.
pub struct ChangeModel {
    /// The account.
    pub address: Address,
    /// Whether the execution touched it.
    pub touched: bool,
    /// Whether it destroyed itself.
    pub selfdestructed: bool,
    /// Whether the execution created it.
    pub created: bool,
    /// Balance, nonce and code.
    pub info: InfoModel,
    /// The slots that were read or written, with their values.
    pub storage: Seq<JournalSlot>,
}

impl View for ChangedAccount {
    type V = ChangeModel;

    open spec fn view(&self) -> ChangeModel {
        ChangeModel {
            address: self.address,
            touched: self.touched,
            selfdestructed: self.selfdestructed,
            created: self.created,
            info: self.info@,
            storage: self.storage@,
        }
    }
}

/// What changes hold.
pub open spec fn changes_model(changes: Seq<ChangedAccount>) -> Seq<ChangeModel> {
    changes.map_values(|change: ChangedAccount| change@)
}

/// Slots with others written, in order.
pub open spec fn with_journal_slots(slots: Map<U256, U256>, journal: Seq<JournalSlot>) -> Map<
    U256,
    U256,
>
    decreases journal.len(),
{
    if journal.len() == 0 {
        slots
    } else {
        with_journal_slots(slots, journal.drop_last()).insert(
            journal.last().slot,
            journal.last().present_value,
        )
    }
}

/// An account that nothing is known of.
pub open spec fn blank_account() -> AccountModel {
    AccountModel {
        info: InfoModel::fresh(),
        account_state: AccountState::Untouched,
        storage: Map::empty(),
    }
}

/// An account that does not exist.
pub open spec fn absent_account() -> AccountModel {
    AccountModel {
        info: InfoModel::fresh(),
        account_state: AccountState::NotExisting,
        storage: Map::empty(),
    }
}

impl LayersModel {
    /// With one account as an execution left it: an account that was not touched
    /// stays; one that destroyed itself does not exist; one that was created has
    /// no other slots; of the others earlier slots stay.
    pub open spec fn with_change(self, change: ChangeModel) -> Self {
        if !change.touched {
            self
        } else if change.selfdestructed {
            LayersModel { overlay: self.overlay.insert(change.address, absent_account()), ..self }
        } else {
            let held = if self.overlay.contains_key(change.address) {
                self.overlay[change.address]
            } else {
                blank_account()
            };
            let kept = if change.created {
                Map::empty()
            } else {
                held.storage
            };
            LayersModel {
                overlay: self.overlay.insert(
                    change.address,
                    AccountModel {
                        info: overlay_info(change.info),
                        account_state: if change.created || held.account_state
                            == AccountState::StorageCleared {
                            AccountState::StorageCleared
                        } else {
                            AccountState::Touched
                        },
                        storage: with_journal_slots(kept, change.storage),
                    },
                ),
                ..self
            }
        }
    }

    /// With accounts as an execution left them, in order.
    pub open spec fn with_changes(self, changes: Seq<ChangeModel>) -> Self
        decreases changes.len(),
    {
        if changes.len() == 0 {
            self
        } else {
            self.with_changes(changes.drop_last()).with_change(changes.last())
        }
    }

    /// With an account that a simulation asked for in the overlay: as it is there
    /// already, else as the backend holds it, else as it was fetched.
    pub open spec fn with_loaded_account(self, address: Address, fetched: Option<InfoModel>) -> Self {
        if self.overlay.contains_key(address) {
            self
        } else if self.accounts.contains_key(address) {
            LayersModel {
                overlay: self.overlay.insert(
                    address,
                    AccountModel { info: self.accounts[address], ..blank_account() },
                ),
                ..self
            }
        } else {
            match fetched {
                Some(info) => LayersModel {
                    overlay: self.overlay.insert(
                        address,
                        AccountModel { info, ..blank_account() },
                    ),
                    accounts: self.accounts.insert(address, info),
                    ..self
                },
                None => LayersModel {
                    overlay: self.overlay.insert(address, absent_account()),
                    ..self
                },
            }
        }
    }

    /// An account of the overlay as a machine sees it.
    pub open spec fn seen_account(self, address: Address) -> Option<InfoModel> {
        if self.overlay.contains_key(address) && self.overlay[address].account_state
            != AccountState::NotExisting {
            Some(self.overlay[address].info)
        } else {
            None
        }
    }

    /// The value of a slot that a simulation asked for: what is cached, else what
    /// was fetched.
    pub open spec fn loaded_slot(self, address: Address, slot: U256, fetched: U256) -> U256 {
        match self.slot(address, slot) {
            Some(value) => value,
            None => fetched,
        }
    }

    /// With a slot that a simulation asked for in the overlay, and what was
    /// fetched in the backend.
    pub open spec fn with_loaded_slot(self, address: Address, slot: U256, fetched: U256) -> Self {
        let value = self.loaded_slot(address, slot, fetched);
        let backed = if self.slot(address, slot) is None {
            self.with_backend_slot(address, slot, fetched)
        } else {
            self
        };
        if !self.overlay.contains_key(address) {
            backed
        } else {
            let account = self.overlay[address];
            if account.storage.contains_key(slot)
                || account.account_state.spec_clears_storage() {
                backed
            } else {
                LayersModel {
                    overlay: self.overlay.insert(
                        address,
                        AccountModel { storage: account.storage.insert(slot, value), ..account },
                    ),
                    ..backed
                }
            }
        }
    }
}

/// Writes slots, in order.
fn write_journal_slots(slots: SlotMap, journal: &Vec<JournalSlot>) -> (r: SlotMap)
    ensures
        r@ == with_journal_slots(slots@, journal@),
{
    let ghost start = slots@;
    let mut written: SlotMap = slots;
    let mut i: usize = 0;
    assert(journal@.take(0) =~= Seq::empty());
    while i < journal.len()
        invariant
            i <= journal.len(),
            written@ == with_journal_slots(start, journal@.take(i as int)),
        decreases journal.len() - i,
    {
        assert(journal@.take(i + 1).drop_last() =~= journal@.take(i as int));
        written.insert(journal[i].slot, journal[i].present_value);
        i = i + 1;
    }
    assert(journal@.take(i as int) =~= journal@);
    written
}

/// An account as the overlay keeps it.
fn installed_info(info: &AccountInfo) -> (r: AccountInfo)
    ensures
        r@ == overlay_info(info@),
{
    let mut installed: AccountInfo = info.clone();
    if installed.has_code() && installed.code_hash == keccak_empty() {
        if let Some(code) = &installed.code {
            let hash: B256 = code.hash_slow();
            installed.code_hash = hash;
        }
    }
    installed.normalized()
}

impl EvmCache {
    /// Whether an account must be fetched before a machine can read it.
    pub fn needs_account(&self, address: Address) -> (r: bool)
        ensures
            r == (!self.layers@.overlay.contains_key(address)
                && !self.layers@.accounts.contains_key(address)),
    {
        proof {
            assert(self.layers@.overlay.dom() =~= self.layers.overlay@.dom());
            assert(self.layers@.accounts.dom() =~= self.layers.accounts@.dom());
        }
        !self.layers.overlay.contains_key(&address) && !self.layers.accounts.contains_key(&address)
    }

    /// Whether a slot must be fetched before a machine can read it.
    pub fn needs_slot(&self, address: Address, slot: U256) -> (r: bool)
        ensures
            r == (self.layers@.slot(address, slot) is None),
    {
        self.layers.cached_storage_value(address, slot).is_none()
    }

    /// An account for a machine. `fetched` is the account as fetched, for one that
    /// must be fetched.
    pub fn load_account(&mut self, address: Address, fetched: Option<AccountInfo>) -> (r: Option<
        AccountInfo,
    >)
        requires
            old(self).wf(),
        ensures
            final(self).wf(),
            final(self).layers@ == old(self).layers@.with_loaded_account(
                address,
                fetched_model(fetched),
            ),
            fetched_model(r) == final(self).layers@.seen_account(address),
            *final(self) == (EvmCache { layers: final(self).layers, ..*old(self) }),
    {
        let ghost start = self.layers@;
        let ghost model = fetched_model(fetched);
        proof {
            assert(self.layers@.overlay.dom() =~= self.layers.overlay@.dom());
            assert(self.layers@.accounts.dom() =~= self.layers.accounts@.dom());
        }
        if !self.layers.overlay.contains_key(&address) {
            let held: Option<AccountInfo> = match self.layers.accounts.get(&address) {
                Some(info) => Some(info.clone()),
                None => None,
            };
            let known: Option<AccountInfo> = match held {
                Some(info) => Some(info),
                None => match fetched {
                    Some(info) => {
                        self.layers.insert_backend_info(address, info.clone());
                        Some(info)
                    },
                    None => None,
                },
            };
            let ghost before = self.layers.overlay@;
            let ghost backed = self.layers@;
            let account: DbAccount = match known {
                Some(info) => DbAccount {
                    info,
                    account_state: AccountState::Untouched,
                    storage: SortedMap::new(),
                },
                None => DbAccount {
                    info: AccountInfo::default(),
                    account_state: AccountState::NotExisting,
                    storage: SortedMap::new(),
                },
            };
            let ghost made = account;
            self.layers.overlay.insert(address, account);
            proof {
                lemma_overlay_insert(before, address, made);
                assert(self.layers@ =~= (LayersModel {
                    overlay: backed.overlay.insert(address, made@),
                    ..backed
                }));
                assert(made@ =~= start.with_loaded_account(address, model).overlay[address]);
                assert(self.layers@ =~= start.with_loaded_account(address, model));
                law_growth_needs_no_mark(self.memo, start, self.layers@);
            }
        }
        match self.layers.overlay.get(&address) {
            Some(account) => match account.account_state {
                AccountState::NotExisting => None,
                _ => Some(account.info.clone()),
            },
            None => None,
        }
    }

    /// A slot for a machine. `fetched` is the value as fetched, for a slot that
    /// must be fetched.
    pub fn load_slot(&mut self, address: Address, slot: U256, fetched: U256) -> (r: U256)
        requires
            old(self).wf(),
        ensures
            final(self).wf(),
            r == old(self).layers@.loaded_slot(address, slot, fetched),
            final(self).layers@ == old(self).layers@.with_loaded_slot(address, slot, fetched),
            *final(self) == (EvmCache { layers: final(self).layers, ..*old(self) }),
    {
        let ghost start = self.layers@;
        let cached: Option<U256> = self.layers.cached_storage_value(address, slot);
        let value: U256 = match cached {
            Some(value) => value,
            None => {
                self.layers.insert_backend_slot(address, slot, fetched);
                fetched
            },
        };
        let ghost backed = self.layers@;
        let ghost before = self.layers.overlay@;
        if let Some(mut account) = self.layers.overlay.remove(&address) {
            let ghost held = account@;
            if !account.storage.contains_key(&slot) && !account.account_state.clears_storage() {
                account.storage.insert(slot, value);
            }
            let ghost made = account;
            self.layers.overlay.insert(address, account);
            proof {
                lemma_overlay_insert(before, address, made);
                assert(backed.overlay[address] == held);
                assert(self.layers@ =~= (LayersModel {
                    overlay: backed.overlay.insert(address, made@),
                    ..backed
                }));
                if held.storage.contains_key(slot) || held.account_state.spec_clears_storage() {
                    assert(made@ =~= held);
                    assert(backed.overlay.insert(address, held) =~= backed.overlay);
                } else {
                    assert(made@ =~= (AccountModel {
                        storage: held.storage.insert(slot, value),
                        ..held
                    }));
                }
            }
        } else {
            proof {
                assert(self.layers.overlay@ =~= before);
                assert(self.layers@ =~= backed);
                assert(!backed.overlay.contains_key(address));
            }
        }
        proof {
            assert(self.layers@ =~= start.with_loaded_slot(address, slot, fetched));
            law_growth_needs_no_mark(self.memo, start, self.layers@);
        }
        value
    }

    /// Writes one account back as an execution left it.
    fn write_back(&mut self, change: &ChangedAccount)
        requires
            old(self).wf(),
        ensures
            final(self).wf(),
            final(self).layers@ == old(self).layers@.with_change(change@),
            *final(self) == (EvmCache { layers: final(self).layers, ..*old(self) }),
    {
        if !change.touched {
            return;
        }
        let ghost start = self.layers@;
        let ghost before = self.layers.overlay@;
        let taken: Option<DbAccount> = self.layers.overlay.remove(&change.address);
        let account: DbAccount = if change.selfdestructed {
            DbAccount {
                info: AccountInfo::default(),
                account_state: AccountState::NotExisting,
                storage: SortedMap::new(),
            }
        } else {
            let (state, storage): (AccountState, SlotMap) = match taken {
                Some(account) => (account.account_state, account.storage),
                None => (AccountState::Untouched, SortedMap::new()),
            };
            let cleared: bool = change.created || state == AccountState::StorageCleared;
            let kept: SlotMap = if change.created {
                SortedMap::new()
            } else {
                storage
            };
            DbAccount {
                info: installed_info(&change.info),
                account_state: if cleared {
                    AccountState::StorageCleared
                } else {
                    AccountState::Touched
                },
                storage: write_journal_slots(kept, &change.storage),
            }
        };
        let ghost made = account;
        self.layers.overlay.insert(change.address, account);
        proof {
            lemma_overlay_insert(before, change.address, made);
            assert(made@ =~= start.with_change(change@).overlay[change.address]);
            assert(self.layers@ =~= start.with_change(change@));
        }
    }

    /// Writes accounts back as an execution left them.
    pub fn commit(&mut self, changes: &Vec<ChangedAccount>)
        requires
            old(self).wf(),
        ensures
            final(self).wf(),
            final(self).layers@ == old(self).layers@.with_changes(changes_model(changes@)),
            *final(self) == (EvmCache { layers: final(self).layers, ..*old(self) }),
    {
        let ghost model = changes_model(changes@);
        let mut i: usize = 0;
        assert(model.take(0) =~= Seq::empty());
        while i < changes.len()
            invariant
                i <= changes.len(),
                self.wf(),
                model == changes_model(changes@),
                self.layers@ == old(self).layers@.with_changes(model.take(i as int)),
                *self == (EvmCache { layers: self.layers, ..*old(self) }),
            decreases changes.len() - i,
        {
            assert(model.take(i + 1).drop_last() =~= model.take(i as int));
            assert(model.take(i + 1).last() == changes@[i as int]@);
            self.write_back(&changes[i]);
            i = i + 1;
        }
        assert(model.take(i as int) =~= model);
    }
}

/// Reading for a machine changes nothing that it reads: a slot that was cached
/// stays as it is, and one that was fetched is cached as it was fetched.
pub proof fn law_loading_keeps_what_is_cached(
    layers: LayersModel,
    address: Address,
    slot: U256,
    fetched: U256,
    other: Address,
    key: U256,
)
    ensures
        layers.with_loaded_slot(address, slot, fetched).slot(address, slot) == Some(
            layers.loaded_slot(address, slot, fetched),
        ),
        layers.slot(other, key) is Some ==> layers.with_loaded_slot(address, slot, fetched).slot(
            other,
            key,
        ) == layers.slot(other, key),
{
    let next = layers.with_loaded_slot(address, slot, fetched);
    if other == address {
        assert(slots_at(next.storage, address) =~= if layers.slot(address, slot) is None {
            slots_at(layers.storage, address).insert(slot, fetched)
        } else {
            slots_at(layers.storage, address)
        });
    } else {
        assert(slots_at(next.storage, other) == slots_at(layers.storage, other));
        assert(slots_at(next.storage, address) =~= if layers.slot(address, slot) is None {
            slots_at(layers.storage, address).insert(slot, fetched)
        } else {
            slots_at(layers.storage, address)
        });
    }
}

/// What an execution left is read back: the last value of a slot that it names,
/// and zero for every other slot of an account that it created.
pub proof fn law_changes_are_read_back(layers: LayersModel, change: ChangeModel, slot: U256)
    requires
        change.touched,
        !change.selfdestructed,
    ensures
        layers.with_change(change).seen_account(change.address) == Some(
            overlay_info(change.info),
        ),
        with_journal_slots(Map::empty(), change.storage).contains_key(slot) ==> layers.with_change(
            change,
        ).slot(change.address, slot) == Some(
            with_journal_slots(Map::empty(), change.storage)[slot],
        ),
        change.created && !with_journal_slots(Map::empty(), change.storage).contains_key(slot)
            ==> layers.with_change(change).slot(change.address, slot) == Some(U256::spec_zero()),
{
    let held = if layers.overlay.contains_key(change.address) {
        layers.overlay[change.address]
    } else {
        blank_account()
    };
    lemma_journal_over(held.storage, change.storage, slot);
}

/// Slots that a journal names have the value that it gives, whatever was there.
proof fn lemma_journal_over(slots: Map<U256, U256>, journal: Seq<JournalSlot>, slot: U256)
    ensures
        with_journal_slots(Map::empty(), journal).contains_key(slot) ==> with_journal_slots(
            slots,
            journal,
        ).contains_key(slot) && with_journal_slots(slots, journal)[slot] == with_journal_slots(
            Map::empty(),
            journal,
        )[slot],
    decreases journal.len(),
{
    if journal.len() > 0 {
        lemma_journal_over(slots, journal.drop_last(), slot);
    }
}

/// What code holds, where there is some.
pub open spec fn code_model(code: Option<Bytecode>) -> Option<Seq<u8>> {
    match code {
        Some(code) => Some(code@),
        None => None,
    }
}

/// The code of accounts that has a hash.
fn account_code(accounts: &SortedMap<Address, AccountInfo>, hash: B256) -> (r: Option<Bytecode>)
    ensures
        code_model(r) == lookup(code_index_of(accounts_model(accounts@)), hash),
{
    let mut found: Option<Bytecode> = None;
    let n: usize = accounts.len();
    let mut i: usize = 0;
    let ghost order = accounts.order();
    let ghost model = accounts_model(accounts@);
    proof {
        assert(order.take(0) =~= Seq::<Address>::empty());
        assert(model.dom() =~= accounts@.dom());
    }
    while i < n
        invariant
            i <= n == order.len(),
            order == accounts.order(),
            model == accounts_model(accounts@),
            code_model(found) == lookup(codes_of(model, order.take(i as int)), hash),
        decreases n - i,
    {
        let info: &AccountInfo = accounts.value_at(i);
        assert(order.take(i as int + 1).drop_last() =~= order.take(i as int));
        if let Some(code) = &info.code {
            if info.code_hash == hash {
                found = Some(code.clone());
            }
        }
        i = i + 1;
    }
    assert(order.take(n as int) =~= order);
    found
}

/// The code of the overlay's accounts that has a hash.
fn overlay_code(overlay: &SortedMap<Address, DbAccount>, hash: B256) -> (r: Option<Bytecode>)
    ensures
        code_model(r) == lookup(code_index_of(existing_infos(overlay_model(overlay@))), hash),
{
    let mut found: Option<Bytecode> = None;
    let n: usize = overlay.len();
    let mut i: usize = 0;
    let ghost order = overlay.order();
    let ghost model = existing_infos(overlay_model(overlay@));
    proof {
        assert(order.take(0) =~= Seq::<Address>::empty());
        assert(model.dom() =~= overlay@.dom());
    }
    while i < n
        invariant
            i <= n == order.len(),
            order == overlay.order(),
            model == existing_infos(overlay_model(overlay@)),
            code_model(found) == lookup(codes_of(model, order.take(i as int)), hash),
        decreases n - i,
    {
        let account: &DbAccount = overlay.value_at(i);
        assert(order.take(i as int + 1).drop_last() =~= order.take(i as int));
        assert(overlay_model(overlay@)[order[i as int]] == account@);
        if account.account_state != AccountState::NotExisting {
            if let Some(code) = &account.info.code {
                if account.info.code_hash == hash {
                    found = Some(code.clone());
                }
            }
        }
        i = i + 1;
    }
    assert(order.take(n as int) =~= order);
    found
}

impl EvmCache {
    /// Code for a machine by its hash, that of the overlay first. Code that no
    /// cached account has is not known.
    pub fn code_by_hash(&self, hash: B256) -> (r: Option<Bytecode>)
        ensures
            code_model(r) == self.layers@.code(hash),
    {
        match overlay_code(&self.layers.overlay, hash) {
            Some(code) => Some(code),
            None => account_code(&self.layers.accounts, hash),
        }
    }
}

/// What a simulation does to the layers.
pub enum SimStep {
    /// An account is loaded.
    LoadAccount {
        /// The account.
        address: Address,
        /// The account as fetched.
        fetched: Option<InfoModel>,
    },
    /// A slot is loaded.
    LoadSlot {
        /// The account.
        address: Address,
        /// The slot.
        slot: U256,
        /// The value as fetched.
        value: U256,
    },
    /// What an execution left is kept.
    Commit {
        /// The accounts as the execution left them.
        changes: Seq<ChangeModel>,
    },
}

impl LayersModel {
    /// After one step of a simulation.
    pub open spec fn simulated_step(self, step: SimStep) -> Self {
        match step {
            SimStep::LoadAccount { address, fetched } => self.with_loaded_account(address, fetched),
            SimStep::LoadSlot { address, slot, value } => self.with_loaded_slot(
                address,
                slot,
                value,
            ),
            SimStep::Commit { changes } => self.with_changes(changes),
        }
    }

    /// After the steps of simulations, in order.
    pub open spec fn simulated(self, steps: Seq<SimStep>) -> Self
        decreases steps.len(),
    {
        if steps.len() == 0 {
            self
        } else {
            self.simulated(steps.drop_last()).simulated_step(steps.last())
        }
    }

    /// Whether another backend holds all that this one does.
    pub open spec fn backend_within(self, later: Self) -> bool {
        &&& forall|a: Address| #[trigger]
            self.accounts.contains_key(a) ==> later.accounts.contains_key(a) && later.accounts[a]
                == self.accounts[a]
        &&& forall|a: Address, s: U256| #[trigger]
            slots_at(self.storage, a).contains_key(s) ==> slots_at(later.storage, a).contains_key(s)
                && slots_at(later.storage, a)[s] == slots_at(self.storage, a)[s]
    }
}

/// Changes that an execution left are kept in the overlay alone.
proof fn lemma_changes_stay_in_overlay(layers: LayersModel, changes: Seq<ChangeModel>)
    ensures
        layers.with_changes(changes).accounts == layers.accounts,
        layers.with_changes(changes).storage == layers.storage,
    decreases changes.len(),
{
    if changes.len() > 0 {
        lemma_changes_stay_in_overlay(layers, changes.drop_last());
    }
}

/// A step of a simulation takes nothing from the backend.
proof fn lemma_step_keeps_backend(layers: LayersModel, step: SimStep)
    ensures
        layers.backend_within(layers.simulated_step(step)),
{
    match step {
        SimStep::LoadAccount { .. } => {},
        SimStep::LoadSlot { address, slot, .. } => {
            let later = layers.simulated_step(step);
            assert forall|a: Address, s: U256| #[trigger]
                slots_at(layers.storage, a).contains_key(s) implies slots_at(
                later.storage,
                a,
            ).contains_key(s) && slots_at(later.storage, a)[s] == slots_at(layers.storage, a)[s] by {
                if a == address && s == slot {
                    assert(layers.slot(address, slot) is Some);
                }
            }
        },
        SimStep::Commit { changes } => {
            lemma_changes_stay_in_overlay(layers, changes);
        },
    }
}

/// Simulations take nothing from the backend.
proof fn lemma_simulations_keep_backend(layers: LayersModel, steps: Seq<SimStep>)
    ensures
        layers.backend_within(layers.simulated(steps)),
    decreases steps.len(),
{
    if steps.len() > 0 {
        let before = layers.simulated(steps.drop_last());
        let after = layers.simulated(steps);
        lemma_simulations_keep_backend(layers, steps.drop_last());
        lemma_step_keeps_backend(before, steps.last());
        assert forall|a: Address| #[trigger] layers.accounts.contains_key(a) implies
            after.accounts.contains_key(a) && after.accounts[a] == layers.accounts[a] by {
            assert(before.accounts.contains_key(a));
        }
        assert forall|a: Address, s: U256| #[trigger]
            slots_at(layers.storage, a).contains_key(s) implies slots_at(
            after.storage,
            a,
        ).contains_key(s) && slots_at(after.storage, a)[s] == slots_at(layers.storage, a)[s] by {
            assert(slots_at(before.storage, a).contains_key(s));
        }
    }
}

/// Restoring a checkpoint undoes what simulations did since: whatever they loaded
/// and kept, every slot and every account that was cached at the checkpoint reads
/// as it did then.
pub proof fn law_restore_undoes(
    at_checkpoint: LayersModel,
    steps: Seq<SimStep>,
    address: Address,
    slot: U256,
)
    ensures
        ({
            let restored = LayersModel {
                overlay: at_checkpoint.overlay,
                ..at_checkpoint.simulated(steps)
            };
            &&& at_checkpoint.slot(address, slot) is Some ==> restored.slot(address, slot)
                == at_checkpoint.slot(address, slot)
            &&& restored.seen_account(address) == at_checkpoint.seen_account(address)
            &&& at_checkpoint.accounts.contains_key(address) ==> restored.accounts.contains_key(
                address,
            ) && restored.accounts[address] == at_checkpoint.accounts[address]
        }),
{
    lemma_simulations_keep_backend(at_checkpoint, steps);
    let later = at_checkpoint.simulated(steps);
    if slots_at(at_checkpoint.storage, address).contains_key(slot) {
        assert(slots_at(later.storage, address).contains_key(slot));
    }
}

} // verus!
