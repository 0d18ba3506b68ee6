//! The two layers of cached state.
//!
//! Layer 1, the overlay, is what simulations read first and commit to. Layer
//! 2, the backend, holds accounts and storage as they were fetched. A write
//! goes to the backend always, and to the overlay only where the account is
//! there already.

use crate::cache::account::{AccountInfo, AccountModel, AccountState, DbAccount, InfoModel, SlotMap};
use crate::collections::{Duplicate, SortedMap, SortedSet};
use crate::foreign::{code_hash_of, keccak_empty, spec_keccak_empty};
use crate::primitives::{Address, B256, U256};
use vstd::prelude::*;

verus! {

/// Both layers.
pub struct Layers {
    /// Layer 1: accounts with their storage.
    pub overlay: SortedMap<Address, DbAccount>,
    /// Layer 2: accounts.
    pub accounts: SortedMap<Address, AccountInfo>,
    /// Layer 2: storage.
    pub storage: SortedMap<Address, SlotMap>,
}

/// What the layers hold.
#[verifier::ext_equal]
pub struct LayersModel {
    /// Layer 1: accounts with their storage.
    pub overlay: Map<Address, AccountModel>,
    /// Layer 2: accounts.
    pub accounts: Map<Address, InfoModel>,
    /// Layer 2: storage.
    pub storage: Map<Address, Map<U256, U256>>,
}

/// What an overlay holds.
pub open spec fn overlay_model(overlay: Map<Address, DbAccount>) -> Map<Address, AccountModel> {
    overlay.map_values(|account: DbAccount| account@)
}

/// What backend accounts hold.
pub open spec fn accounts_model(accounts: Map<Address, AccountInfo>) -> Map<Address, InfoModel> {
    accounts.map_values(|info: AccountInfo| info@)
}

/// What backend storage holds.
pub open spec fn storage_model(
    storage: Map<Address, SlotMap>,
) -> Map<Address, Map<U256, U256>> {
    storage.map_values(|slots: SlotMap| slots@)
}

impl View for Layers {
    type V = LayersModel;

    open spec fn view(&self) -> LayersModel {
        LayersModel {
            overlay: overlay_model(self.overlay@),
            accounts: accounts_model(self.accounts@),
            storage: storage_model(self.storage@),
        }
    }
}

/// The slots of one account, none where it has no storage.
pub open spec fn slots_at(storage: Map<Address, Map<U256, U256>>, address: Address) -> Map<
    U256,
    U256,
> {
    if storage.contains_key(address) {
        storage[address]
    } else {
        Map::empty()
    }
}

/// The value of a key, if there is one.
pub open spec fn lookup<K, V>(map: Map<K, V>, key: K) -> Option<V> {
    if map.contains_key(key) {
        Some(map[key])
    } else {
        None
    }
}

impl LayersModel {
    /// No state at all.
    pub open spec fn empty() -> Self {
        LayersModel { overlay: Map::empty(), accounts: Map::empty(), storage: Map::empty() }
    }

    /// What a simulation reads from a slot without fetching: the overlay's
    /// value; zero where the overlay knows the storage to be cleared; else the
    /// backend's value, if it has one.
    pub open spec fn slot(self, address: Address, slot: U256) -> Option<U256> {
        if self.overlay.contains_key(address) && self.overlay[address].storage.contains_key(
            slot,
        ) {
            Some(self.overlay[address].storage[slot])
        } else if self.overlay.contains_key(address)
            && self.overlay[address].account_state.spec_clears_storage() {
            Some(U256::spec_zero())
        } else {
            lookup(slots_at(self.storage, address), slot)
        }
    }

    /// The backend with one slot written.
    pub open spec fn with_backend_slot(self, address: Address, slot: U256, value: U256) -> Self {
        LayersModel {
            storage: self.storage.insert(
                address,
                slots_at(self.storage, address).insert(slot, value),
            ),
            ..self
        }
    }

    /// A slot written through: to the backend, and to the overlay where the
    /// account is there.
    pub open spec fn with_slot(self, address: Address, slot: U256, value: U256) -> Self {
        let written = self.with_backend_slot(address, slot, value);
        if self.overlay.contains_key(address) {
            let account = self.overlay[address];
            LayersModel {
                overlay: self.overlay.insert(
                    address,
                    AccountModel { storage: account.storage.insert(slot, value), ..account },
                ),
                ..written
            }
        } else {
            written
        }
    }

    /// An account as a simulation sees it without fetching. An overlay account
    /// that does not exist hides the backend. A zero code hash reads as the
    /// hash of no code.
    pub open spec fn info(self, address: Address) -> Option<InfoModel> {
        if self.overlay.contains_key(address) {
            if self.overlay[address].account_state == AccountState::NotExisting {
                None
            } else {
                Some(self.overlay[address].info.normalized())
            }
        } else if self.accounts.contains_key(address) {
            Some(self.accounts[address].normalized())
        } else {
            None
        }
    }

    /// An account as the cache holds it, overlay first.
    pub open spec fn local_info(self, address: Address) -> Option<InfoModel> {
        if self.overlay.contains_key(address) {
            Some(self.overlay[address].info)
        } else {
            lookup(self.accounts, address)
        }
    }

    /// An account put into the overlay: its storage stays, and an account that
    /// did not exist does now.
    pub open spec fn with_overlay_info(self, address: Address, info: InfoModel) -> Self {
        let installed = overlay_info(info);
        LayersModel {
            overlay: self.overlay.insert(
                address,
                if self.overlay.contains_key(address) {
                    let account = self.overlay[address];
                    AccountModel {
                        info: installed,
                        account_state: if account.account_state == AccountState::NotExisting {
                            AccountState::Untouched
                        } else {
                            account.account_state
                        },
                        storage: account.storage,
                    }
                } else {
                    AccountModel {
                        info: installed,
                        account_state: AccountState::Untouched,
                        storage: Map::empty(),
                    }
                },
            ),
            ..self
        }
    }

    /// An account written to the backend.
    pub open spec fn with_backend_info(self, address: Address, info: InfoModel) -> Self {
        LayersModel { accounts: self.accounts.insert(address, info), ..self }
    }

    /// An account written through: to the backend, and to the overlay where the
    /// account is there.
    pub open spec fn with_info(self, address: Address, info: InfoModel) -> Self {
        let written = self.with_backend_info(address, info.normalized());
        if self.overlay.contains_key(address) {
            written.with_overlay_info(address, info.normalized())
        } else {
            written
        }
    }

    /// An account written to both layers, in the overlay too where it was not
    /// there.
    pub open spec fn with_info_everywhere(self, address: Address, info: InfoModel) -> Self {
        self.with_overlay_info(address, info).with_backend_info(address, info)
    }

    /// Everything of an account taken out.
    pub open spec fn without_account(self, address: Address) -> Self {
        LayersModel {
            overlay: self.overlay.remove(address),
            accounts: self.accounts.remove(address),
            storage: self.storage.remove(address),
        }
    }

    /// The overlay account with other storage, where it is there.
    pub open spec fn with_overlay_storage(
        self,
        address: Address,
        storage: Map<U256, U256>,
    ) -> Self {
        if self.overlay.contains_key(address) {
            let account = self.overlay[address];
            LayersModel {
                overlay: self.overlay.insert(address, AccountModel { storage, ..account }),
                ..self
            }
        } else {
            self
        }
    }

    /// All storage of an account taken out.
    pub open spec fn without_storage(self, address: Address) -> Self {
        LayersModel {
            storage: self.storage.remove(address),
            ..self.with_overlay_storage(address, Map::empty())
        }
    }

    /// Some slots of an account taken out.
    pub open spec fn without_slots(self, address: Address, slots: Set<U256>) -> Self {
        let hidden = self.with_overlay_storage(
            address,
            self.overlay[address].storage.remove_keys(slots),
        );
        if self.storage.contains_key(address) {
            LayersModel {
                storage: self.storage.insert(address, self.storage[address].remove_keys(slots)),
                ..hidden
            }
        } else {
            hidden
        }
    }

    /// All storage of all accounts taken out.
    pub open spec fn without_any_storage(self) -> Self {
        LayersModel {
            overlay: self.overlay.map_values(
                |account: AccountModel| AccountModel { storage: Map::empty(), ..account },
            ),
            storage: Map::empty(),
            ..self
        }
    }

    /// A slot written to the overlay alone. An account that was not there is
    /// entered as fetched, or as one that does not exist.
    pub open spec fn with_overlay_slot(
        self,
        address: Address,
        slot: U256,
        value: U256,
        fetched: Option<InfoModel>,
    ) -> Self {
        let account = if self.overlay.contains_key(address) {
            self.overlay[address]
        } else {
            match fetched {
                Some(info) => AccountModel {
                    info,
                    account_state: AccountState::Untouched,
                    storage: Map::empty(),
                },
                None => AccountModel {
                    info: InfoModel::fresh(),
                    account_state: AccountState::NotExisting,
                    storage: Map::empty(),
                },
            }
        };
        LayersModel {
            overlay: self.overlay.insert(
                address,
                AccountModel { storage: account.storage.insert(slot, value), ..account },
            ),
            ..self
        }
    }

    /// The balance of an account replaced in every layer that holds it.
    pub open spec fn with_balance(self, address: Address, balance: U256) -> Self {
        LayersModel {
            overlay: if self.overlay.contains_key(address) {
                let account = self.overlay[address];
                self.overlay.insert(
                    address,
                    AccountModel { info: InfoModel { balance, ..account.info }, ..account },
                )
            } else {
                self.overlay
            },
            accounts: if self.accounts.contains_key(address) {
                self.accounts.insert(
                    address,
                    InfoModel { balance, ..self.accounts[address] },
                )
            } else {
                self.accounts
            },
            ..self
        }
    }
}

/// An account as the overlay keeps it: code with the hash of no code gets its
/// own hash, and a zero hash becomes the hash of no code.
pub open spec fn overlay_info(info: InfoModel) -> InfoModel {
    if info.has_code() && info.code_hash == spec_keccak_empty() {
        InfoModel { code_hash: B256::spec_from(code_hash_of(info.code->0)), ..info }.normalized()
    } else {
        info.normalized()
    }
}

/// Writing one key of a map writes it in what the map holds.
proof fn lemma_storage_insert(storage: Map<Address, SlotMap>, address: Address, slots: SlotMap)
    ensures
        storage_model(storage.insert(address, slots)) == storage_model(storage).insert(
            address,
            slots@,
        ),
        storage_model(storage.remove(address)) == storage_model(storage).remove(address),
{
    assert(storage_model(storage.insert(address, slots)) =~= storage_model(storage).insert(
        address,
        slots@,
    ));
    assert(storage_model(storage.remove(address)) =~= storage_model(storage).remove(address));
}

/// Writing one key of an overlay writes it in what the overlay holds.
pub proof fn lemma_overlay_insert(
    overlay: Map<Address, DbAccount>,
    address: Address,
    account: DbAccount,
)
    ensures
        overlay_model(overlay.insert(address, account)) == overlay_model(overlay).insert(
            address,
            account@,
        ),
        overlay_model(overlay.remove(address)) == overlay_model(overlay).remove(address),
        overlay_model(overlay.remove(address).insert(address, account)) == overlay_model(
            overlay,
        ).insert(address, account@),
{
    assert(overlay_model(overlay.insert(address, account)) =~= overlay_model(overlay).insert(
        address,
        account@,
    ));
    assert(overlay_model(overlay.remove(address)) =~= overlay_model(overlay).remove(address));
    assert(overlay_model(overlay.remove(address).insert(address, account)) =~= overlay_model(
        overlay,
    ).insert(address, account@));
}

/// Writing one key of the accounts writes it in what they hold.
proof fn lemma_accounts_insert(
    accounts: Map<Address, AccountInfo>,
    address: Address,
    info: AccountInfo,
)
    ensures
        accounts_model(accounts.insert(address, info)) == accounts_model(accounts).insert(
            address,
            info@,
        ),
        accounts_model(accounts.remove(address)) == accounts_model(accounts).remove(address),
        accounts_model(accounts.remove(address).insert(address, info)) == accounts_model(
            accounts,
        ).insert(address, info@),
{
    assert(accounts_model(accounts.insert(address, info)) =~= accounts_model(accounts).insert(
        address,
        info@,
    ));
    assert(accounts_model(accounts.remove(address)) =~= accounts_model(accounts).remove(address));
    assert(accounts_model(accounts.remove(address).insert(address, info)) =~= accounts_model(
        accounts,
    ).insert(address, info@));
}

impl Layers {
    /// No state at all.
    pub fn new() -> (r: Self)
        ensures
            r@ == LayersModel::empty(),
    {
        let r = Layers {
            overlay: SortedMap::new(),
            accounts: SortedMap::new(),
            storage: SortedMap::new(),
        };
        assert(r@ =~= LayersModel::empty());
        r
    }

    /// The value of a slot, as a simulation reads it without fetching.
    pub fn cached_storage_value(&self, address: Address, slot: U256) -> (r: Option<U256>)
        ensures
            r == self@.slot(address, slot),
    {
        if let Some(account) = self.overlay.get(&address) {
            if let Some(value) = account.storage.get(&slot) {
                return Some(*value);
            }
            if account.account_state.clears_storage() {
                return Some(U256::zero());
            }
        }
        self.backend_slot(address, slot)
    }

    /// The value of a slot in the backend.
    pub fn backend_slot(&self, address: Address, slot: U256) -> (r: Option<U256>)
        ensures
            r == lookup(slots_at(self@.storage, address), slot),
    {
        match self.storage.get(&address) {
            Some(slots) => match slots.get(&slot) {
                Some(value) => Some(*value),
                None => None,
            },
            None => None,
        }
    }

    /// Writes a slot to the backend.
    pub fn insert_backend_slot(&mut self, address: Address, slot: U256, value: U256)
        ensures
            final(self)@ == old(self)@.with_backend_slot(address, slot, value),
            final(self).overlay == old(self).overlay,
            final(self).accounts == old(self).accounts,
    {
        let ghost before = self.storage@;
        let mut slots: SlotMap = match self.storage.remove(&address) {
            Some(slots) => slots,
            None => SortedMap::new(),
        };
        slots.insert(slot, value);
        let ghost written = slots;
        self.storage.insert(address, slots);
        proof {
            lemma_storage_insert(before, address, written);
            lemma_storage_insert(before.remove(address), address, written);
            assert(storage_model(self.storage@) =~= storage_model(before).insert(
                address,
                written@,
            ));
            assert(written@ =~= slots_at(storage_model(before), address).insert(slot, value));
        }
    }

    /// Writes a slot through both layers.
    pub fn write_slot_through(&mut self, address: Address, slot: U256, value: U256)
        ensures
            final(self)@ == old(self)@.with_slot(address, slot, value),
            final(self).accounts == old(self).accounts,
    {
        self.insert_backend_slot(address, slot, value);
        let ghost before = self.overlay@;
        if let Some(account) = self.overlay.remove(&address) {
            let mut account = account;
            account.storage.insert(slot, value);
            let ghost written = account;
            self.overlay.insert(address, account);
            proof {
                lemma_overlay_insert(before, address, written);
            }
        }
        assert(self@ =~= old(self)@.with_slot(address, slot, value));
    }

    /// An account as a simulation sees it without fetching.
    pub fn loaded_account_info(&self, address: Address) -> (r: Option<AccountInfo>)
        ensures
            (match r {
                Some(info) => Some(info@),
                None => None,
            }) == self@.info(address),
    {
        match self.overlay.get(&address) {
            Some(account) => match account.account_state {
                AccountState::NotExisting => None,
                _ => Some(account.info.clone().normalized()),
            },
            None => match self.accounts.get(&address) {
                Some(info) => Some(info.clone().normalized()),
                None => None,
            },
        }
    }

    /// An account as the cache holds it, overlay first.
    pub fn local_account_info(&self, address: Address) -> (r: Option<AccountInfo>)
        ensures
            (match r {
                Some(info) => Some(info@),
                None => None,
            }) == self@.local_info(address),
    {
        match self.overlay.get(&address) {
            Some(account) => Some(account.info.clone()),
            None => match self.accounts.get(&address) {
                Some(info) => Some(info.clone()),
                None => None,
            },
        }
    }

    /// Puts an account into the overlay.
    pub fn insert_overlay_info(&mut self, address: Address, info: AccountInfo)
        ensures
            final(self)@ == old(self)@.with_overlay_info(address, info@),
            final(self).accounts == old(self).accounts,
            final(self).storage == old(self).storage,
    {
        let ghost before = self.overlay@;
        let ghost given = info@;
        let mut installed = info;
        if installed.has_code() && installed.code_hash == keccak_empty() {
            if let Some(code) = &installed.code {
                let hash: B256 = code.hash_slow();
                installed.code_hash = hash;
            }
        }
        let installed = installed.normalized();
        assert(installed@ == overlay_info(given));
        let account = match self.overlay.remove(&address) {
            Some(account) => DbAccount {
                info: installed,
                account_state: match account.account_state {
                    AccountState::NotExisting => AccountState::Untouched,
                    state => state,
                },
                storage: account.storage,
            },
            None => DbAccount {
                info: installed,
                account_state: AccountState::Untouched,
                storage: SortedMap::new(),
            },
        };
        let ghost written = account;
        self.overlay.insert(address, account);
        proof {
            lemma_overlay_insert(before, address, written);
            assert(self@ =~= old(self)@.with_overlay_info(address, given));
        }
    }

    /// Writes an account to the backend.
    pub fn insert_backend_info(&mut self, address: Address, info: AccountInfo)
        ensures
            final(self)@ == old(self)@.with_backend_info(address, info@),
            final(self).overlay == old(self).overlay,
            final(self).storage == old(self).storage,
    {
        let ghost before = self.accounts@;
        self.accounts.insert(address, info);
        proof {
            lemma_accounts_insert(before, address, info);
            assert(self@ =~= old(self)@.with_backend_info(address, info@));
        }
    }

    /// Writes an account through both layers.
    pub fn write_account_info_through(&mut self, address: Address, info: AccountInfo)
        ensures
            final(self)@ == old(self)@.with_info(address, info@),
            final(self).storage == old(self).storage,
    {
        let info = info.normalized();
        let present: bool = self.overlay.contains_key(&address);
        self.insert_backend_info(address, info.clone());
        if present {
            self.insert_overlay_info(address, info);
        }
        assert(self@ =~= old(self)@.with_info(address, info@));
    }

    /// Writes an account to both layers, in the overlay too where it was not
    /// there.
    pub fn write_account_info_everywhere(&mut self, address: Address, info: AccountInfo)
        ensures
            final(self)@ == old(self)@.with_info_everywhere(address, info@),
            final(self).storage == old(self).storage,
    {
        self.insert_overlay_info(address, info.clone());
        self.insert_backend_info(address, info);
    }
}

/// Takes slots out of a slot map; the result is how many there were.
fn remove_slots(map: &mut SlotMap, slots: &[U256]) -> (count: usize)
    ensures
        final(map)@ == old(map)@.remove_keys(slots@.to_set()),
        count == old(map)@.len() - final(map)@.len(),
{
    let n: usize = slots.len();
    let total: usize = map.len();
    let mut i: usize = 0;
    let mut count: usize = 0;
    assert(map@ =~= old(map)@.remove_keys(slots@.take(0).to_set()));
    while i < n
        invariant
            i <= n == slots@.len(),
            map@ == old(map)@.remove_keys(slots@.take(i as int).to_set()),
            map@.dom().finite(),
            total == old(map)@.len(),
            count + map@.len() == total,
        decreases n - i,
    {
        let slot: U256 = slots[i];
        let ghost before = map@;
        proof {
            crate::collections::lemma_take_extend(slots@, i as int);
            assert(before.remove(slot).dom() =~= before.dom().remove(slot));
        }
        if map.remove(&slot).is_some() {
            assert(before.dom().contains(slot));
            count = count + 1;
        } else {
            assert(before.remove(slot) =~= before);
        }
        assert(map@ =~= old(map)@.remove_keys(slots@.take(i as int + 1).to_set()));
        i = i + 1;
    }
    assert(slots@.take(n as int) =~= slots@);
    count
}

impl Layers {
    /// Takes an account out of both layers. The result is the number of slots
    /// that the backend held, and whether some layer held the account.
    pub fn purge_account(&mut self, address: Address) -> (r: (usize, bool))
        ensures
            final(self)@ == old(self)@.without_account(address),
            r.0 == slots_at(old(self)@.storage, address).len(),
            r.1 == (old(self)@.overlay.contains_key(address) || old(self)@.accounts.contains_key(
                address,
            )),
    {
        let ghost before = *self;
        let in_overlay: bool = self.overlay.remove(&address).is_some();
        let in_backend: bool = self.accounts.remove(&address).is_some();
        let slots: usize = match self.storage.remove(&address) {
            Some(slots) => slots.len(),
            None => 0,
        };
        assert(self@ =~= old(self)@.without_account(address));
        (slots, in_overlay || in_backend)
    }

    /// Takes all storage of an account out of both layers. The result is the
    /// number of slots that the backend held.
    pub fn purge_storage(&mut self, address: Address) -> (r: usize)
        ensures
            final(self)@ == old(self)@.without_storage(address),
            r == slots_at(old(self)@.storage, address).len(),
            final(self).accounts == old(self).accounts,
    {
        let ghost before = self.overlay@;
        if let Some(account) = self.overlay.remove(&address) {
            let mut account = account;
            account.storage.clear();
            let ghost written = account;
            self.overlay.insert(address, account);
            proof {
                lemma_overlay_insert(before, address, written);
            }
        }
        let slots: usize = match self.storage.remove(&address) {
            Some(slots) => slots.len(),
            None => 0,
        };
        assert(self@ =~= old(self)@.without_storage(address));
        slots
    }

    /// Takes some slots of an account out of both layers. The result is the
    /// number of slots that the backend lost.
    pub fn purge_slots(&mut self, address: Address, slots: &[U256]) -> (r: usize)
        ensures
            final(self)@ == old(self)@.without_slots(address, slots@.to_set()),
            r == slots_at(old(self)@.storage, address).len() - slots_at(
                final(self)@.storage,
                address,
            ).len(),
            final(self).accounts == old(self).accounts,
    {
        let ghost before = *self;
        if let Some(account) = self.overlay.remove(&address) {
            let mut account = account;
            remove_slots(&mut account.storage, slots);
            let ghost written = account;
            self.overlay.insert(address, account);
            proof {
                lemma_overlay_insert(before.overlay@, address, written);
            }
        }
        let mut removed: usize = 0;
        if let Some(held) = self.storage.remove(&address) {
            let mut held = held;
            removed = remove_slots(&mut held, slots);
            let ghost written = held;
            self.storage.insert(address, held);
            proof {
                lemma_storage_insert(before.storage@, address, written);
                lemma_storage_insert(before.storage@.remove(address), address, written);
                assert(storage_model(self.storage@) =~= storage_model(before.storage@).insert(
                    address,
                    written@,
                ));
            }
        } else {
            assert(self.storage@ =~= before.storage@);
        }
        assert(self@ =~= old(self)@.without_slots(address, slots@.to_set()));
        removed
    }

    /// Replaces the balance of an account in every layer that holds it.
    pub fn set_balance(&mut self, address: Address, balance: U256)
        ensures
            final(self)@ == old(self)@.with_balance(address, balance),
            final(self).storage == old(self).storage,
    {
        let ghost before = *self;
        if let Some(account) = self.overlay.remove(&address) {
            let mut account = account;
            account.info.balance = balance;
            let ghost written = account;
            self.overlay.insert(address, account);
            proof {
                lemma_overlay_insert(before.overlay@, address, written);
            }
        } else {
            assert(self.overlay@ =~= before.overlay@);
        }
        if let Some(info) = self.accounts.remove(&address) {
            let mut info = info;
            info.balance = balance;
            let ghost written = info;
            self.accounts.insert(address, info);
            proof {
                lemma_accounts_insert(before.accounts@, address, written);
            }
        } else {
            assert(self.accounts@ =~= before.accounts@);
        }
        assert(self@ =~= old(self)@.with_balance(address, balance));
    }

    /// The number of slots that the backend holds, over all accounts.
    pub open spec fn spec_backend_slot_total(self) -> nat {
        slot_sum(self@.storage, self.storage.order())
    }

    /// The number of slots that the backend holds, over all accounts, if it
    /// fits into the result.
    pub fn backend_slot_total(&self) -> (r: Option<usize>)
        ensures
            match r {
                Some(total) => total == self.spec_backend_slot_total(),
                None => self.spec_backend_slot_total() > usize::MAX,
            },
            self@.storage.dom() == self.storage.order().to_set(),
            self.storage.order().no_duplicates(),
    {
        let n: usize = self.storage.len();
        let ghost order = self.storage.order();
        let mut total: usize = 0;
        let mut i: usize = 0;
        assert(self@.storage.dom() =~= self.storage@.dom());
        while i < n
            invariant
                i <= n == order.len(),
                order == self.storage.order(),
                self@.storage.dom() == order.to_set(),
                order.no_duplicates(),
                total == slot_sum(self@.storage, order.take(i as int)),
            decreases n - i,
        {
            let slots: usize = self.storage.value_at(i).len();
            proof {
                assert(order.take(i as int + 1).drop_last() =~= order.take(i as int));
                lemma_slot_sum_monotone(self@.storage, order, i as int + 1);
            }
            match total.checked_add(slots) {
                Some(sum) => {
                    total = sum;
                },
                None => {
                    return None;
                },
            }
            i = i + 1;
        }
        assert(order.take(n as int) =~= order);
        Some(total)
    }

    /// Takes all storage out of both layers.
    pub fn purge_all_storage(&mut self)
        ensures
            final(self)@ == old(self)@.without_any_storage(),
            final(self).accounts == old(self).accounts,
    {
        let ghost before = self.overlay@;
        let keys: Vec<Address> = self.overlay.key_set().to_vec();
        let n: usize = keys.len();
        let mut i: usize = 0;
        while i < n
            invariant
                i <= n == keys@.len(),
                keys@.to_set() == before.dom(),
                self.accounts == old(self).accounts,
                self.storage == old(self).storage,
                self.overlay@.dom() == before.dom(),
                forall|a: Address| #[trigger]
                    before.contains_key(a) ==> self.overlay@[a]@ == (if keys@.take(
                        i as int,
                    ).contains(a) {
                        AccountModel { storage: Map::empty(), ..before[a]@ }
                    } else {
                        before[a]@
                    }),
            decreases n - i,
        {
            let key: Address = keys[i];
            assert(keys@.contains(key));
            let ghost current = self.overlay@;
            if let Some(account) = self.overlay.remove(&key) {
                let mut account = account;
                account.storage.clear();
                self.overlay.insert(key, account);
            }
            proof {
                let less = keys@.take(i as int);
                let more = keys@.take(i as int + 1);
                assert(more =~= less.push(key));
                assert forall|a: Address| #[trigger] before.contains_key(a) implies
                    self.overlay@[a]@ == (if more.contains(a) {
                    AccountModel { storage: Map::empty(), ..before[a]@ }
                } else {
                    before[a]@
                }) by {
                    if less.contains(a) {
                        let j = less.index_of(a);
                        assert(more[j] == a);
                    }
                    if a == key {
                        assert(more[i as int] == a);
                    }
                    if more.contains(a) {
                        let j = more.index_of(a);
                        if j < i {
                            assert(less[j] == a);
                        }
                    }
                }
                assert(self.overlay@.dom() =~= before.dom());
            }
            i = i + 1;
        }
        self.storage.clear();
        proof {
            assert(keys@.take(n as int) =~= keys@);
            assert forall|a: Address| #[trigger] before.contains_key(a) implies keys@.contains(
                a,
            ) by {
                assert(keys@.to_set().contains(a));
            }
            assert(self@ =~= old(self)@.without_any_storage());
        }
    }

    /// Whether the backend holds storage of an account.
    pub fn has_contract_storage(&self, address: Address) -> (r: bool)
        ensures
            r == (slots_at(self@.storage, address).len() > 0),
    {
        self.contract_storage_slot_count(address) > 0
    }

    /// The number of slots of an account that the backend holds.
    pub fn contract_storage_slot_count(&self, address: Address) -> (r: usize)
        ensures
            r == slots_at(self@.storage, address).len(),
    {
        match self.storage.get(&address) {
            Some(slots) => slots.len(),
            None => 0,
        }
    }

    /// The number of slots of an account that the overlay holds.
    pub fn cache_db_storage_slot_count(&self, address: Address) -> (r: usize)
        ensures
            r == if self@.overlay.contains_key(address) {
                self@.overlay[address].storage.len()
            } else {
                0
            },
    {
        match self.overlay.get(&address) {
            Some(account) => account.storage.len(),
            None => 0,
        }
    }

    /// The slots of an account that some layer holds.
    pub open spec fn spec_contract_slots(self, address: Address) -> Set<U256> {
        let backend = slots_at(self@.storage, address).dom();
        if self@.overlay.contains_key(address) {
            self@.overlay[address].storage.dom().union(backend)
        } else {
            backend
        }
    }

    /// The slots of an account that some layer holds, each once.
    pub fn enumerate_contract_slots(&self, address: Address) -> (r: Vec<U256>)
        ensures
            r@.no_duplicates(),
            r@.to_set() == self.spec_contract_slots(address),
    {
        let mut slots: SortedSet<U256> = SortedSet::new();
        if let Some(account) = self.overlay.get(&address) {
            slots.extend(&account.storage.key_set());
        }
        if let Some(backend) = self.storage.get(&address) {
            slots.extend(&backend.key_set());
        }
        assert(slots@ =~= self.spec_contract_slots(address));
        slots.to_vec()
    }

    /// The accounts that the backend keeps storage for, even none, or that have slots
    /// in the overlay, each once.
    pub fn all_cached_contract_addresses(&self) -> (r: Vec<Address>)
        ensures
            r@.no_duplicates(),
            forall|a: Address|
                r@.contains(a) <==> self@.storage.contains_key(a) || (self@.overlay.contains_key(a)
                    && self@.overlay[a].storage.dom() != Set::<U256>::empty()),
    {
        let mut addresses: SortedSet<Address> = self.storage.key_set();
        let n: usize = self.overlay.len();
        let ghost order = self.overlay.order();
        let mut i: usize = 0;
        while i < n
            invariant
                i <= n == order.len(),
                order == self.overlay.order(),
                forall|a: Address| #[trigger]
                    addresses@.contains(a) <==> self@.storage.contains_key(a) || exists|j: int|
                        0 <= j < i && #[trigger] order[j] == a && self@.overlay[a].storage.dom()
                            != Set::<U256>::empty(),
            decreases n - i,
        {
            let address: Address = self.overlay.key_at(i);
            let ghost before = addresses@;
            let held: bool = !self.overlay.value_at(i).storage.is_empty();
            if held {
                addresses.insert(address);
            }
            proof {
                assert forall|a: Address| #[trigger] addresses@.contains(a) <==>
                    self@.storage.contains_key(a) || exists|j: int|
                    0 <= j < i + 1 && #[trigger] order[j] == a && self@.overlay[a].storage.dom()
                        != Set::<U256>::empty() by {
                    if before.contains(a) && !self@.storage.contains_key(a) {
                        let j = choose|j: int|
                            0 <= j < i && #[trigger] order[j] == a
                                && self@.overlay[a].storage.dom() != Set::<U256>::empty();
                        assert(order[j] == a);
                    }
                    if a == address && held {
                        assert(order[i as int] == a);
                    }
                    if exists|j: int|
                        0 <= j < i + 1 && #[trigger] order[j] == a && self@.overlay[a].storage.dom()
                            != Set::<U256>::empty() {
                        let j = choose|j: int|
                            0 <= j < i + 1 && #[trigger] order[j] == a
                                && self@.overlay[a].storage.dom() != Set::<U256>::empty();
                        if j < i {
                            assert(before.contains(a));
                        }
                    }
                }
            }
            i = i + 1;
        }
        let r = addresses.to_vec();
        proof {
            assert forall|a: Address| r@.contains(a) <==> self@.storage.contains_key(a) || (
            self@.overlay.contains_key(a) && self@.overlay[a].storage.dom()
                != Set::<U256>::empty()) by {
                assert(r@.to_set().contains(a) == addresses@.contains(a));
                if self@.overlay.contains_key(a) {
                    assert(order.to_set().contains(a));
                    let j = order.index_of(a);
                    assert(order[j] == a);
                }
                if exists|j: int|
                    0 <= j < n && #[trigger] order[j] == a && self@.overlay[a].storage.dom()
                        != Set::<U256>::empty() {
                    let j = choose|j: int|
                        0 <= j < n && #[trigger] order[j] == a && self@.overlay[a].storage.dom()
                            != Set::<U256>::empty();
                    assert(order.contains(a));
                }
            }
        }
        r
    }

    /// Writes a slot to the overlay alone. An account that the overlay does not
    /// hold is entered as `fetched` says: as it was fetched, or as one that
    /// does not exist.
    pub fn insert_overlay_slot(
        &mut self,
        address: Address,
        slot: U256,
        value: U256,
        fetched: Option<AccountInfo>,
    )
        ensures
            final(self)@ == old(self)@.with_overlay_slot(
                address,
                slot,
                value,
                match fetched {
                    Some(info) => Some(info@),
                    None => None,
                },
            ),
            final(self).accounts == old(self).accounts,
            final(self).storage == old(self).storage,
    {
        let ghost before = self.overlay@;
        let mut account: DbAccount = match self.overlay.remove(&address) {
            Some(account) => account,
            None => match fetched {
                Some(info) => DbAccount {
                    info,
                    account_state: AccountState::Untouched,
                    storage: SortedMap::new(),
                },
                None => DbAccount {
                    info: AccountInfo::default(),
                    account_state: AccountState::NotExisting,
                    storage: SortedMap::new(),
                },
            },
        };
        account.storage.insert(slot, value);
        let ghost written = account;
        self.overlay.insert(address, account);
        proof {
            lemma_overlay_insert(before, address, written);
            assert(self@ =~= old(self)@.with_overlay_slot(
                address,
                slot,
                value,
                match fetched {
                    Some(info) => Some(info@),
                    None => None,
                },
            ));
        }
    }

    /// A copy of the overlay.
    pub fn copy_overlay(&self) -> (r: SortedMap<Address, DbAccount>)
        ensures
            overlay_model(r@) == self@.overlay,
    {
        let r = self.overlay.copy();
        proof {
            assert forall|a: Address| #[trigger] self.overlay@.contains_key(a) implies
                self.overlay@[a]@ == r@[a]@ by {
                assert(self.overlay@[a].same(&r@[a]));
            }
            assert(overlay_model(r@) =~= self@.overlay);
        }
        r
    }

    /// A copy of the backend's storage.
    pub fn copy_storage(&self) -> (r: SortedMap<Address, SlotMap>)
        ensures
            storage_model(r@) == self@.storage,
    {
        let r = self.storage.copy();
        proof {
            assert forall|a: Address| #[trigger] self.storage@.contains_key(a) implies
                self.storage@[a]@ == r@[a]@ by {
                assert(self.storage@[a].same(&r@[a]));
            }
            assert(storage_model(r@) =~= self@.storage);
        }
        r
    }

    /// A copy of the backend's accounts.
    pub fn copy_accounts(&self) -> (r: SortedMap<Address, AccountInfo>)
        ensures
            r@ == self.accounts@,
    {
        let r = self.accounts.copy();
        proof {
            assert forall|a: Address| #[trigger] self.accounts@.contains_key(a) implies
                self.accounts@[a] == r@[a] by {
                assert(self.accounts@[a].same(&r@[a]));
            }
            assert(r@ =~= self.accounts@);
        }
        r
    }
}

/// The number of slots of several accounts.
pub open spec fn slot_sum(storage: Map<Address, Map<U256, U256>>, order: Seq<Address>) -> nat
    decreases order.len(),
{
    if order.len() == 0 {
        0
    } else {
        slot_sum(storage, order.drop_last()) + storage[order.last()].len()
    }
}

/// The first accounts hold no more slots than all of them.
proof fn lemma_slot_sum_monotone(
    storage: Map<Address, Map<U256, U256>>,
    order: Seq<Address>,
    i: int,
)
    requires
        0 <= i <= order.len(),
    ensures
        slot_sum(storage, order.take(i)) <= slot_sum(storage, order),
    decreases order.len() - i,
{
    if i < order.len() {
        assert(order.take(i + 1).drop_last() =~= order.take(i));
        lemma_slot_sum_monotone(storage, order, i + 1);
    } else {
        assert(order.take(i) =~= order);
    }
}

} // verus!
