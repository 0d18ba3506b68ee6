//! What one simulation sees and changes, over a shared snapshot.
//!
//! A read looks at what the simulation changed, then at the snapshot. Where
//! neither knows, the caller may fetch and hand the result in.

use crate::bytes::share;
use crate::cache::account::{AccountInfo, Bytecode, InfoModel, SlotMap};
use crate::cache::journal::{journal_model, JournalAccount, JournalModel, JournalSlot};
use crate::cache::layers::{accounts_model, lookup, slots_at, storage_model, LayersModel};
use crate::cache::snapshot::EvmSnapshot;
use crate::collections::SortedMap;
use crate::primitives::{Address, B256, U256};
use std::sync::Arc;
use vstd::prelude::*;

verus! {

/// What a simulation changed or fetched.
#[verifier::ext_equal]
pub struct DirtyModel {
    /// Accounts.
    pub accounts: Map<Address, InfoModel>,
    /// Storage.
    pub storage: Map<Address, Map<U256, U256>>,
}

impl DirtyModel {
    /// Nothing.
    pub open spec fn empty() -> Self {
        DirtyModel { accounts: Map::empty(), storage: Map::empty() }
    }

    /// With an account.
    pub open spec fn with_account(self, address: Address, info: InfoModel) -> Self {
        DirtyModel { accounts: self.accounts.insert(address, info), ..self }
    }

    /// With a slot.
    pub open spec fn with_slot(self, address: Address, slot: U256, value: U256) -> Self {
        DirtyModel {
            storage: self.storage.insert(
                address,
                slots_at(self.storage, address).insert(slot, value),
            ),
            ..self
        }
    }

    /// With some slots, in order.
    pub open spec fn with_slots(self, address: Address, slots: Seq<JournalSlot>) -> Self
        decreases slots.len(),
    {
        if slots.len() == 0 {
            DirtyModel {
                storage: self.storage.insert(address, slots_at(self.storage, address)),
                ..self
            }
        } else {
            self.with_slots(address, slots.drop_last()).with_slot(
                address,
                slots.last().slot,
                slots.last().present_value,
            )
        }
    }

    /// With what an execution left in its journal, in order.
    pub open spec fn committed(self, journal: Seq<JournalModel>) -> Self
        decreases journal.len(),
    {
        if journal.len() == 0 {
            self
        } else {
            let account = journal.last();
            self.committed(journal.drop_last()).with_account(
                account.address,
                account.info,
            ).with_slots(account.address, account.storage)
        }
    }
}

/// The first code of a hash among accounts, in order.
pub open spec fn first_code(
    accounts: Map<Address, InfoModel>,
    order: Seq<Address>,
    hash: B256,
) -> Option<Seq<u8>>
    decreases order.len(),
{
    if order.len() == 0 {
        None
    } else {
        let info = accounts[order.first()];
        if info.code_hash == hash && info.code is Some {
            info.code
        } else {
            first_code(accounts, order.drop_first(), hash)
        }
    }
}

/// What is known of an account without fetching.
pub enum AccountRead {
    /// It is so, or does not exist.
    Known(Option<AccountInfo>),
    /// Nothing.
    Unknown,
}

/// What is known of an account without fetching.
pub enum AccountReadModel {
    /// It is so, or does not exist.
    Known(Option<InfoModel>),
    /// Nothing.
    Unknown,
}

impl View for AccountRead {
    type V = AccountReadModel;

    open spec fn view(&self) -> AccountReadModel {
        match self {
            AccountRead::Known(Some(info)) => AccountReadModel::Known(Some(info@)),
            AccountRead::Known(None) => AccountReadModel::Known(None),
            AccountRead::Unknown => AccountReadModel::Unknown,
        }
    }
}

/// What one simulation sees and changes.
pub struct EvmOverlay {
    snapshot: Arc<EvmSnapshot>,
    dirty_accounts: SortedMap<Address, AccountInfo>,
    dirty_storage: SortedMap<Address, SlotMap>,
}

impl View for EvmOverlay {
    type V = DirtyModel;

    closed spec fn view(&self) -> DirtyModel {
        DirtyModel {
            accounts: accounts_model(self.dirty_accounts@),
            storage: storage_model(self.dirty_storage@),
        }
    }
}

impl EvmOverlay {
    /// The snapshot.
    pub closed spec fn spec_snapshot(self) -> EvmSnapshot {
        *self.snapshot
    }

    /// What is known of an account: what the simulation changed, else what the
    /// snapshot holds. An account that the snapshot knows not to exist is never
    /// fetched.
    pub open spec fn spec_account(self, address: Address) -> AccountReadModel {
        if self@.accounts.contains_key(address) {
            AccountReadModel::Known(Some(self@.accounts[address]))
        } else if self.spec_snapshot().accounts_not_existing@.contains(address) {
            AccountReadModel::Known(None)
        } else {
            match self.spec_snapshot().spec_account_info(address) {
                Some(info) => AccountReadModel::Known(Some(info)),
                None => AccountReadModel::Unknown,
            }
        }
    }

    /// What is known of a slot: what the simulation changed, else what the
    /// snapshot holds.
    pub open spec fn spec_slot(self, address: Address, slot: U256) -> Option<U256> {
        match lookup(slots_at(self@.storage, address), slot) {
            Some(value) => Some(value),
            None => self.spec_snapshot().spec_storage_value(address, slot),
        }
    }

    /// What is known of a code: that of an account the simulation changed, else
    /// what the snapshot holds.
    pub open spec fn spec_code(self, hash: B256) -> Option<Seq<u8>> {
        match first_code(
            self@.accounts,
            crate::collections::in_order(self@.accounts.dom()),
            hash,
        ) {
            Some(code) => Some(code),
            None => self.spec_snapshot().spec_code(hash),
        }
    }

    /// Nothing changed yet.
    pub fn new(snapshot: Arc<EvmSnapshot>) -> (r: Self)
        ensures
            r@ == DirtyModel::empty(),
            r.spec_snapshot() == *snapshot,
    {
        let r = EvmOverlay {
            snapshot,
            dirty_accounts: SortedMap::new(),
            dirty_storage: SortedMap::new(),
        };
        assert(r@ =~= DirtyModel::empty());
        r
    }

    /// Forgets everything that was changed or fetched.
    pub fn reset(&mut self)
        ensures
            final(self)@ == DirtyModel::empty(),
            final(self).spec_snapshot() == old(self).spec_snapshot(),
    {
        self.dirty_accounts.clear();
        self.dirty_storage.clear();
        assert(self@ =~= DirtyModel::empty());
    }

    /// The snapshot.
    pub fn snapshot(&self) -> (r: Arc<EvmSnapshot>)
        ensures
            *r == self.spec_snapshot(),
    {
        share(&self.snapshot)
    }

    /// Bytes of working memory to allocate ahead.
    pub fn buffer_capacity(&self) -> (r: usize)
        ensures
            r == self.spec_snapshot().shared_memory_capacity,
    {
        self.snapshot.shared_memory_capacity
    }

    /// The chain.
    pub fn chain_id(&self) -> (r: u64)
        ensures
            r == self.spec_snapshot().context.chain_id,
    {
        self.snapshot.context.chain_id
    }

    /// The height that contracts see, if set.
    pub fn block_number(&self) -> (r: Option<u64>)
        ensures
            r == self.spec_snapshot().context.block_number,
    {
        self.snapshot.context.block_number
    }

    /// The base fee that contracts see, if set.
    pub fn basefee(&self) -> (r: Option<u64>)
        ensures
            r == self.spec_snapshot().context.basefee,
    {
        self.snapshot.context.basefee
    }

    /// The timestamp that contracts see, if set.
    pub fn timestamp(&self) -> (r: Option<u64>)
        ensures
            r == self.spec_snapshot().context.timestamp,
    {
        self.snapshot.context.timestamp
    }

    /// The beneficiary: the one set, or the zero address.
    pub fn beneficiary(&self) -> (r: Address)
        ensures
            match self.spec_snapshot().context.coinbase {
                Some(coinbase) => r == coinbase,
                None => r@ == 0,
            },
    {
        match self.snapshot.context.coinbase {
            Some(coinbase) => coinbase,
            None => Address::zero(),
        }
    }

    /// What is known of an account.
    pub fn lookup_account(&self, address: Address) -> (r: AccountRead)
        ensures
            r@ == self.spec_account(address),
    {
        if let Some(info) = self.dirty_accounts.get(&address) {
            return AccountRead::Known(Some(info.clone()));
        }
        if self.snapshot.accounts_not_existing.contains(&address) {
            return AccountRead::Known(None);
        }
        match self.snapshot.account_info(address) {
            Some(info) => AccountRead::Known(Some(info.clone())),
            None => AccountRead::Unknown,
        }
    }

    /// Takes in an account that was fetched; one that is not there is not kept.
    pub fn absorb_account(&mut self, address: Address, fetched: Option<AccountInfo>) -> (r: Option<
        AccountInfo,
    >)
        ensures
            r == fetched,
            final(self)@ == match fetched {
                Some(info) => old(self)@.with_account(address, info@),
                None => old(self)@,
            },
            final(self).spec_snapshot() == old(self).spec_snapshot(),
    {
        if let Some(info) = &fetched {
            self.dirty_accounts.insert(address, info.clone());
            assert(self@ =~= old(self)@.with_account(address, info@));
        }
        fetched
    }

    /// An account, where nothing is fetched.
    pub fn basic(&self, address: Address) -> (r: Option<AccountInfo>)
        ensures
            (match r {
                Some(info) => Some(info@),
                None => None,
            }) == match self.spec_account(address) {
                AccountReadModel::Known(info) => info,
                AccountReadModel::Unknown => None,
            },
    {
        match self.lookup_account(address) {
            AccountRead::Known(info) => info,
            AccountRead::Unknown => None,
        }
    }

    /// What is known of a slot.
    pub fn lookup_storage(&self, address: Address, slot: U256) -> (r: Option<U256>)
        ensures
            r == self.spec_slot(address, slot),
    {
        if let Some(slots) = self.dirty_storage.get(&address) {
            if let Some(value) = slots.get(&slot) {
                return Some(*value);
            }
        }
        self.snapshot.storage_value(address, slot)
    }

    /// A slot, zero where nothing is known and nothing is fetched.
    pub fn storage(&self, address: Address, slot: U256) -> (r: U256)
        ensures
            r == match self.spec_slot(address, slot) {
                Some(value) => value,
                None => U256::spec_zero(),
            },
    {
        match self.lookup_storage(address, slot) {
            Some(value) => value,
            None => U256::zero(),
        }
    }

    /// Gives a slot a value, for this simulation alone.
    pub fn override_slot(&mut self, address: Address, slot: U256, value: U256)
        ensures
            final(self)@ == old(self)@.with_slot(address, slot, value),
            final(self).spec_snapshot() == old(self).spec_snapshot(),
    {
        let ghost before = self.dirty_storage@;
        let mut slots: SlotMap = match self.dirty_storage.remove(&address) {
            Some(slots) => slots,
            None => SortedMap::new(),
        };
        slots.insert(slot, value);
        let ghost written = slots;
        self.dirty_storage.insert(address, slots);
        proof {
            assert(storage_model(self.dirty_storage@) =~= storage_model(before).insert(
                address,
                written@,
            ));
            assert(written@ =~= slots_at(storage_model(before), address).insert(slot, value));
            assert(self@ =~= old(self)@.with_slot(address, slot, value));
        }
    }

    /// Takes in a slot that was fetched.
    pub fn absorb_storage(&mut self, address: Address, slot: U256, value: U256) -> (r: U256)
        ensures
            r == value,
            final(self)@ == old(self)@.with_slot(address, slot, value),
            final(self).spec_snapshot() == old(self).spec_snapshot(),
    {
        self.override_slot(address, slot, value);
        value
    }

    /// What is known of a code.
    pub fn lookup_code(&self, hash: B256) -> (r: Option<Bytecode>)
        ensures
            (match r {
                Some(code) => Some(code@),
                None => None,
            }) == self.spec_code(hash),
    {
        let n: usize = self.dirty_accounts.len();
        let ghost order = self.dirty_accounts.order();
        let mut i: usize = 0;
        proof {
            assert(order.skip(0) =~= order);
            assert(self@.accounts.dom() =~= self.dirty_accounts@.dom());
        }
        while i < n
            invariant
                i <= n == order.len(),
                order == self.dirty_accounts.order(),
                order == crate::collections::in_order(self@.accounts.dom()),
                first_code(self@.accounts, order, hash) == first_code(
                    self@.accounts,
                    order.skip(i as int),
                    hash,
                ),
            decreases n - i,
        {
            let info: &AccountInfo = self.dirty_accounts.value_at(i);
            proof {
                assert(order.skip(i as int).drop_first() =~= order.skip(i as int + 1));
                assert(order.skip(i as int).first() == order[i as int]);
                assert(self@.accounts[order[i as int]] == info@);
            }
            if info.code_hash == hash {
                if let Some(code) = &info.code {
                    return Some(code.clone());
                }
            }
            i = i + 1;
        }
        match self.snapshot.code(hash) {
            Some(code) => Some(code.clone()),
            None => None,
        }
    }

    /// A code, empty where nothing is known and nothing is fetched.
    pub fn code_by_hash(&self, hash: B256) -> (r: Bytecode)
        ensures
            r@ == match self.spec_code(hash) {
                Some(code) => code,
                None => Seq::<u8>::empty(),
            },
    {
        match self.lookup_code(hash) {
            Some(code) => code,
            None => Bytecode::new(),
        }
    }

    /// What is known of a block hash.
    pub fn lookup_block_hash(&self, number: u64) -> (r: Option<B256>)
        ensures
            r == lookup(self.spec_snapshot().block_hashes@, number),
    {
        match self.snapshot.block_hashes.get(&number) {
            Some(hash) => Some(*hash),
            None => None,
        }
    }

    /// A block hash, zero where nothing is known and nothing is fetched.
    pub fn block_hash(&self, number: u64) -> (r: B256)
        ensures
            match lookup(self.spec_snapshot().block_hashes@, number) {
                Some(hash) => r == hash,
                None => r@ == 0,
            },
    {
        match self.lookup_block_hash(number) {
            Some(hash) => hash,
            None => B256::zero(),
        }
    }

    /// Takes in some slots.
    fn write_slots(&mut self, address: Address, slots: &Vec<JournalSlot>)
        ensures
            final(self)@ == old(self)@.with_slots(address, slots@),
            final(self).spec_snapshot() == old(self).spec_snapshot(),
    {
        let ghost before = self.dirty_storage@;
        let held: SlotMap = match self.dirty_storage.remove(&address) {
            Some(slots) => slots,
            None => SortedMap::new(),
        };
        let ghost kept = held;
        self.dirty_storage.insert(address, held);
        proof {
            assert(storage_model(self.dirty_storage@) =~= storage_model(before).insert(
                address,
                kept@,
            ));
            assert(kept@ =~= slots_at(storage_model(before), address));
            assert(slots@.take(0) =~= Seq::empty());
            assert(self@ =~= old(self)@.with_slots(address, slots@.take(0)));
        }
        let mut i: usize = 0;
        while i < slots.len()
            invariant
                i <= slots.len(),
                self@ == old(self)@.with_slots(address, slots@.take(i as int)),
                self.spec_snapshot() == old(self).spec_snapshot(),
            decreases slots.len() - i,
        {
            self.override_slot(address, slots[i].slot, slots[i].present_value);
            assert(slots@.take(i as int + 1).drop_last() =~= slots@.take(i as int));
            i = i + 1;
        }
        assert(slots@.take(i as int) =~= slots@);
    }

    /// Keeps what an execution left in its journal.
    pub fn commit(&mut self, journal: &Vec<JournalAccount>)
        ensures
            final(self)@ == old(self)@.committed(journal_model(journal@)),
            final(self).spec_snapshot() == old(self).spec_snapshot(),
    {
        let ghost model = journal_model(journal@);
        let mut i: usize = 0;
        assert(model.take(0) =~= Seq::empty());
        while i < journal.len()
            invariant
                i <= journal.len(),
                model == journal_model(journal@),
                self@ == old(self)@.committed(model.take(i as int)),
                self.spec_snapshot() == old(self).spec_snapshot(),
            decreases journal.len() - i,
        {
            let ghost before = self@;
            self.dirty_accounts.insert(journal[i].address, journal[i].info.clone());
            proof {
                assert(self@ =~= before.with_account(journal@[i as int].address, journal@[i as int].info@));
                assert(model.take(i as int + 1).drop_last() =~= model.take(i as int));
                assert(model.take(i as int + 1).last() == journal@[i as int]@);
            }
            self.write_slots(journal[i].address, &journal[i].storage);
            i = i + 1;
        }
        assert(model.take(i as int) =~= model);
    }
}

/// After a reset an overlay reads as a new one on the same snapshot.
pub proof fn law_reset_is_fresh(used: EvmOverlay, fresh: EvmOverlay, address: Address, slot: U256, hash: B256)
    requires
        used@ == DirtyModel::empty(),
        fresh@ == DirtyModel::empty(),
        used.spec_snapshot() == fresh.spec_snapshot(),
    ensures
        used.spec_account(address) == fresh.spec_account(address),
        used.spec_slot(address, slot) == fresh.spec_slot(address, slot),
        used.spec_code(hash) == fresh.spec_code(hash),
{
}

/// An override is read back, and hides nothing else: not another slot, nor an
/// account.
pub proof fn law_override_is_read_back(
    before: EvmOverlay,
    after: EvmOverlay,
    address: Address,
    slot: U256,
    value: U256,
    other_address: Address,
    other_slot: U256,
)
    requires
        after@ == before@.with_slot(address, slot, value),
        after.spec_snapshot() == before.spec_snapshot(),
    ensures
        after.spec_slot(address, slot) == Some(value),
        (other_address, other_slot) != (address, slot) ==> after.spec_slot(
            other_address,
            other_slot,
        ) == before.spec_slot(other_address, other_slot),
        after.spec_account(other_address) == before.spec_account(other_address),
{
}

/// A new overlay reads as the cache did when the snapshot was taken: every slot,
/// every account and every code that the cache held.
pub proof fn law_overlay_reads_as_the_cache(
    overlay: EvmOverlay,
    layers: LayersModel,
    address: Address,
    slot: U256,
    hash: B256,
)
    requires
        overlay@ == DirtyModel::empty(),
        overlay.spec_snapshot().mirrors(layers),
    ensures
        overlay.spec_slot(address, slot) == layers.slot(address, slot),
        layers.evm_info(address) is Some ==> overlay.spec_account(address)
            == AccountReadModel::Known(layers.evm_info(address)),
        layers.evm_info(address) is None ==> !(overlay.spec_account(address) matches
            AccountReadModel::Known(Some(_))),
        overlay.spec_code(hash) == layers.code(hash),
{
    let snapshot = overlay.spec_snapshot();
    assert(snapshot.spec_storage_value(address, slot) == layers.slot(address, slot));
    assert(snapshot.spec_account_info(address) == layers.evm_info(address));
    assert(snapshot.spec_code(hash) == layers.code(hash));
    let empty = Map::<Address, InfoModel>::empty();
    crate::collections::lemma_in_order_lists(empty.dom());
    assert(crate::collections::in_order(empty.dom()).len() == 0);
}

/// Whether a journal's entry is the last for its account.
pub open spec fn is_last_entry(journal: Seq<JournalModel>, address: Address, at: int) -> bool {
    &&& 0 <= at < journal.len()
    &&& journal[at].address == address
    &&& forall|later: int|
        at < later < journal.len() ==> (#[trigger] journal[later]).address != address
}

/// Whether a slot of a journal's entry is the last write to that slot.
pub open spec fn is_last_write(
    journal: Seq<JournalModel>,
    address: Address,
    slot: U256,
    at: int,
    within: int,
) -> bool {
    &&& 0 <= at < journal.len()
    &&& journal[at].address == address
    &&& 0 <= within < journal[at].storage.len()
    &&& journal[at].storage[within].slot == slot
    &&& forall|later: int|
        within < later < journal[at].storage.len() ==> (#[trigger] journal[at].storage[later]).slot
            != slot
    &&& forall|later: int, k: int|
        at < later < journal.len() && journal[later].address == address && 0 <= k
            < journal[later].storage.len() ==> (#[trigger] journal[later].storage[k]).slot != slot
}

/// Whether a journal writes nothing to a slot.
pub open spec fn writes_nothing_to(
    journal: Seq<JournalModel>,
    address: Address,
    slot: U256,
) -> bool {
    forall|i: int, k: int|
        0 <= i < journal.len() && journal[i].address == address && 0 <= k
            < journal[i].storage.len() ==> (#[trigger] journal[i].storage[k]).slot != slot
}

/// Slots change no account.
proof fn lemma_slots_keep_accounts(dirty: DirtyModel, address: Address, slots: Seq<JournalSlot>)
    ensures
        dirty.with_slots(address, slots).accounts == dirty.accounts,
    decreases slots.len(),
{
    if slots.len() > 0 {
        lemma_slots_keep_accounts(dirty, address, slots.drop_last());
    }
}

/// What one account's slots leave of a slot: the last value written to it, or what
/// was there.
proof fn lemma_slots_leave(
    dirty: DirtyModel,
    address: Address,
    slots: Seq<JournalSlot>,
    reader: Address,
    slot: U256,
)
    ensures
        (reader != address || forall|k: int|
            0 <= k < slots.len() ==> (#[trigger] slots[k]).slot != slot) ==> lookup(
            slots_at(dirty.with_slots(address, slots).storage, reader),
            slot,
        ) == lookup(slots_at(dirty.storage, reader), slot),
        forall|within: int|
            reader == address && 0 <= within < slots.len() && (#[trigger] slots[within]).slot
                == slot && (forall|later: int|
                within < later < slots.len() ==> (#[trigger] slots[later]).slot != slot)
                ==> lookup(
                slots_at(dirty.with_slots(address, slots).storage, reader),
                slot,
            ) == Some(slots[within].present_value),
    decreases slots.len(),
{
    if slots.len() > 0 {
        let fewer = slots.drop_last();
        lemma_slots_leave(dirty, address, fewer, reader, slot);
        let last = slots.len() - 1;
        assert(slots[last] == slots.last());
        assert forall|k: int| 0 <= k < fewer.len() implies #[trigger] fewer[k] == slots[k] by {}
        if reader != address || forall|k: int|
            0 <= k < slots.len() ==> (#[trigger] slots[k]).slot != slot {
            assert forall|k: int| 0 <= k < fewer.len() && reader == address implies (
            #[trigger] fewer[k]).slot != slot by {
                assert(fewer[k] == slots[k]);
            }
        }
        assert forall|within: int|
            reader == address && 0 <= within < slots.len() && (#[trigger] slots[within]).slot
                == slot && (forall|later: int|
                within < later < slots.len() ==> (#[trigger] slots[later]).slot != slot)
        implies lookup(
            slots_at(dirty.with_slots(address, slots).storage, reader),
            slot,
        ) == Some(slots[within].present_value) by {
            if within < last {
                assert(fewer[within].slot == slot);
                assert forall|later: int| within < later < fewer.len() implies (
                #[trigger] fewer[later]).slot != slot by {
                    assert(slots[later].slot != slot);
                }
                assert(slots[last].slot != slot);
            }
        }
    }
}

/// After a journal was committed, every account in it reads as it was last
/// written there, whatever the snapshot holds. Every other account reads as
/// before.
pub proof fn law_committed_accounts_are_read_back(
    before: EvmOverlay,
    after: EvmOverlay,
    journal: Seq<JournalModel>,
    address: Address,
)
    requires
        after@ == before@.committed(journal),
        after.spec_snapshot() == before.spec_snapshot(),
    ensures
        forall|at: int| #[trigger]
            is_last_entry(journal, address, at) ==> after.spec_account(address)
                == AccountReadModel::Known(Some(journal[at].info)),
        (forall|i: int| 0 <= i < journal.len() ==> (#[trigger] journal[i]).address != address)
            ==> after.spec_account(address) == before.spec_account(address),
{
    lemma_committed_accounts(before@, journal, address);
}

/// What a journal leaves of an account.
proof fn lemma_committed_accounts(dirty: DirtyModel, journal: Seq<JournalModel>, address: Address)
    ensures
        forall|at: int| #[trigger]
            is_last_entry(journal, address, at) ==> lookup(
                dirty.committed(journal).accounts,
                address,
            ) == Some(journal[at].info),
        (forall|i: int| 0 <= i < journal.len() ==> (#[trigger] journal[i]).address != address)
            ==> lookup(dirty.committed(journal).accounts, address) == lookup(
            dirty.accounts,
            address,
        ),
    decreases journal.len(),
{
    if journal.len() > 0 {
        let fewer = journal.drop_last();
        let entry = journal.last();
        let last = journal.len() - 1;
        assert(journal[last] == entry);
        lemma_committed_accounts(dirty, fewer, address);
        let reached = dirty.committed(fewer).with_account(entry.address, entry.info);
        lemma_slots_keep_accounts(reached, entry.address, entry.storage);
        assert forall|at: int| #[trigger] is_last_entry(journal, address, at) implies lookup(
            dirty.committed(journal).accounts,
            address,
        ) == Some(journal[at].info) by {
            if at < last {
                assert(journal[last].address != address);
                assert forall|later: int| at < later < fewer.len() implies (
                #[trigger] fewer[later]).address != address by {
                    assert(journal[later].address != address);
                }
                assert(is_last_entry(fewer, address, at));
            }
        }
        if forall|i: int| 0 <= i < journal.len() ==> (#[trigger] journal[i]).address != address {
            assert forall|i: int| 0 <= i < fewer.len() implies (#[trigger] fewer[i]).address
                != address by {
                assert(journal[i].address != address);
            }
        }
    }
}

/// After a journal was committed, every slot in it reads the value last written
/// there, whatever the snapshot holds. Every other slot reads as before.
pub proof fn law_committed_slots_are_read_back(
    before: EvmOverlay,
    after: EvmOverlay,
    journal: Seq<JournalModel>,
    address: Address,
    slot: U256,
)
    requires
        after@ == before@.committed(journal),
        after.spec_snapshot() == before.spec_snapshot(),
    ensures
        forall|at: int, within: int| #[trigger]
            is_last_write(journal, address, slot, at, within) ==> after.spec_slot(address, slot)
                == Some(journal[at].storage[within].present_value),
        writes_nothing_to(journal, address, slot) ==> after.spec_slot(address, slot)
            == before.spec_slot(address, slot),
{
    lemma_committed_slots(before@, journal, address, slot);
}

/// What a journal leaves of a slot.
proof fn lemma_committed_slots(
    dirty: DirtyModel,
    journal: Seq<JournalModel>,
    address: Address,
    slot: U256,
)
    ensures
        forall|at: int, within: int| #[trigger]
            is_last_write(journal, address, slot, at, within) ==> lookup(
                slots_at(dirty.committed(journal).storage, address),
                slot,
            ) == Some(journal[at].storage[within].present_value),
        writes_nothing_to(journal, address, slot) ==> lookup(
            slots_at(dirty.committed(journal).storage, address),
            slot,
        ) == lookup(slots_at(dirty.storage, address), slot),
    decreases journal.len(),
{
    if journal.len() > 0 {
        let fewer = journal.drop_last();
        let entry = journal.last();
        let last = journal.len() - 1;
        assert(journal[last] == entry);
        lemma_committed_slots(dirty, fewer, address, slot);
        let reached = dirty.committed(fewer).with_account(entry.address, entry.info);
        lemma_slots_leave(reached, entry.address, entry.storage, address, slot);
        assert(reached.storage == dirty.committed(fewer).storage);
        assert forall|at: int, within: int| #[trigger]
            is_last_write(journal, address, slot, at, within) implies lookup(
            slots_at(dirty.committed(journal).storage, address),
            slot,
        ) == Some(journal[at].storage[within].present_value) by {
            if at < last {
                assert forall|later: int, k: int|
                    at < later < fewer.len() && fewer[later].address == address && 0 <= k
                        < fewer[later].storage.len() implies (#[trigger] fewer[later].storage[k]).slot
                    != slot by {
                    assert(journal[later].storage[k].slot != slot);
                }
                assert(is_last_write(fewer, address, slot, at, within));
                if entry.address == address {
                    assert forall|k: int| 0 <= k < entry.storage.len() implies (
                    #[trigger] entry.storage[k]).slot != slot by {
                        assert(journal[last].storage[k].slot != slot);
                    }
                }
            } else {
                assert(entry.storage[within].slot == slot);
                assert forall|later: int| within < later < entry.storage.len() implies (
                #[trigger] entry.storage[later]).slot != slot by {
                    assert(journal[at].storage[later].slot != slot);
                }
            }
        }
        if writes_nothing_to(journal, address, slot) {
            assert forall|i: int, k: int|
                0 <= i < fewer.len() && fewer[i].address == address && 0 <= k
                    < fewer[i].storage.len() implies (#[trigger] fewer[i].storage[k]).slot
                != slot by {
                assert(journal[i].storage[k].slot != slot);
            }
            if entry.address == address {
                assert forall|k: int| 0 <= k < entry.storage.len() implies (
                #[trigger] entry.storage[k]).slot != slot by {
                    assert(journal[last].storage[k].slot != slot);
                }
            }
        }
    }
}

/// After a fetched account was taken in, it reads as it was fetched, whatever the
/// snapshot holds. Every other account and every slot reads as before.
pub proof fn law_absorbed_accounts_are_read_back(
    before: EvmOverlay,
    after: EvmOverlay,
    address: Address,
    info: InfoModel,
    other: Address,
    slot: U256,
)
    requires
        after@ == before@.with_account(address, info),
        after.spec_snapshot() == before.spec_snapshot(),
    ensures
        after.spec_account(address) == AccountReadModel::Known(Some(info)),
        other != address ==> after.spec_account(other) == before.spec_account(other),
        after.spec_slot(other, slot) == before.spec_slot(other, slot),
{
}

/// Two overlays that changed or fetched the same account, or wrote the same slot,
/// read it alike, whatever their snapshots hold. What neither changed each reads
/// from its snapshot.
pub proof fn law_changes_hide_the_snapshot(
    one: EvmOverlay,
    another: EvmOverlay,
    address: Address,
    slot: U256,
)
    requires
        one@ == another@,
    ensures
        one@.accounts.contains_key(address) ==> one.spec_account(address)
            == another.spec_account(address),
        slots_at(one@.storage, address).contains_key(slot) ==> one.spec_slot(address, slot)
            == another.spec_slot(address, slot),
        !slots_at(one@.storage, address).contains_key(slot) ==> one.spec_slot(address, slot)
            == one.spec_snapshot().spec_storage_value(address, slot),
        !one@.accounts.contains_key(address) && one.spec_snapshot().spec_account_info(
            address,
        ) is Some && !one.spec_snapshot().accounts_not_existing@.contains(address)
            ==> one.spec_account(address) == AccountReadModel::Known(
            one.spec_snapshot().spec_account_info(address),
        ),
        !one@.accounts.contains_key(address)
            && one.spec_snapshot().accounts_not_existing@.contains(address)
            ==> one.spec_account(address) == AccountReadModel::Known(None),
{
}

/// A code is found by its hash in the accounts that a simulation changed: where one
/// of them has it, what is read is the code of an account with that hash; where none
/// has, it is what the snapshot holds.
pub proof fn law_changed_codes_are_found(overlay: EvmOverlay, hash: B256)
    requires
        overlay@.accounts.dom().finite(),
    ensures
        (exists|a: Address|
            overlay@.accounts.contains_key(a) && (#[trigger] overlay@.accounts[a]).code_hash
                == hash && overlay@.accounts[a].code is Some) ==> exists|a: Address|
            overlay@.accounts.contains_key(a) && (#[trigger] overlay@.accounts[a]).code_hash
                == hash && overlay@.accounts[a].code is Some && overlay.spec_code(hash)
                == overlay@.accounts[a].code,
        (forall|a: Address|
            overlay@.accounts.contains_key(a) && (#[trigger] overlay@.accounts[a]).code_hash
                == hash ==> overlay@.accounts[a].code is None) ==> overlay.spec_code(hash)
            == overlay.spec_snapshot().spec_code(hash),
{
    let accounts = overlay@.accounts;
    let order = crate::collections::in_order(accounts.dom());
    crate::collections::lemma_in_order_lists(accounts.dom());
    lemma_first_code(accounts, order, hash);
    assert forall|i: int| 0 <= i < order.len() implies accounts.contains_key(
        #[trigger] order[i],
    ) by {
        assert(order.to_set().contains(order[i]));
    }
    if exists|a: Address|
        accounts.contains_key(a) && (#[trigger] accounts[a]).code_hash == hash
            && accounts[a].code is Some {
        let a = choose|a: Address|
            accounts.contains_key(a) && (#[trigger] accounts[a]).code_hash == hash
                && accounts[a].code is Some;
        assert(order.to_set().contains(a));
        let i = choose|i: int| 0 <= i < order.len() && order[i] == a;
        assert(accounts[order[i]].code is Some);
        let k = choose|k: int|
            0 <= k < order.len() && accounts[#[trigger] order[k]].code_hash == hash
                && accounts[order[k]].code is Some && first_code(accounts, order, hash)
                == accounts[order[k]].code;
        assert(accounts.contains_key(order[k]));
        assert(overlay.spec_code(hash) == accounts[order[k]].code);
    }
}

/// The first code of a hash is one of them, and there is one where any account has
/// it.
proof fn lemma_first_code(accounts: Map<Address, InfoModel>, order: Seq<Address>, hash: B256)
    ensures
        match first_code(accounts, order, hash) {
            Some(code) => exists|k: int|
                0 <= k < order.len() && accounts[#[trigger] order[k]].code_hash == hash
                    && accounts[order[k]].code == Some(code),
            None => forall|k: int|
                0 <= k < order.len() && accounts[#[trigger] order[k]].code_hash == hash
                    ==> accounts[order[k]].code is None,
        },
    decreases order.len(),
{
    if order.len() > 0 {
        let rest = order.drop_first();
        lemma_first_code(accounts, rest, hash);
        let info = accounts[order.first()];
        assert(order[0] == order.first());
        if !(info.code_hash == hash && info.code is Some) {
            match first_code(accounts, rest, hash) {
                Some(code) => {
                    let k = choose|k: int|
                        0 <= k < rest.len() && accounts[#[trigger] rest[k]].code_hash == hash
                            && accounts[rest[k]].code == Some(code);
                    assert(order[k + 1] == rest[k]);
                },
                None => {
                    assert forall|k: int|
                        0 <= k < order.len() && accounts[#[trigger] order[k]].code_hash
                            == hash implies accounts[order[k]].code is None by {
                        if k > 0 {
                            assert(rest[k - 1] == order[k]);
                        }
                    }
                },
            }
        }
    }
}

} // verus!
