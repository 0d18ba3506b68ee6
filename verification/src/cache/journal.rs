//! What an execution leaves in its journal, as plain data.

use crate::access_list::{entries_of, AccessList, AccessListItem, Entry};
use crate::access_set::{key_of, AccessModel, StorageAccessList};
use crate::cache::account::{AccountInfo, InfoModel};
use crate::primitives::{Address, SlotKey, B256, U256};
use vstd::prelude::*;

verus! {

/// A slot that an execution accessed, and the value it holds now.
#[derive(Clone, Copy, Debug, PartialEq, Eq, Structural)]
pub struct JournalSlot {
    /// The slot.
    pub slot: U256,
    /// The value.
    pub present_value: U256,
}

/// An account that an execution loaded.
#[derive(Debug, PartialEq, Eq)]
pub struct JournalAccount {
    /// The account.
    pub address: Address,
    /// Whether it was touched.
    pub touched: bool,
    /// Balance, nonce and code now.
    pub info: AccountInfo,
    /// The slots that were accessed.
    pub storage: Vec<JournalSlot>,
}

/// What a journal account holds.
#[verifier::ext_equal]
pub struct JournalModel {
    /// The account.
    pub address: Address,
    /// Whether it was touched.
    pub touched: bool,
    /// Balance, nonce and code now.
    pub info: InfoModel,
    /// The slots that were accessed.
    pub storage: Seq<JournalSlot>,
}

impl View for JournalAccount {
    type V = JournalModel;

    open spec fn view(&self) -> JournalModel {
        JournalModel {
            address: self.address,
            touched: self.touched,
            info: self.info@,
            storage: self.storage@,
        }
    }
}

/// What a journal holds.
pub open spec fn journal_model(journal: Seq<JournalAccount>) -> Seq<JournalModel> {
    journal.map_values(|account: JournalAccount| account@)
}

/// The storage keys of slots.
pub open spec fn storage_keys(storage: Seq<JournalSlot>) -> Seq<B256> {
    storage.map_values(|slot: JournalSlot| key_of(slot.slot))
}

/// The access list of a journal: an entry for each touched account, with the
/// keys of its slots, in the journal's order.
pub open spec fn touched_entries(journal: Seq<JournalModel>) -> Seq<Entry>
    decreases journal.len(),
{
    if journal.len() == 0 {
        Seq::empty()
    } else {
        let entries = touched_entries(journal.drop_last());
        let account = journal.last();
        if account.touched {
            entries.push((account.address, storage_keys(account.storage)))
        } else {
            entries
        }
    }
}

/// The access list of a journal.
pub fn extract_access_list(journal: &Vec<JournalAccount>) -> (r: AccessList)
    ensures
        r@ == touched_entries(journal_model(journal@)),
{
    let mut items: Vec<AccessListItem> = Vec::new();
    let ghost model = journal_model(journal@);
    let mut i: usize = 0;
    proof {
        assert(model.take(0) =~= Seq::empty());
        assert(entries_of(items@) =~= Seq::empty());
    }
    while i < journal.len()
        invariant
            i <= journal.len(),
            model == journal_model(journal@),
            entries_of(items@) == touched_entries(model.take(i as int)),
        decreases journal.len() - i,
    {
        proof {
            assert(model.take(i as int + 1).drop_last() =~= model.take(i as int));
        }
        if journal[i].touched {
            let slots: &Vec<JournalSlot> = &journal[i].storage;
            let mut keys: Vec<B256> = Vec::new();
            let mut k: usize = 0;
            while k < slots.len()
                invariant
                    k <= slots.len(),
                    keys@ =~= storage_keys(slots@).take(k as int),
                decreases slots.len() - k,
            {
                keys.push(B256 { hi: slots[k].slot.hi, lo: slots[k].slot.lo });
                k = k + 1;
            }
            assert(keys@ =~= storage_keys(slots@));
            let ghost before = items@;
            let item = AccessListItem { address: journal[i].address, storage_keys: keys };
            items.push(item);
            assert(entries_of(items@) =~= entries_of(before).push(item@));
        }
        i = i + 1;
    }
    assert(model.take(i as int) =~= model);
    AccessList { items }
}

/// Whether a journal touched an account.
pub open spec fn touches(journal: Seq<JournalModel>, address: Address) -> bool {
    exists|i: int|
        0 <= i < journal.len() && (#[trigger] journal[i]).touched && journal[i].address == address
}

/// Whether a journal accessed a slot of an account it touched.
pub open spec fn touches_slot(journal: Seq<JournalModel>, key: SlotKey) -> bool {
    exists|i: int, k: int|
        0 <= i < journal.len() && journal[i].touched && journal[i].address == key.address && 0 <= k
            < journal[i].storage.len() && (#[trigger] journal[i].storage[k]).slot == key.slot
}

/// What a journal touched.
pub open spec fn touched_set(journal: Seq<JournalModel>) -> AccessModel {
    AccessModel {
        accounts: Set::new(|a: Address| touches(journal, a)),
        code_hashes: Set::empty(),
        slots: Set::new(|key: SlotKey| touches_slot(journal, key)),
        block_numbers: Set::empty(),
    }
}

/// What a journal touched.
pub fn touched_access(journal: &Vec<JournalAccount>) -> (r: StorageAccessList)
    ensures
        r@ == touched_set(journal_model(journal@)),
{
    let mut touched = StorageAccessList::default();
    let ghost model = journal_model(journal@);
    let mut i: usize = 0;
    assert(touched@ =~= touched_set(model.take(0)));
    while i < journal.len()
        invariant
            i <= journal.len(),
            model == journal_model(journal@),
            touched@ == touched_set(model.take(i as int)),
        decreases journal.len() - i,
    {
        let ghost earlier = model.take(i as int);
        let ghost now = model.take(i as int + 1);
        let ghost account = model[i as int];
        proof {
            assert(now =~= earlier.push(account));
            assert forall|j: int| 0 <= j < i implies #[trigger] now[j] == earlier[j] by {}
        }
        if journal[i].touched {
            let address: Address = journal[i].address;
            let slots: &Vec<JournalSlot> = &journal[i].storage;
            touched.accounts.insert(address);
            let ghost slots_before = touched.slots@;
            let mut k: usize = 0;
            while k < slots.len()
                invariant
                    k <= slots.len(),
                    touched.accounts@ == touched_set(earlier).accounts.insert(address),
                    touched.code_hashes@ == Set::<B256>::empty(),
                    touched.block_numbers@ == Set::<u64>::empty(),
                    forall|key: SlotKey| #[trigger]
                        touched.slots@.contains(key) <==> slots_before.contains(key) || (key.address
                            == address && exists|j: int|
                            0 <= j < k && (#[trigger] slots@[j]).slot == key.slot),
                decreases slots.len() - k,
            {
                touched.slots.insert(SlotKey { address, slot: slots[k].slot });
                k = k + 1;
            }
            proof {
                assert(account.storage == slots@);
                assert forall|a: Address| #[trigger] touched.accounts@.contains(a) == touches(
                    now,
                    a,
                ) by {
                    lemma_touches(earlier, account, now, a);
                }
                assert forall|key: SlotKey| #[trigger] touched.slots@.contains(key) == touches_slot(
                    now,
                    key,
                ) by {
                    lemma_touches_slot(earlier, account, now, key);
                }
            }
        } else {
            proof {
                assert forall|a: Address| touches(earlier, a) == touches(now, a) by {
                    lemma_touches(earlier, account, now, a);
                }
                assert forall|key: SlotKey| touches_slot(earlier, key) == touches_slot(
                    now,
                    key,
                ) by {
                    lemma_touches_slot(earlier, account, now, key);
                }
            }
        }
        assert(touched@ =~= touched_set(now));
        i = i + 1;
    }
    assert(model.take(i as int) =~= model);
    touched
}

/// An account is touched where it was before, or where it is the last one.
proof fn lemma_touches(
    earlier: Seq<JournalModel>,
    account: JournalModel,
    now: Seq<JournalModel>,
    address: Address,
)
    requires
        now == earlier.push(account),
    ensures
        touches(now, address) <==> touches(earlier, address) || (account.touched && account.address
            == address),
{
    if touches(earlier, address) {
        let i = choose|i: int|
            0 <= i < earlier.len() && (#[trigger] earlier[i]).touched && earlier[i].address
                == address;
        assert(now[i].touched);
    }
    if account.touched && account.address == address {
        assert(now[earlier.len() as int].touched);
    }
    if touches(now, address) {
        let i = choose|i: int|
            0 <= i < now.len() && (#[trigger] now[i]).touched && now[i].address == address;
        if i < earlier.len() {
            assert(earlier[i].touched);
        }
    }
}

/// A slot is accessed where it was before, or where the last account has it.
proof fn lemma_touches_slot(
    earlier: Seq<JournalModel>,
    account: JournalModel,
    now: Seq<JournalModel>,
    key: SlotKey,
)
    requires
        now == earlier.push(account),
    ensures
        touches_slot(now, key) <==> touches_slot(earlier, key) || (account.touched
            && account.address == key.address && exists|k: int|
            0 <= k < account.storage.len() && (#[trigger] account.storage[k]).slot == key.slot),
{
    if touches_slot(earlier, key) {
        let (i, k) = choose|i: int, k: int|
            0 <= i < earlier.len() && earlier[i].touched && earlier[i].address == key.address && 0
                <= k < earlier[i].storage.len() && (#[trigger] earlier[i].storage[k]).slot
                == key.slot;
        assert(now[i].storage[k].slot == key.slot);
    }
    if account.touched && account.address == key.address && exists|k: int|
        0 <= k < account.storage.len() && (#[trigger] account.storage[k]).slot == key.slot {
        let k = choose|k: int|
            0 <= k < account.storage.len() && (#[trigger] account.storage[k]).slot == key.slot;
        assert(now[earlier.len() as int].storage[k].slot == key.slot);
    }
    if touches_slot(now, key) {
        let (i, k) = choose|i: int, k: int|
            0 <= i < now.len() && now[i].touched && now[i].address == key.address && 0 <= k
                < now[i].storage.len() && (#[trigger] now[i].storage[k]).slot == key.slot;
        if i < earlier.len() {
            assert(earlier[i].storage[k].slot == key.slot);
        } else {
            assert(account.storage[k].slot == key.slot);
        }
    }
}

} // verus!
