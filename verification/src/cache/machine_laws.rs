//! What executions leave in the cache, and what they load into it.

use crate::cache::account::{AccountState, InfoModel};
use crate::cache::journal::JournalSlot;
use crate::cache::layers::{lookup, slots_at, LayersModel};
use crate::cache::machine_state::{with_journal_slots, ChangeModel};
use crate::foreign::spec_keccak_empty;
use crate::primitives::{Address, U256};
use vstd::prelude::*;

verus! {

/// Whether an item is the last write to a slot.
pub open spec fn is_last_slot(journal: Seq<JournalSlot>, slot: U256, at: int) -> bool {
    &&& 0 <= at < journal.len()
    &&& journal[at].slot == slot
    &&& forall|later: int| at < later < journal.len() ==> (#[trigger] journal[later]).slot != slot
}

/// Of several writes to a slot the last one counts; slots that were not written to are
/// as they were.
pub proof fn law_the_last_write_counts(
    slots: Map<U256, U256>,
    journal: Seq<JournalSlot>,
    slot: U256,
)
    ensures
        forall|at: int| #[trigger]
            is_last_slot(journal, slot, at) ==> lookup(with_journal_slots(slots, journal), slot)
                == Some(journal[at].present_value),
        (forall|i: int| 0 <= i < journal.len() ==> (#[trigger] journal[i]).slot != slot) ==> lookup(
            with_journal_slots(slots, journal),
            slot,
        ) == lookup(slots, slot),
    decreases journal.len(),
{
    if journal.len() > 0 {
        let fewer = journal.drop_last();
        let last = journal.len() - 1;
        assert(journal[last] == journal.last());
        law_the_last_write_counts(slots, fewer, slot);
        assert forall|i: int| 0 <= i < fewer.len() implies #[trigger] fewer[i] == journal[i] by {}
        assert forall|at: int| #[trigger] is_last_slot(journal, slot, at) implies lookup(
            with_journal_slots(slots, journal),
            slot,
        ) == Some(journal[at].present_value) by {
            if at < last {
                assert(journal[last].slot != slot);
                assert forall|later: int| at < later < fewer.len() implies (
                #[trigger] fewer[later]).slot != slot by {
                    assert(journal[later].slot != slot);
                }
                assert(is_last_slot(fewer, slot, at));
            }
        }
        if forall|i: int| 0 <= i < journal.len() ==> (#[trigger] journal[i]).slot != slot {
            assert forall|i: int| 0 <= i < fewer.len() implies (#[trigger] fewer[i]).slot
                != slot by {
                assert(journal[i].slot != slot);
            }
            assert(journal[last].slot != slot);
        }
    }
}

/// What an execution changed is read back: a touched account has the balance, the nonce
/// and the code it was left with, and each slot the value last written to it. A slot that
/// was not written to reads zero in an account that was created, and as before in one
/// that was there. An account that destroyed itself is gone and reads zero from all slots.
/// What was not touched, every other account and the backend stay as they were.
pub proof fn law_committed_changes_are_read_back(
    layers: LayersModel,
    change: ChangeModel,
    slot: U256,
    other: Address,
    other_slot: U256,
)
    ensures
        ({
            let after = layers.with_change(change);
            let address = change.address;
            let unwritten = forall|i: int|
                0 <= i < change.storage.len() ==> (#[trigger] change.storage[i]).slot != slot;
            &&& after.accounts == layers.accounts
            &&& after.storage == layers.storage
            &&& other != address ==> after.info(other) == layers.info(other) && after.slot(
                other,
                other_slot,
            ) == layers.slot(other, other_slot)
            &&& !change.touched ==> after == layers
            &&& change.touched && change.selfdestructed ==> after.info(address) is None
                && after.slot(address, slot) == Some(U256::spec_zero())
            &&& change.touched && !change.selfdestructed ==> {
                &&& after.info(address) is Some
                &&& after.info(address)->0.balance == change.info.balance
                &&& after.info(address)->0.nonce == change.info.nonce
                &&& after.info(address)->0.code == change.info.code
                &&& change.info.code_hash@ != 0 && !(change.info.has_code()
                    && change.info.code_hash == spec_keccak_empty()) ==> after.info(
                    address,
                )->0.code_hash == change.info.code_hash
                &&& forall|at: int| #[trigger]
                    is_last_slot(change.storage, slot, at) ==> after.slot(address, slot) == Some(
                        change.storage[at].present_value,
                    )
                &&& unwritten && change.created ==> after.slot(address, slot) == Some(
                    U256::spec_zero(),
                )
                &&& unwritten && !change.created && !(layers.overlay.contains_key(address)
                    && layers.overlay[address].account_state == AccountState::NotExisting)
                    ==> after.slot(address, slot) == layers.slot(address, slot)
            }
        }),
{
    if change.touched && !change.selfdestructed {
        let held = if layers.overlay.contains_key(change.address) {
            layers.overlay[change.address].storage
        } else {
            Map::empty()
        };
        law_the_last_write_counts(held, change.storage, slot);
        law_the_last_write_counts(Map::empty(), change.storage, slot);
    }
}

/// After several changes in order, an account reads as the last of them that touched it
/// left it; one that none touched reads as before. The backend is never written to.
pub proof fn law_the_last_change_counts(
    layers: LayersModel,
    changes: Seq<ChangeModel>,
    address: Address,
    slot: U256,
)
    ensures
        layers.with_changes(changes).accounts == layers.accounts,
        layers.with_changes(changes).storage == layers.storage,
        (forall|i: int|
            0 <= i < changes.len() && (#[trigger] changes[i]).address == address
                ==> !changes[i].touched) ==> layers.with_changes(changes).info(address)
            == layers.info(address) && layers.with_changes(changes).slot(address, slot)
            == layers.slot(address, slot),
        forall|at: int|
            0 <= at < changes.len() && (#[trigger] changes[at]).address == address
                && changes[at].touched && (forall|later: int|
                at < later < changes.len() && (#[trigger] changes[later]).address == address
                    ==> !changes[later].touched) ==> {
                let now = layers.with_changes(changes).info(address);
                &&& changes[at].selfdestructed ==> now is None
                &&& !changes[at].selfdestructed ==> now is Some && now->0.balance
                    == changes[at].info.balance && now->0.nonce == changes[at].info.nonce
                    && now->0.code == changes[at].info.code
            },
    decreases changes.len(),
{
    if changes.len() > 0 {
        let fewer = changes.drop_last();
        let last = changes.len() - 1;
        let before = layers.with_changes(fewer);
        assert(changes[last] == changes.last());
        law_the_last_change_counts(layers, fewer, address, slot);
        law_committed_changes_are_read_back(before, changes[last], slot, address, slot);
        assert forall|i: int| 0 <= i < fewer.len() implies #[trigger] fewer[i] == changes[i] by {}
        if forall|i: int|
            0 <= i < changes.len() && (#[trigger] changes[i]).address == address
                ==> !changes[i].touched {
            assert forall|i: int|
                0 <= i < fewer.len() && (#[trigger] fewer[i]).address
                    == address implies !fewer[i].touched by {
                assert(!changes[i].touched);
            }
            assert(changes[last].address == address ==> !changes[last].touched);
        }
        assert forall|at: int|
            0 <= at < changes.len() && (#[trigger] changes[at]).address == address
                && changes[at].touched && (forall|later: int|
                at < later < changes.len() && (#[trigger] changes[later]).address == address
                    ==> !changes[later].touched) implies {
            let now = layers.with_changes(changes).info(address);
            &&& changes[at].selfdestructed ==> now is None
            &&& !changes[at].selfdestructed ==> now is Some && now->0.balance
                == changes[at].info.balance && now->0.nonce == changes[at].info.nonce
                && now->0.code == changes[at].info.code
        } by {
            if at < last {
                assert(changes[last].address == address ==> !changes[last].touched);
                assert(fewer[at].touched);
                assert forall|later: int|
                    at < later < fewer.len() && (#[trigger] fewer[later]).address
                        == address implies !fewer[later].touched by {
                    assert(!changes[later].touched);
                }
            }
        }
    }
}

/// An account that an execution loads is seen as the overlay has it, else as the backend
/// has it, else as fetched; one that is nowhere is seen not to exist. What was fetched
/// stays in the backend. No other account is touched, and no slot of this one is read
/// otherwise where it exists.
pub proof fn law_loaded_accounts_are_seen(
    layers: LayersModel,
    address: Address,
    fetched: Option<InfoModel>,
    other: Address,
    slot: U256,
)
    ensures
        ({
            let after = layers.with_loaded_account(address, fetched);
            &&& layers.overlay.contains_key(address) ==> after == layers
            &&& !layers.overlay.contains_key(address) && layers.accounts.contains_key(address)
                ==> after.seen_account(address) == Some(layers.accounts[address])
                && after.accounts == layers.accounts
            &&& !layers.overlay.contains_key(address) && !layers.accounts.contains_key(address)
                ==> after.seen_account(address) == fetched && lookup(after.accounts, address)
                == fetched
            &&& after.overlay.contains_key(address)
            &&& other != address ==> lookup(after.overlay, other) == lookup(layers.overlay, other)
                && lookup(after.accounts, other) == lookup(layers.accounts, other)
            &&& after.storage == layers.storage
            &&& after.seen_account(address) is Some ==> after.slot(address, slot) == layers.slot(
                address,
                slot,
            )
            &&& after.with_loaded_account(address, fetched) == after
        }),
{
}

/// A slot that an execution loads is seen as it is cached, else as fetched, and what was
/// fetched stays in the backend. Nothing else is touched.
pub proof fn law_loaded_slots_are_seen(
    layers: LayersModel,
    address: Address,
    slot: U256,
    fetched: U256,
    other: Address,
    other_slot: U256,
)
    ensures
        ({
            let after = layers.with_loaded_slot(address, slot, fetched);
            let seen = layers.loaded_slot(address, slot, fetched);
            &&& layers.slot(address, slot) matches Some(value) ==> seen == value
            &&& layers.slot(address, slot) is None ==> seen == fetched && lookup(
                slots_at(after.storage, address),
                slot,
            ) == Some(fetched)
            &&& after.slot(address, slot) == Some(seen)
            &&& (other, other_slot) != (address, slot) ==> after.slot(other, other_slot)
                == layers.slot(other, other_slot)
            &&& after.info(other) == layers.info(other)
            &&& after.accounts == layers.accounts
            &&& layers.overlay.contains_key(address) && (
            layers.overlay[address].storage.contains_key(slot)
                || layers.overlay[address].account_state.spec_clears_storage()) ==> after == layers
            &&& after.overlay.dom() == layers.overlay.dom()
        }),
{
    let after = layers.with_loaded_slot(address, slot, fetched);
    assert(after.overlay.dom() =~= layers.overlay.dom());
}

} // verus!
