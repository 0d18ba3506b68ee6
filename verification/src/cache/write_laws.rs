//! What direct writes to the layers do to what is read afterwards.

use crate::access_list::AccessList;
use crate::cache::account::{AccountState, InfoModel};
use crate::cache::code_seeds::CodeSeedState;
use crate::cache::delta_run::{DeltaAction, DeltaState};
use crate::cache::evm_cache::{
    batch_steps, injected, later_generation, marks_after_all, next_generation, EvmCache,
};
use crate::cache::layers::{lookup, slot_sum, slots_at, LayersModel};
use crate::cache::state_update::{AccountChange, ScopeModel, SlotChange, UpdateModel};
use crate::cache::update_laws::is_last_value;
use crate::cache::writes::{
    balance_decision, purged_total, slot_decision, without_storages,
};
use crate::errors::CacheError;
use crate::execution::{ExecutionModel, ExecutionResult};
use crate::foreign::spec_keccak_empty;
use crate::primitives::{Address, U256};
use vstd::prelude::*;

verus! {

/// Setting a balance sets it wherever the account is held, and nothing else: not its
/// nonce, not its code, not another account and no slot. An account that is held
/// nowhere stays so.
pub proof fn law_balances_are_set_where_held(
    layers: LayersModel,
    address: Address,
    balance: U256,
    other: Address,
    slot: U256,
)
    ensures
        ({
            let after = layers.with_balance(address, balance);
            &&& after.info(address) is Some <==> layers.info(address) is Some
            &&& layers.info(address) matches Some(info) ==> {
                let now = after.info(address)->0;
                &&& now.balance == balance
                &&& now.nonce == info.nonce
                &&& now.code_hash == info.code_hash
                &&& now.code == info.code
            }
            &&& after.overlay.contains_key(address) <==> layers.overlay.contains_key(address)
            &&& after.accounts.contains_key(address) <==> layers.accounts.contains_key(address)
            &&& layers.overlay.contains_key(address) ==> after.overlay[address].info.balance
                == balance
            &&& layers.accounts.contains_key(address) ==> after.accounts[address].balance == balance
            &&& other != address ==> after.info(other) == layers.info(other)
            &&& after.slot(other, slot) == layers.slot(other, slot)
        }),
{
}

/// An account that is put into the overlay reads as it was put there, and exists from
/// then on. Its slots read as before, unless it was known not to exist. The backend
/// and other accounts stay as they were.
pub proof fn law_installed_accounts_are_read_back(
    layers: LayersModel,
    address: Address,
    info: InfoModel,
    other: Address,
    slot: U256,
)
    ensures
        ({
            let after = layers.with_overlay_info(address, info);
            &&& after.info(address) is Some
            &&& after.info(address)->0.balance == info.balance
            &&& after.info(address)->0.nonce == info.nonce
            &&& after.info(address)->0.code == info.code
            &&& !(info.has_code() && info.code_hash == spec_keccak_empty()) && info.code_hash@ != 0
                ==> after.info(address)->0.code_hash == info.code_hash
            &&& other != address ==> after.info(other) == layers.info(other)
            &&& other != address || !layers.overlay.contains_key(address)
                || layers.overlay[address].account_state != AccountState::NotExisting
                ==> after.slot(other, slot) == layers.slot(other, slot)
            &&& after.accounts == layers.accounts
            &&& after.storage == layers.storage
        }),
{
}

/// An account that is written everywhere reads so, and is held so by the backend.
pub proof fn law_accounts_written_everywhere_are_read_back(
    layers: LayersModel,
    address: Address,
    info: InfoModel,
    other: Address,
)
    ensures
        ({
            let after = layers.with_info_everywhere(address, info);
            &&& after.info(address) is Some
            &&& after.info(address)->0.balance == info.balance
            &&& after.info(address)->0.nonce == info.nonce
            &&& after.info(address)->0.code == info.code
            &&& after.overlay.contains_key(address)
            &&& after.accounts.contains_key(address)
            &&& after.accounts[address] == info
            &&& other != address ==> after.info(other) == layers.info(other)
            &&& after.storage == layers.storage
        }),
{
}

/// A write to the backend alone is held there, leaves the overlay and everything else
/// as it was, and is read where the overlay does not hide it.
pub proof fn law_backend_writes_are_held(
    layers: LayersModel,
    address: Address,
    slot: U256,
    value: U256,
    info: InfoModel,
    other: Address,
    other_slot: U256,
)
    ensures
        ({
            let after = layers.with_backend_slot(address, slot, value);
            &&& lookup(slots_at(after.storage, address), slot) == Some(value)
            &&& (other, other_slot) != (address, slot) ==> lookup(
                slots_at(after.storage, other),
                other_slot,
            ) == lookup(slots_at(layers.storage, other), other_slot)
            &&& after.overlay == layers.overlay
            &&& after.accounts == layers.accounts
            &&& !layers.overlay.contains_key(address) ==> after.slot(address, slot) == Some(value)
        }),
        ({
            let after = layers.with_backend_info(address, info);
            &&& lookup(after.accounts, address) == Some(info)
            &&& other != address ==> lookup(after.accounts, other) == lookup(
                layers.accounts,
                other,
            )
            &&& after.overlay == layers.overlay
            &&& after.storage == layers.storage
            &&& !layers.overlay.contains_key(address) ==> after.info(address) is Some
                && after.info(address)->0.balance == info.balance && after.info(address)->0.nonce
                == info.nonce && after.info(address)->0.code == info.code
        }),
{
}

/// A slot that is written to the overlay reads the value written, and the backend is
/// not touched. The account reads as before; where it was in neither layer it reads as
/// fetched, or as one that does not exist.
pub proof fn law_overlay_slots_are_read_back(
    layers: LayersModel,
    address: Address,
    slot: U256,
    value: U256,
    fetched: Option<InfoModel>,
    other: Address,
    other_slot: U256,
)
    ensures
        ({
            let after = layers.with_overlay_slot(address, slot, value, fetched);
            &&& after.slot(address, slot) == Some(value)
            &&& other != address ==> after.slot(other, other_slot) == layers.slot(
                other,
                other_slot,
            ) && after.info(other) == layers.info(other)
            &&& other_slot != slot && (layers.overlay.contains_key(address) || fetched is Some)
                ==> after.slot(address, other_slot) == layers.slot(address, other_slot)
            &&& other_slot != slot && !layers.overlay.contains_key(address) && fetched is None
                ==> after.slot(address, other_slot) == Some(U256::spec_zero())
            &&& layers.overlay.contains_key(address) ==> after.info(address) == layers.info(address)
            &&& !layers.overlay.contains_key(address) && fetched is None ==> after.info(
                address,
            ) is None
            &&& !layers.overlay.contains_key(address) && fetched is Some ==> {
                &&& after.info(address) is Some
                &&& after.info(address)->0.balance == fetched->0.balance
                &&& after.info(address)->0.nonce == fetched->0.nonce
                &&& after.info(address)->0.code == fetched->0.code
            }
            &&& after.accounts == layers.accounts
            &&& after.storage == layers.storage
        }),
{
}

/// Once all storage of all accounts is taken out, no slot is read but those known as
/// cleared, which read zero. All accounts stay.
pub proof fn law_no_storage_is_left(layers: LayersModel, address: Address, slot: U256)
    ensures
        ({
            let after = layers.without_any_storage();
            &&& after.info(address) == layers.info(address)
            &&& after.accounts == layers.accounts
            &&& after.slot(address, slot) == if layers.overlay.contains_key(address)
                && layers.overlay[address].account_state.spec_clears_storage() {
                Some(U256::spec_zero())
            } else {
                None
            }
        }),
{
}

/// Once the storage of some accounts is taken out, their slots are gone; all other
/// slots and all accounts are as before.
pub proof fn law_purged_contracts_have_no_storage(
    layers: LayersModel,
    addresses: Seq<Address>,
    address: Address,
    slot: U256,
)
    ensures
        ({
            let after = without_storages(layers, addresses);
            &&& after.info(address) == layers.info(address)
            &&& after.accounts == layers.accounts
            &&& after.overlay.contains_key(address) == layers.overlay.contains_key(address)
            &&& layers.overlay.contains_key(address) ==> after.overlay[address].account_state
                == layers.overlay[address].account_state && after.overlay[address].info
                == layers.overlay[address].info
            &&& !addresses.contains(address) ==> after.slot(address, slot) == layers.slot(
                address,
                slot,
            ) && slots_at(after.storage, address) == slots_at(layers.storage, address)
            &&& addresses.contains(address) ==> after.slot(address, slot)
                == if layers.overlay.contains_key(address)
                && layers.overlay[address].account_state.spec_clears_storage() {
                Some(U256::spec_zero())
            } else {
                None
            }
            &&& addresses.contains(address) ==> slots_at(after.storage, address) == Map::<
                U256,
                U256,
            >::empty()
        }),
    decreases addresses.len(),
{
    if addresses.len() > 0 {
        let fewer = addresses.drop_last();
        let last = addresses.len() - 1;
        assert(addresses[last] == addresses.last());
        law_purged_contracts_have_no_storage(layers, fewer, address, slot);
        if addresses.contains(address) && addresses.last() != address {
            let i = addresses.index_of(address);
            assert(fewer[i] == address);
        }
        if fewer.contains(address) {
            let i = fewer.index_of(address);
            assert(addresses[i] == address);
        }
    }
}

/// The slots that are counted for a list of accounts are those that the backend held
/// of each, an account that is named again counting nothing.
pub proof fn law_purged_slots_are_counted_once(
    layers: LayersModel,
    addresses: Seq<Address>,
    address: Address,
)
    ensures
        purged_total(layers, Seq::empty()) == 0,
        purged_total(layers, addresses.push(address)) == purged_total(layers, addresses)
            + if addresses.contains(address) {
            0
        } else {
            slots_at(layers.storage, address).len()
        },
{
    let more = addresses.push(address);
    assert(more.drop_last() =~= addresses);
    law_purged_contracts_have_no_storage(layers, addresses, address, U256::spec_zero());
}

/// Once slots were injected, the backend holds for each the value that came last, and
/// every other slot as before. The overlay and the accounts are not touched, so a slot
/// that the overlay holds reads as before.
pub proof fn law_injected_slots_are_held(
    layers: LayersModel,
    results: Seq<(Address, U256, U256)>,
    address: Address,
    slot: U256,
)
    ensures
        forall|at: int| #[trigger]
            is_last_value(results, address, slot, at) ==> lookup(
                slots_at(injected(layers, results).storage, address),
                slot,
            ) == Some(results[at].2),
        (forall|i: int|
            0 <= i < results.len() ==> !((#[trigger] results[i]).0 == address && results[i].1
                == slot)) ==> lookup(slots_at(injected(layers, results).storage, address), slot)
            == lookup(slots_at(layers.storage, address), slot),
        injected(layers, results).overlay == layers.overlay,
        injected(layers, results).accounts == layers.accounts,
        injected(layers, results).info(address) == layers.info(address),
    decreases results.len(),
{
    if results.len() > 0 {
        let fewer = results.drop_last();
        let last = results.len() - 1;
        assert(results[last] == results.last());
        law_injected_slots_are_held(layers, fewer, address, slot);
        assert forall|i: int| 0 <= i < fewer.len() implies #[trigger] fewer[i] == results[i] by {}
        assert forall|at: int| #[trigger]
            is_last_value(results, address, slot, at) implies lookup(
            slots_at(injected(layers, results).storage, address),
            slot,
        ) == Some(results[at].2) by {
            if at < last {
                assert(!(results[last].0 == address && results[last].1 == slot));
                assert forall|later: int| at < later < fewer.len() implies !((
                #[trigger] fewer[later]).0 == address && fewer[later].1 == slot) by {
                    assert(!(results[later].0 == address && results[later].1 == slot));
                }
                assert(is_last_value(fewer, address, slot, at));
            }
        }
        if forall|i: int|
            0 <= i < results.len() ==> !((#[trigger] results[i]).0 == address && results[i].1
                == slot) {
            assert forall|i: int| 0 <= i < fewer.len() implies !((#[trigger] fewer[i]).0
                == address && fewer[i].1 == slot) by {
                assert(!(results[i].0 == address && results[i].1 == slot));
            }
            assert(!(results[last].0 == address && results[last].1 == slot));
        }
    }
}

/// A slot for which a value was decided reads it, and a change is told with what was
/// read before (zero where nothing was) and after, exactly where the two differ. Where
/// nothing was decided nothing changes and nothing is told.
pub proof fn law_decided_slots_are_read_back(
    before: EvmCache,
    after: EvmCache,
    address: Address,
    slot: U256,
    decided: Option<U256>,
    told: Option<SlotChange>,
    other: Address,
    other_slot: U256,
)
    requires
        slot_decision(before, after, address, slot, decided, told),
    ensures
        decided matches Some(value) ==> after.layers@.slot(address, slot) == Some(value),
        decided is None ==> after == before && told is None,
        (other, other_slot) != (address, slot) ==> after.layers@.slot(other, other_slot)
            == before.layers@.slot(other, other_slot),
        after.layers@.info(other) == before.layers@.info(other),
        decided is Some ==> {
            let was = match before.layers@.slot(address, slot) {
                Some(value) => value,
                None => U256::spec_zero(),
            };
            &&& told is Some <==> was != decided->0
            &&& told matches Some(change) ==> change.address == address && change.slot == slot
                && change.old == was && change.new == decided->0
            &&& after.snapshot_generation != before.snapshot_generation
        },
{
}

/// An account for which a balance was decided reads it, keeps its nonce, and a change
/// is told exactly where the balance differs. An account that was not cached is created
/// with no nonce. Where nothing was decided nothing changes and nothing is told.
pub proof fn law_decided_balances_are_read_back(
    before: EvmCache,
    after: EvmCache,
    address: Address,
    decided: Option<U256>,
    told: Option<AccountChange>,
    other: Address,
)
    requires
        balance_decision(before, after, address, decided, told),
    ensures
        decided is None ==> after == before && told is None,
        other != address ==> after.layers@.info(other) == before.layers@.info(other),
        decided matches Some(balance) ==> {
            let was = before.layers@.info(address);
            let now = after.layers@.info(address);
            let held = match was {
                Some(info) => info.balance,
                None => U256::spec_zero(),
            };
            &&& now is Some
            &&& now->0.balance == balance
            &&& was matches Some(info) ==> now->0.nonce == info.nonce && now->0.code == info.code
            &&& was is None ==> now->0.nonce == 0 && !now->0.has_code()
            &&& told is Some <==> held != balance
            &&& told matches Some(change) ==> change.address == address && change.balance == Some(
                (held, balance),
            ) && change.nonce is None && change.code_hash is None
        },
{
}

/// Marks of accounts stay, but for those of accounts that are taken out whole.
pub proof fn law_marks_go_with_their_accounts(
    marks: Map<Address, CodeSeedState>,
    updates: Seq<UpdateModel>,
    address: Address,
)
    ensures
        ({
            let purged = exists|i: int|
                0 <= i < updates.len() && #[trigger] updates[i] == (UpdateModel::Purge {
                    address,
                    scope: ScopeModel::Account,
                });
            let after = marks_after_all(marks, updates);
            &&& purged ==> !after.contains_key(address)
            &&& !purged ==> lookup(after, address) == lookup(marks, address)
        }),
    decreases updates.len(),
{
    if updates.len() > 0 {
        let fewer = updates.drop_last();
        let last = updates.len() - 1;
        let gone = UpdateModel::Purge { address, scope: ScopeModel::Account };
        assert(updates[last] == updates.last());
        law_marks_go_with_their_accounts(marks, fewer, address);
        if exists|i: int| 0 <= i < updates.len() && #[trigger] updates[i] == gone {
            let i = choose|i: int| 0 <= i < updates.len() && #[trigger] updates[i] == gone;
            if i < last {
                assert(fewer[i] == gone);
            }
        }
        if exists|i: int| 0 <= i < fewer.len() && #[trigger] fewer[i] == gone {
            let i = choose|i: int| 0 <= i < fewer.len() && #[trigger] fewer[i] == gone;
            assert(updates[i] == gone);
        }
    }
}

/// The generation moves on by one with each step, and starts again after the last
/// number; every batch with an update in it moves it.
pub proof fn law_generations_move_on(generation: u64, steps: nat, updates: Seq<UpdateModel>)
    ensures
        generation < u64::MAX ==> next_generation(generation) == generation + 1,
        next_generation(u64::MAX) == 0,
        later_generation(generation, 0) == generation,
        generation + steps <= u64::MAX ==> later_generation(generation, steps) == generation
            + steps,
        updates.len() > 0 ==> batch_steps(updates) >= 1,
        updates.len() == 0 ==> batch_steps(updates) == 0,
        batch_steps(updates) <= updates.len() + 1,
    decreases steps, updates.len(),
{
    if steps > 0 {
        law_generations_move_on(generation, (steps - 1) as nat, updates);
    }
    if updates.len() > 0 {
        law_generations_move_on(generation, steps, updates.drop_last());
    }
}

/// A balance that was read is recorded for the token that was asked for, before or
/// after the call as asked, with what it touched; a read that failed ends the run. A
/// call that succeeded is recorded, and one that did not ends the run.
pub proof fn law_measurements_are_recorded(
    state: DeltaState,
    tokens: Seq<Address>,
    answer: Result<(U256, AccessList), CacheError>,
    result: ExecutionResult,
    touched: AccessList,
)
    ensures
        ({
            let next = state.with_balance(tokens, answer);
            &&& answer matches Ok(read) ==> {
                &&& state.next(tokens) matches DeltaAction::ReadBefore { token } ==> next.before
                    == state.before.push((token, read.0)) && next.after == state.after
                    && next.touched == state.touched.push(read.1) && next.call == state.call
                    && next.failure is None
                &&& state.next(tokens) matches DeltaAction::ReadAfter { token } ==> next.after
                    == state.after.push((token, read.0)) && next.before == state.before
                    && next.touched == state.touched.push(read.1) && next.call == state.call
                    && next.failure is None
            }
            &&& answer matches Err(error) ==> next.failure == Some(error) && next.next(
                tokens,
            ) is Finish
        }),
        ({
            let next = state.with_call(result, touched);
            &&& result@ matches ExecutionModel::Success { gas_used, logs, output, .. } ==> {
                &&& next.call is Some
                &&& next.call->0.gas_used == gas_used
                &&& next.call->0.logs == logs
                &&& next.call->0.output == output
                &&& next.touched == state.touched.push(touched)
                &&& next.before == state.before
                &&& next.after == state.after
            }
            &&& !(result@ is Success) ==> next.failure == Some(
                CacheError::CallNotSuccessful { result },
            ) && next.next(tokens) is Finish
        }),
        state.failure is None && state.before.len() < tokens.len() ==> state.next(tokens) == (
        DeltaAction::ReadBefore { token: tokens[state.before.len() as int] }),
        state.failure is None && state.before.len() >= tokens.len() && state.call is None
            ==> state.next(tokens) is RunCall,
        state.failure is None && state.before.len() >= tokens.len() && state.call is Some
            && state.after.len() < tokens.len() ==> state.next(tokens) == (DeltaAction::ReadAfter {
            token: tokens[state.after.len() as int],
        }),
        state.failure is None && state.before.len() >= tokens.len() && state.call is Some
            && state.after.len() >= tokens.len() ==> state.next(tokens) is Finish,
{
}

/// How many updates of a batch are no slot writes.
pub open spec fn other_updates(updates: Seq<UpdateModel>) -> nat
    decreases updates.len(),
{
    if updates.len() == 0 {
        0
    } else {
        other_updates(updates.drop_last()) + match updates.last() {
            UpdateModel::Slot { .. } => 0nat,
            UpdateModel::SlotDelta { .. } => 0nat,
            _ => 1nat,
        }
    }
}

/// A batch moves the generation once for itself, and once for each update in it that is
/// neither a slot write nor a slot delta.
pub proof fn law_batches_move_the_generation(updates: Seq<UpdateModel>)
    requires
        updates.len() > 0,
    ensures
        batch_steps(updates) == 1 + other_updates(updates),
    decreases updates.len(),
{
    if updates.len() > 1 {
        law_batches_move_the_generation(updates.drop_last());
    } else {
        assert(updates.drop_last() =~= Seq::empty());
        assert(other_updates(updates.drop_last()) == 0);
    }
}

/// The slots of a backend add up: none for no accounts, and with each account its own.
pub proof fn law_slots_of_accounts_add_up(
    storage: Map<Address, Map<U256, U256>>,
    order: Seq<Address>,
    address: Address,
)
    ensures
        slot_sum(storage, Seq::empty()) == 0,
        slot_sum(storage, order.push(address)) == slot_sum(storage, order)
            + storage[address].len(),
{
    assert(order.push(address).drop_last() =~= order);
}

} // verus!
