//! What simulations report, and what they read.

use crate::access_list::{probe_model, CreateAccessListProbeItem, Entry};
use crate::access_set::{is_access_list, key_of, slot_of, AccessModel};
use crate::bundle::{outcome_of, RevertPolicy, RunModel};
use crate::collections::{ascending, Key};
use crate::execution::{deltas_of, last_values, ExecutionModel};
use crate::primitives::{pow_256, Address, SlotKey, B256, U256};
use vstd::prelude::*;

verus! {

/// Two read sets together hold what either holds, of each kind, and nothing else.
/// What one holds beyond another is what it holds and the other does not. One covers
/// another where it holds all of it, of each kind.
pub proof fn law_read_sets_are_sets(
    one: AccessModel,
    another: AccessModel,
    address: Address,
    key: SlotKey,
    hash: B256,
    number: u64,
)
    ensures
        ({
            let both = one.union(another);
            &&& both.accounts.contains(address) <==> one.accounts.contains(address)
                || another.accounts.contains(address)
            &&& both.slots.contains(key) <==> one.slots.contains(key) || another.slots.contains(
                key,
            )
            &&& both.code_hashes.contains(hash) <==> one.code_hashes.contains(hash)
                || another.code_hashes.contains(hash)
            &&& both.block_numbers.contains(number) <==> one.block_numbers.contains(number)
                || another.block_numbers.contains(number)
        }),
        ({
            let beyond = one.difference(another);
            &&& beyond.accounts.contains(address) <==> one.accounts.contains(address)
                && !another.accounts.contains(address)
            &&& beyond.slots.contains(key) <==> one.slots.contains(key)
                && !another.slots.contains(key)
            &&& beyond.code_hashes.contains(hash) <==> one.code_hashes.contains(hash)
                && !another.code_hashes.contains(hash)
            &&& beyond.block_numbers.contains(number) <==> one.block_numbers.contains(number)
                && !another.block_numbers.contains(number)
        }),
        one.subset_of(another) ==> {
            &&& one.accounts.contains(address) ==> another.accounts.contains(address)
            &&& one.slots.contains(key) ==> another.slots.contains(key)
            &&& one.code_hashes.contains(hash) ==> another.code_hashes.contains(hash)
            &&& one.block_numbers.contains(number) ==> another.block_numbers.contains(number)
        },
        one.subset_of(one.union(another)),
{
}

/// A slot and its key are the same number.
pub proof fn law_slots_and_keys_are_the_same_numbers(slot: U256, key: B256)
    ensures
        key_of(slot)@ == slot@,
        slot_of(key)@ == key@,
        slot_of(key_of(slot)) == slot,
        key_of(slot_of(key)) == key,
{
}

/// An access list of a read set has one entry for each account that is read or owns a
/// slot that is read, in order, and no other. Under an account stand the slots of it
/// that are read, each once, and no other.
pub proof fn law_access_lists_hold_the_reads(
    model: AccessModel,
    list: Seq<Entry>,
    address: Address,
    slot: U256,
)
    requires
        is_access_list(model, list),
    ensures
        (exists|i: int| 0 <= i < list.len() && (#[trigger] list[i]).0 == address) <==> (
        model.accounts.contains(address) || exists|s: U256| #[trigger]
            model.slots.contains(SlotKey { address, slot: s })),
        (exists|i: int|
            0 <= i < list.len() && (#[trigger] list[i]).0 == address && list[i].1.contains(
                key_of(slot),
            )) <==> model.slots.contains(SlotKey { address, slot }),
        forall|i: int, j: int|
            0 <= i < j < list.len() ==> (#[trigger] list[i]).0@ < (#[trigger] list[j]).0@,
        forall|i: int, k: int, l: int|
            0 <= i < list.len() && 0 <= k < l < list[i].1.len() ==> (#[trigger] list[i].1[k])@ < (
            #[trigger] list[i].1[l])@,
{
    let addresses = list.map_values(|item: (Address, Seq<B256>)| item.0);
    if exists|i: int| 0 <= i < list.len() && (#[trigger] list[i]).0 == address {
        let i = choose|i: int| 0 <= i < list.len() && (#[trigger] list[i]).0 == address;
        assert(addresses[i] == address);
        assert(addresses.to_set().contains(address));
    }
    if addresses.to_set().contains(address) {
        let i = addresses.index_of(address);
        assert(list[i].0 == address);
        if model.slots.contains(SlotKey { address, slot }) {
            assert(slot_of(key_of(slot)) == slot);
            assert(list[i].1.to_set().contains(key_of(slot)));
        }
    }
    if exists|i: int|
        0 <= i < list.len() && (#[trigger] list[i]).0 == address && list[i].1.contains(
            key_of(slot),
        ) {
        let i = choose|i: int|
            0 <= i < list.len() && (#[trigger] list[i]).0 == address && list[i].1.contains(
                key_of(slot),
            );
        assert(list[i].1.to_set().contains(key_of(slot)));
        assert(slot_of(key_of(slot)) == slot);
    }
    assert forall|i: int, j: int| 0 <= i < j < list.len() implies (#[trigger] list[i]).0@ < (
    #[trigger] list[j]).0@ by {
        assert(addresses[i] == list[i].0);
        assert(addresses[j] == list[j].0);
        assert(addresses[i].rank() < addresses[j].rank());
    }
    assert forall|i: int, k: int, l: int|
        0 <= i < list.len() && 0 <= k < l < list[i].1.len() implies (#[trigger] list[i].1[k])@ < (
    #[trigger] list[i].1[l])@ by {
        assert(ascending(list[i].1));
        assert(list[i].1[k].rank() < list[i].1[l].rank());
    }
}

/// What a probe read is what it names: each account of it, and each key under its
/// account. It says nothing of codes and block hashes.
pub proof fn law_probes_read_what_they_name(
    items: Seq<CreateAccessListProbeItem>,
    i: int,
    k: int,
    key: SlotKey,
)
    requires
        0 <= i < items.len(),
    ensures
        probe_model(items).accounts.contains(items[i].address),
        items[i].storage_keys is Some && 0 <= k < items[i].storage_keys->0@.len()
            ==> probe_model(items).slots.contains(
            SlotKey { address: items[i].address, slot: slot_of(items[i].storage_keys->0@[k]) },
        ),
        probe_model(items).slots.contains(key) ==> probe_model(items).accounts.contains(
            key.address,
        ),
        probe_model(items).code_hashes == Set::<B256>::empty(),
        probe_model(items).block_numbers == Set::<u64>::empty(),
        probe_model(Seq::empty()).accounts == Set::<Address>::empty(),
        probe_model(Seq::empty()).slots == Set::<SlotKey>::empty(),
{
    assert(items[i].address == items[i].address);
    if items[i].storage_keys is Some && 0 <= k < items[i].storage_keys->0@.len() {
        let named = items[i].storage_keys->0@[k];
        let slot = slot_of(named);
        assert(B256 { hi: slot.hi, lo: slot.lo } == named);
        assert(items[i].storage_keys->0@.contains(named));
    }
    assert(probe_model(Seq::empty()).accounts =~= Set::<Address>::empty());
    assert(probe_model(Seq::empty()).slots =~= Set::<SlotKey>::empty());
}

/// What is told of a transaction is what came of it: it reverted unless it succeeded,
/// it used the gas that it used, and it has its events where it succeeded and none
/// otherwise.
pub proof fn law_outcomes_tell_results(result: ExecutionModel)
    ensures
        outcome_of(result).result == result,
        match result {
            ExecutionModel::Success { gas_used, logs, .. } => {
                &&& !outcome_of(result).reverted
                &&& outcome_of(result).gas_used == gas_used
                &&& outcome_of(result).logs == logs
            },
            ExecutionModel::Revert { gas_used, .. } => {
                &&& outcome_of(result).reverted
                &&& outcome_of(result).gas_used == gas_used
                &&& outcome_of(result).logs.len() == 0
            },
            ExecutionModel::Halt { gas_used, .. } => {
                &&& outcome_of(result).reverted
                &&& outcome_of(result).gas_used == gas_used
                &&& outcome_of(result).logs.len() == 0
            },
        },
{
}

/// A policy allows a transaction to revert where it lists its position, and an atomic
/// one allows none to.
pub proof fn law_policies_allow_what_they_list(policy: RevertPolicy, position: int)
    ensures
        policy is Atomic ==> !policy.spec_allows(position),
        policy matches RevertPolicy::AllowReverts(positions) ==> (policy.spec_allows(position)
            <==> exists|i: int| 0 <= i < positions@.len() && #[trigger] positions@[i] == position),
{
}

/// What is to be done after a transaction agrees with what is kept: where it
/// succeeded it is kept, beside those before it. Where it did not and may revert, it
/// alone is undone. Where it may not, nothing of the bundle is kept, and nothing is
/// run after it.
pub proof fn law_actions_agree_with_what_is_kept(
    run: RunModel,
    policy: RevertPolicy,
    result: ExecutionModel,
)
    requires
        !run.aborted,
    ensures
        ({
            let position = run.per_tx.len() as int;
            let after = run.step(policy, result);
            &&& after.per_tx == run.per_tx.push(outcome_of(result))
            &&& result is Success ==> run.action(policy, result) is Keep && after.kept
                == run.kept.insert(position) && !after.aborted
            &&& !(result is Success) && policy.spec_allows(position) ==> run.action(
                policy,
                result,
            ) is UndoTransaction && after.kept == run.kept && !after.aborted
            &&& !(result is Success) && !policy.spec_allows(position) ==> run.action(
                policy,
                result,
            ) is UndoBundle && after.kept == Set::<int>::empty() && after.aborted
            &&& forall|next: ExecutionModel| after.aborted ==> #[trigger] after.step(policy, next)
                == after
        }),
{
}

/// Whether an item is the last balance of a token.
pub open spec fn is_last_balance(
    balances: Seq<(Address, U256)>,
    token: Address,
    at: int,
) -> bool {
    &&& 0 <= at < balances.len()
    &&& balances[at].0 == token
    &&& forall|later: int| at < later < balances.len() ==> (#[trigger] balances[later]).0 != token
}

/// The last balance of each token is the one that counts.
pub proof fn law_last_balances_count(balances: Seq<(Address, U256)>, token: Address)
    ensures
        forall|at: int| #[trigger]
            is_last_balance(balances, token, at) ==> last_values(balances).contains_key(token)
                && last_values(balances)[token] == balances[at].1,
        last_values(balances).contains_key(token) <==> exists|i: int|
            0 <= i < balances.len() && (#[trigger] balances[i]).0 == token,
    decreases balances.len(),
{
    if balances.len() > 0 {
        let fewer = balances.drop_last();
        let last = balances.len() - 1;
        assert(balances[last] == balances.last());
        law_last_balances_count(fewer, token);
        assert forall|at: int| #[trigger] is_last_balance(balances, token, at) implies last_values(
            balances,
        ).contains_key(token) && last_values(balances)[token] == balances[at].1 by {
            if at < last {
                assert(balances[last].0 != token);
                assert forall|later: int| at < later < fewer.len() implies (
                #[trigger] fewer[later]).0 != token by {
                    assert(balances[later].0 != token);
                }
                assert(is_last_balance(fewer, token, at));
            }
        }
        if exists|i: int| 0 <= i < balances.len() && (#[trigger] balances[i]).0 == token {
            let i = choose|i: int| 0 <= i < balances.len() && (#[trigger] balances[i]).0 == token;
            if i < last {
                assert(fewer[i].0 == token);
            }
        }
        if exists|i: int| 0 <= i < fewer.len() && (#[trigger] fewer[i]).0 == token {
            let i = choose|i: int| 0 <= i < fewer.len() && (#[trigger] fewer[i]).0 == token;
            assert(balances[i].0 == token);
        }
    }
}

/// What a simulation changed of a token is told for each token that was read after it,
/// and for no other. Added to the balance before (none where it was not read before),
/// modulo the word size, it gives the last balance read after.
pub proof fn law_deltas_lead_from_before_to_after(
    before: Map<Address, U256>,
    after: Seq<(Address, U256)>,
    token: Address,
)
    ensures
        deltas_of(before, after).contains_key(token) <==> exists|i: int|
            0 <= i < after.len() && (#[trigger] after[i]).0 == token,
        forall|at: int| #[trigger]
            is_last_balance(after, token, at) ==> {
                let was: nat = if before.contains_key(token) {
                    before[token]@
                } else {
                    0
                };
                (was + deltas_of(before, after)[token]@) % pow_256() == after[at].1@
            },
    decreases after.len(),
{
    if after.len() > 0 {
        let fewer = after.drop_last();
        let last = after.len() - 1;
        assert(after[last] == after.last());
        law_deltas_lead_from_before_to_after(before, fewer, token);
        let was: U256 = if before.contains_key(after.last().0) {
            before[after.last().0]
        } else {
            U256::spec_zero()
        };
        lemma_difference(after.last().1, was);
        assert forall|at: int| #[trigger] is_last_balance(after, token, at) implies {
            let was: nat = if before.contains_key(token) {
                before[token]@
            } else {
                0
            };
            (was + deltas_of(before, after)[token]@) % pow_256() == after[at].1@
        } by {
            if at < last {
                assert(after[last].0 != token);
                assert forall|later: int| at < later < fewer.len() implies (
                #[trigger] fewer[later]).0 != token by {
                    assert(after[later].0 != token);
                }
                assert(is_last_balance(fewer, token, at));
            }
        }
        if exists|i: int| 0 <= i < after.len() && (#[trigger] after[i]).0 == token {
            let i = choose|i: int| 0 <= i < after.len() && (#[trigger] after[i]).0 == token;
            if i < last {
                assert(fewer[i].0 == token);
            }
        }
        if exists|i: int| 0 <= i < fewer.len() && (#[trigger] fewer[i]).0 == token {
            let i = choose|i: int| 0 <= i < fewer.len() && (#[trigger] fewer[i]).0 == token;
            assert(after[i].0 == token);
        }
    }
}

/// A difference modulo the word size leads back.
proof fn lemma_difference(after: U256, before: U256)
    ensures
        (before@ + after.spec_wrapping_sub(before)@) % pow_256() == after@,
{
    let difference: nat = if after@ >= before@ {
        (after@ - before@) as nat
    } else {
        (after@ + pow_256() - before@) as nat
    };
    assert(U256::spec_from(difference)@ == difference);
}

} // verus!
