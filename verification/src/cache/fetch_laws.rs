//! What fetching slots leaves in the cache, and what is told of it.

use crate::access_set::AccessModel;
use crate::bulk_storage::response::SlotResult;
use crate::cache::balance_scan::{
    answers, probe_for, BalanceEvent, BalanceStage, ScanGoal, ScanState,
};
use crate::cache::erc20::{with_entry, word_of};
use crate::cache::evm_cache::EvmCache;
use crate::cache::freshness::{
    baseline, changes_of, corrections, failed_slots, fetched_count, fetched_slots, outcomes_of,
    prewarm_answer, PrewarmReport, SlotFetch,
};
use crate::cache::layers::{lookup, slots_at, LayersModel};
use crate::cache::mapping::{mapping_slot, TrackedMapping};
use crate::cache::point_reads::chunks;
use crate::cache::read_set::{
    answered, counted, discovered_by, expected_total, slot_requests, unanswered, unhinted_total,
    Discovery, ReadSetWarmupCall, ReadSetWarmupConfig,
};
use crate::cache::state_update::SlotChange;
use crate::cache::update_laws::{is_last_value, law_slot_batches_are_read_back};
use crate::cache::write_laws::law_injected_slots_are_held;
use crate::collections::{in_order, lemma_in_order_lists};
use crate::errors::StorageFetchError;
use crate::primitives::{Address, SlotKey, U256};
use vstd::prelude::*;

verus! {

/// Every result is told once: as a value, where one was fetched, or as a failure with
/// its reason. Values and failures come in the order of the results.
pub proof fn law_results_are_values_or_failures(results: Seq<SlotResult>, i: int)
    requires
        0 <= i < results.len(),
    ensures
        results[i].2 matches Ok(value) ==> fetched_slots(results).contains(
            (results[i].0, results[i].1, value),
        ),
        results[i].2 matches Err(error) ==> failed_slots(results).contains(
            (results[i].0, results[i].1, error),
        ),
        fetched_slots(results).len() + failed_slots(results).len() == results.len(),
        fetched_count(results) == 0 <==> forall|j: int|
            0 <= j < results.len() ==> (#[trigger] results[j]).2 is Err,
    decreases results.len(),
{
    let fewer = results.drop_last();
    let last = results.len() - 1;
    assert(results[last] == results.last());
    let values = fetched_slots(fewer);
    let failures = failed_slots(fewer);
    assert forall|j: int| 0 <= j < fewer.len() implies #[trigger] fewer[j] == results[j] by {}
    if fewer.len() > 0 {
        law_results_are_values_or_failures(fewer, if i < last { i } else { 0 });
    }
    if i < last {
        match results[i].2 {
            Ok(value) => {
                let k = values.index_of((results[i].0, results[i].1, value));
                assert(fetched_slots(results)[k] == values[k]);
            },
            Err(error) => {
                let k = failures.index_of((results[i].0, results[i].1, error));
                assert(failed_slots(results)[k] == failures[k]);
            },
        }
    } else {
        match results[last].2 {
            Ok(value) => {
                assert(fetched_slots(results)[values.len() as int] == (
                    results[last].0,
                    results[last].1,
                    value,
                ));
            },
            Err(error) => {
                assert(failed_slots(results)[failures.len() as int] == (
                    results[last].0,
                    results[last].1,
                    error,
                ));
            },
        }
    }
    if forall|j: int| 0 <= j < results.len() ==> (#[trigger] results[j]).2 is Err {
        assert forall|j: int| 0 <= j < fewer.len() implies (#[trigger] fewer[j]).2 is Err by {
            assert(results[j].2 is Err);
        }
        assert(results[last].2 is Err);
    }
    if fetched_count(results) == 0 {
        assert forall|j: int| 0 <= j < results.len() implies (#[trigger] results[j]).2 is Err by {
            if j < last {
                assert(fewer[j].2 is Err);
            }
        }
    }
}

/// Whether a result is the last value that was fetched for a slot.
pub open spec fn is_last_fetched(
    results: Seq<SlotResult>,
    address: Address,
    slot: U256,
    at: int,
) -> bool {
    &&& 0 <= at < results.len()
    &&& results[at].0 == address && results[at].1 == slot && results[at].2 is Ok
    &&& forall|later: int|
        at < later < results.len() ==> !((#[trigger] results[later]).0 == address
            && results[later].1 == slot && results[later].2 is Ok)
}

/// What fetched values there are for a slot.
proof fn lemma_fetched(results: Seq<SlotResult>, address: Address, slot: U256)
    ensures
        forall|at: int| #[trigger]
            is_last_fetched(results, address, slot, at) ==> exists|k: int| #[trigger]
                is_last_value(fetched_slots(results), address, slot, k)
                    && fetched_slots(results)[k].2 == results[at].2->Ok_0,
        (forall|i: int|
            0 <= i < results.len() && (#[trigger] results[i]).0 == address && results[i].1 == slot
                ==> results[i].2 is Err) ==> forall|k: int|
            0 <= k < fetched_slots(results).len() ==> !((#[trigger] fetched_slots(results)[k]).0
                == address && fetched_slots(results)[k].1 == slot),
    decreases results.len(),
{
    if results.len() > 0 {
        let fewer = results.drop_last();
        let last = results.len() - 1;
        let values = fetched_slots(fewer);
        let all = fetched_slots(results);
        assert(results[last] == results.last());
        lemma_fetched(fewer, address, slot);
        assert forall|i: int| 0 <= i < fewer.len() implies #[trigger] fewer[i] == results[i] by {}
        assert forall|at: int| #[trigger] is_last_fetched(results, address, slot, at) implies (
        exists|k: int| #[trigger]
            is_last_value(all, address, slot, k) && all[k].2 == results[at].2->Ok_0) by {
            if at < last {
                assert(!(results[last].0 == address && results[last].1 == slot
                    && results[last].2 is Ok));
                assert forall|later: int| at < later < fewer.len() implies !((
                #[trigger] fewer[later]).0 == address && fewer[later].1 == slot
                    && fewer[later].2 is Ok) by {
                    assert(!(results[later].0 == address && results[later].1 == slot
                        && results[later].2 is Ok));
                }
                assert(is_last_fetched(fewer, address, slot, at));
                let k = choose|k: int| #[trigger]
                    is_last_value(values, address, slot, k) && values[k].2
                        == fewer[at].2->Ok_0;
                assert(all[k] == values[k]);
                assert forall|later: int| k < later < all.len() implies !((
                #[trigger] all[later]).0 == address && all[later].1 == slot) by {
                    if later < values.len() {
                        assert(all[later] == values[later]);
                        assert(!(values[later].0 == address && values[later].1 == slot));
                    }
                }
                assert(is_last_value(all, address, slot, k));
            } else {
                let k = values.len() as int;
                assert(all[k].2 == results[at].2->Ok_0);
                assert(is_last_value(all, address, slot, k));
            }
        }
        if forall|i: int|
            0 <= i < results.len() && (#[trigger] results[i]).0 == address && results[i].1 == slot
                ==> results[i].2 is Err {
            assert forall|i: int|
                0 <= i < fewer.len() && (#[trigger] fewer[i]).0 == address && fewer[i].1
                    == slot implies fewer[i].2 is Err by {
                assert(results[i].2 is Err);
            }
            assert forall|k: int| 0 <= k < all.len() implies !((#[trigger] all[k]).0 == address
                && all[k].1 == slot) by {
                if k < values.len() {
                    assert(all[k] == values[k]);
                } else {
                    assert(results[last].2 is Ok);
                }
            }
        }
    }
}

/// After slots were warmed up, the backend holds for each the value that was fetched
/// for it, and every slot that no value was fetched for as before. What the overlay
/// holds is not touched. Loaded and failed slots add up to all results.
pub proof fn law_warmed_slots_are_held(
    before: LayersModel,
    after: LayersModel,
    results: Seq<SlotResult>,
    report: PrewarmReport,
    address: Address,
    slot: U256,
)
    requires
        prewarm_answer(before, after, results, report),
    ensures
        forall|at: int| #[trigger]
            is_last_fetched(results, address, slot, at) ==> lookup(
                slots_at(after.storage, address),
                slot,
            ) == Some(results[at].2->Ok_0),
        (forall|i: int|
            0 <= i < results.len() && (#[trigger] results[i]).0 == address && results[i].1 == slot
                ==> results[i].2 is Err) ==> lookup(slots_at(after.storage, address), slot)
            == lookup(slots_at(before.storage, address), slot) && after.slot(address, slot)
            == before.slot(address, slot),
        after.overlay == before.overlay,
        after.accounts == before.accounts,
        report.loaded + report.failed@.len() == results.len(),
{
    lemma_fetched(results, address, slot);
    law_injected_slots_are_held(before, fetched_slots(results), address, slot);
    if results.len() > 0 {
        law_results_are_values_or_failures(results, 0);
    }
}

/// A fetched slot is told apart: as a value where it is not zero, as zero where it is,
/// and as a failure with its reason. Each result is told under its account and slot.
pub proof fn law_fetched_slots_are_told_apart(results: Seq<SlotResult>, i: int)
    requires
        0 <= i < results.len(),
    ensures
        outcomes_of(results).len() == results.len(),
        outcomes_of(results)[i].address == results[i].0,
        outcomes_of(results)[i].slot == results[i].1,
        match results[i].2 {
            Ok(value) => {
                &&& value@ == 0 ==> outcomes_of(results)[i].fetch is Zero
                &&& value@ != 0 ==> outcomes_of(results)[i].fetch == SlotFetch::Value(value)
            },
            Err(reason) => outcomes_of(results)[i].fetch == (SlotFetch::FetchFailed { reason }),
        },
{
}

/// What is told as changed is what was fetched and differs from what the cache read:
/// each change was fetched, its new value is the one fetched, and its old value is what
/// was read before (zero where nothing was); the two differ. No slot that was asked for
/// and differs is left out.
pub proof fn law_changes_are_what_differs(
    layers: LayersModel,
    requests: Seq<(Address, U256)>,
    results: Seq<SlotResult>,
    i: int,
)
    requires
        0 <= i < results.len(),
    ensures
        forall|k: int|
            0 <= k < changes_of(layers, requests, results).len() ==> {
                let change = #[trigger] changes_of(layers, requests, results)[k];
                &&& change.old != change.new
                &&& exists|j: int|
                    0 <= j < results.len() && (#[trigger] results[j]).0 == change.address
                        && results[j].1 == change.slot && results[j].2 == Ok::<
                        U256,
                        StorageFetchError,
                    >(change.new)
                &&& requests.contains((change.address, change.slot)) ==> change.old == match layers.slot(
                    change.address,
                    change.slot,
                ) {
                    Some(value) => value,
                    None => U256::spec_zero(),
                }
            },
        results[i].2 is Ok && requests.contains((results[i].0, results[i].1)) && results[i].2->Ok_0
            != layers.slot_or_zero(results[i].0, results[i].1) ==> changes_of(
            layers,
            requests,
            results,
        ).contains(
            SlotChange {
                address: results[i].0,
                slot: results[i].1,
                old: layers.slot_or_zero(results[i].0, results[i].1),
                new: results[i].2->Ok_0,
            },
        ),
    decreases results.len(),
{
    let fewer = results.drop_last();
    let last = results.len() - 1;
    assert(results[last] == results.last());
    let earlier = changes_of(layers, requests, fewer);
    let all = changes_of(layers, requests, results);
    assert forall|j: int| 0 <= j < fewer.len() implies #[trigger] fewer[j] == results[j] by {}
    if fewer.len() > 0 {
        law_changes_are_what_differs(layers, requests, fewer, if i < last { i } else { 0 });
    }
    assert forall|k: int| 0 <= k < all.len() implies {
        let change = #[trigger] all[k];
        &&& change.old != change.new
        &&& exists|j: int|
            0 <= j < results.len() && (#[trigger] results[j]).0 == change.address && results[j].1
                == change.slot && results[j].2 == Ok::<U256, StorageFetchError>(change.new)
        &&& requests.contains((change.address, change.slot)) ==> change.old == match layers.slot(
            change.address,
            change.slot,
        ) {
            Some(value) => value,
            None => U256::spec_zero(),
        }
    } by {
        let change = all[k];
        if k < earlier.len() {
            assert(change == earlier[k]);
            let j = choose|j: int|
                0 <= j < fewer.len() && (#[trigger] fewer[j]).0 == change.address && fewer[j].1
                    == change.slot && fewer[j].2 == Ok::<U256, StorageFetchError>(change.new);
            assert(results[j] == fewer[j]);
        } else {
            assert(results[last].2 == Ok::<U256, StorageFetchError>(change.new));
        }
    }
    if results[i].2 is Ok && requests.contains((results[i].0, results[i].1)) && results[i].2->Ok_0
        != layers.slot_or_zero(results[i].0, results[i].1) {
        let wanted = SlotChange {
            address: results[i].0,
            slot: results[i].1,
            old: layers.slot_or_zero(results[i].0, results[i].1),
            new: results[i].2->Ok_0,
        };
        if i < last {
            let k = earlier.index_of(wanted);
            assert(all[k] == wanted);
        } else {
            assert(all[earlier.len() as int] == wanted);
        }
    }
}

/// After slots were verified, nothing is read otherwise but slots that were fetched
/// with another value. Accounts, and slots that could not be fetched, read as before.
pub proof fn law_only_corrected_slots_read_otherwise(
    before: EvmCache,
    after: EvmCache,
    requests: Seq<(Address, U256)>,
    results: Seq<SlotResult>,
    address: Address,
    slot: U256,
)
    requires
        before.is_verified(after, requests, results),
        forall|i: int|
            0 <= i < results.len() && (#[trigger] results[i]).0 == address && results[i].1 == slot
                ==> results[i].2 is Err,
    ensures
        after.layers@.slot(address, slot) == before.layers@.slot(address, slot),
        after.layers@.info(address) == before.layers@.info(address),
{
    let layers = before.layers@;
    let changes = changes_of(layers, requests, results);
    let fixed = corrections(changes);
    assert forall|i: int| 0 <= i < fixed.len() implies !((#[trigger] fixed[i]).0 == address
        && fixed[i].1 == slot) by {
        let change = changes[i];
        assert(fixed[i] == (change.address, change.slot, change.new));
        if results.len() > 0 {
            law_changes_are_what_differs(layers, requests, results, 0);
        }
        assert(exists|j: int|
            0 <= j < results.len() && (#[trigger] results[j]).0 == change.address && results[j].1
                == change.slot && results[j].2 == Ok::<U256, StorageFetchError>(change.new));
    }
    law_slot_batches_are_read_back(layers, fixed, address, slot);
}

/// Every batch but the last is full.
pub proof fn law_batches_are_full(requests: Seq<(Address, U256)>, size: nat, i: int)
    requires
        size >= 1,
        0 <= i < chunks(requests, size).len() - 1,
    ensures
        chunks(requests, size)[i].len() == size,
    decreases requests.len(),
{
    if requests.len() > size {
        let rest = requests.skip(size as int);
        assert(chunks(requests, size) == seq![requests.take(size as int)] + chunks(rest, size));
        if i > 0 {
            law_batches_are_full(rest, size, i - 1);
            assert(chunks(requests, size)[i] == chunks(rest, size)[i - 1]);
        }
    }
}

/// The hints of calls add up: a call with a hint counts its slots, a call without one
/// counts as unhinted.
pub proof fn law_hints_add_up(
    first: Seq<ReadSetWarmupCall>,
    second: Seq<ReadSetWarmupCall>,
    call: ReadSetWarmupCall,
)
    ensures
        expected_total(Seq::empty()) == 0,
        unhinted_total(Seq::empty()) == 0,
        expected_total(seq![call]) == match call.expected_slots {
            Some(slots) => slots as nat,
            None => 0,
        },
        unhinted_total(seq![call]) == if call.expected_slots is None {
            1nat
        } else {
            0
        },
        expected_total(first + second) == expected_total(first) + expected_total(second),
        unhinted_total(first + second) == unhinted_total(first) + unhinted_total(second),
    decreases second.len(),
{
    assert(seq![call].drop_last() =~= Seq::empty());
    assert(expected_total(seq![call].drop_last()) == 0);
    assert(unhinted_total(seq![call].drop_last()) == 0);
    if second.len() == 0 {
        assert(first + second =~= first);
    } else {
        assert((first + second).drop_last() =~= first + second.drop_last());
        assert((first + second).last() == second.last());
        law_hints_add_up(first, second.drop_last(), call);
    }
}

/// Access lists are asked for never where only local reads are wanted, always where
/// they are wanted and there are calls, and otherwise where enough slots are expected
/// or enough calls tell nothing. More calls never turn asking off.
pub proof fn law_access_lists_are_asked_for(
    config: ReadSetWarmupConfig,
    calls: Seq<ReadSetWarmupCall>,
    more: Seq<ReadSetWarmupCall>,
)
    ensures
        config.strategy is LocalOnly ==> !config.asks(calls),
        config.strategy is AccessList ==> (config.asks(calls) <==> calls.len() > 0),
        config.strategy is Auto ==> (config.asks(calls) <==> expected_total(calls)
            >= config.min_expected_slots_for_access_list || unhinted_total(calls)
            >= config.min_unhinted_calls_for_access_list),
        config.asks(calls) ==> config.asks(calls + more),
{
    if calls.len() > 0 {
        law_hints_add_up(calls, more, calls[0]);
    } else {
        assert(calls + more =~= more);
    }
}

/// Of what a call reads all counts, or only what concerns the accounts it is restricted
/// to.
pub proof fn law_restricted_reads_count(
    model: AccessModel,
    restrict_to: Option<Vec<Address>>,
    address: Address,
    key: SlotKey,
)
    ensures
        restrict_to is None ==> counted(model, restrict_to) == model,
        restrict_to matches Some(addresses) ==> {
            &&& counted(model, restrict_to).accounts.contains(address) <==> model.accounts.contains(
                address,
            ) && addresses@.contains(address)
            &&& counted(model, restrict_to).slots.contains(key) <==> model.slots.contains(key)
                && addresses@.contains(key.address)
        },
{
    if let Some(addresses) = restrict_to {
        assert(addresses@.to_set().contains(address) <==> addresses@.contains(address));
        assert(addresses@.to_set().contains(key.address) <==> addresses@.contains(key.address));
    }
}

/// What calls were found to read is what counts of each answer together; every answer
/// that failed is told with its position and reason, and every other one is counted.
pub proof fn law_discoveries_are_gathered(
    calls: Seq<ReadSetWarmupCall>,
    given: Seq<Discovery>,
    key: SlotKey,
    i: int,
)
    requires
        0 <= i < given.len() <= usize::MAX,
    ensures
        discovered_by(calls, given).slots.contains(key) <==> exists|j: int|
            0 <= j < given.len() && (#[trigger] given[j]) is Ok && counted(
                given[j]->Ok_0@,
                calls[j].restrict_to,
            ).slots.contains(key),
        given[i] matches Err(error) ==> unanswered(given).contains((i as usize, error)),
        answered(given) + unanswered(given).len() == given.len(),
    decreases given.len(),
{
    let fewer = given.drop_last();
    let last = given.len() - 1;
    assert(given[last] == given.last());
    assert forall|j: int| 0 <= j < fewer.len() implies #[trigger] fewer[j] == given[j] by {}
    if fewer.len() > 0 {
        law_discoveries_are_gathered(calls, fewer, key, if i < last { i } else { 0 });
    } else {
        assert(discovered_by(calls, fewer) == AccessModel::empty());
        assert(answered(fewer) == 0);
        assert(unanswered(fewer).len() == 0);
    }
    if given[i] is Err {
        let told = (i as usize, given[i]->Err_0);
        if i < last {
            let k = unanswered(fewer).index_of(told);
            assert(unanswered(given)[k] == told);
        } else {
            assert(unanswered(given)[unanswered(fewer).len() as int] == told);
        }
    }
    if exists|j: int|
        0 <= j < given.len() && (#[trigger] given[j]) is Ok && counted(
            given[j]->Ok_0@,
            calls[j].restrict_to,
        ).slots.contains(key) {
        let j = choose|j: int|
            0 <= j < given.len() && (#[trigger] given[j]) is Ok && counted(
                given[j]->Ok_0@,
                calls[j].restrict_to,
            ).slots.contains(key);
        if j < last {
            assert(fewer[j] is Ok);
        }
    }
    if exists|j: int|
        0 <= j < fewer.len() && (#[trigger] fewer[j]) is Ok && counted(
            fewer[j]->Ok_0@,
            calls[j].restrict_to,
        ).slots.contains(key) {
        let j = choose|j: int|
            0 <= j < fewer.len() && (#[trigger] fewer[j]) is Ok && counted(
                fewer[j]->Ok_0@,
                calls[j].restrict_to,
            ).slots.contains(key);
        assert(given[j] is Ok);
    }
}

/// Each slot that was found is asked for once, and no other is.
pub proof fn law_found_slots_are_asked_for_once(slots: Set<SlotKey>, key: SlotKey)
    requires
        slots.finite(),
    ensures
        slot_requests(slots).contains((key.address, key.slot)) <==> slots.contains(key),
        slot_requests(slots).no_duplicates(),
{
    let order = in_order(slots);
    lemma_in_order_lists(slots);
    let asked = slot_requests(slots);
    if slots.contains(key) {
        assert(order.to_set().contains(key));
        let i = order.index_of(key);
        assert(asked[i] == (key.address, key.slot));
    }
    if asked.contains((key.address, key.slot)) {
        let i = asked.index_of((key.address, key.slot));
        assert(order[i] == key);
        assert(order.to_set().contains(key));
    }
    assert forall|i: int, j: int| 0 <= i < asked.len() && 0 <= j < asked.len() && i != j implies
        asked[i] != asked[j] by {
        assert(order[i] != order[j]);
    }
}

/// Where a goal's owner has its balance in a mapping.
pub open spec fn balance_slot(goal: ScanGoal, mapping: TrackedMapping) -> Option<U256> {
    match mapping_slot(mapping.layout, mapping.base_slot@, word_of(goal.owner)@) {
        Some(slot) => Some(U256::spec_from(slot)),
        None => None,
    }
}

/// Whether a value is written where a mapping keeps the owner's balance.
pub open spec fn is_written(
    goal: ScanGoal,
    layers: LayersModel,
    mapping: TrackedMapping,
    value: U256,
) -> bool {
    balance_slot(goal, mapping) matches Some(slot) && layers.slot(mapping.contract, slot) == Some(
        value,
    )
}

/// What is written while a balance is set: the amount, where the mapping that is tried
/// keeps the owner's balance, or the probe, at the base slot that is tried.
pub open spec fn has_written(goal: ScanGoal, state: ScanState) -> bool {
    match state.stage {
        BalanceStage::Known(mapping) => is_written(goal, state.layers, mapping, goal.amount),
        BalanceStage::Discovered(mapping) => is_written(goal, state.layers, mapping, goal.amount),
        BalanceStage::Chosen(mapping) => is_written(goal, state.layers, mapping, goal.amount),
        BalanceStage::Scanning { probe, index } => is_written(
            goal,
            state.layers,
            goal.candidate(index),
            probe,
        ),
        _ => true,
    }
}

/// While a balance is set, the amount is written where the mapping that is tried keeps
/// it, and in a scan the probe at the base slot that is tried. A run that ends well
/// leaves the layers as they were when the balance was read as the amount.
pub proof fn law_balances_are_written_where_they_are_kept(
    goal: ScanGoal,
    state: ScanState,
    event: BalanceEvent,
    layers: LayersModel,
    known: Map<Address, TrackedMapping>,
)
    requires
        has_written(goal, state),
        answers(event, state.stage),
    ensures
        goal.started(layers, known) matches Some(first) ==> has_written(goal, first),
        goal.stepped(state, event) matches Some(next) ==> has_written(goal, next),
        goal.stepped(state, event) matches Some(next) ==> (next.stage == (
        BalanceStage::Settled { verified: true }) ==> next.layers == state.layers),
{
}

/// A scan tries the base slots one after the other, from the first to the last allowed,
/// always with one probe, which is never the balance that was read. At each it starts
/// from what was there before the scan, so that nothing of an earlier try is left. The
/// base slot at which the probe comes back is the one that is taken.
pub proof fn law_scans_try_each_base_slot(
    goal: ScanGoal,
    state: ScanState,
    balance: U256,
    probe: U256,
    index: u16,
    other: U256,
)
    requires
        state.stage == (BalanceStage::Scanning { probe, index }),
        state.baseline is Some,
        index <= goal.max_slot,
    ensures
        probe_for(balance) != balance,
        ({
            let next = goal.stepped(state, BalanceEvent::Balance(balance));
            &&& next is Some
            &&& next->0.baseline == state.baseline
            &&& balance != probe && index < goal.max_slot ==> {
                &&& next->0.stage == (BalanceStage::Scanning { probe, index: (index + 1) as u16 })
                &&& next->0.known == state.known
                &&& next->0.layers == with_entry(
                    LayersModel { overlay: state.baseline->0, ..state.layers },
                    goal.candidate((index + 1) as u16),
                    word_of(goal.owner),
                    probe,
                    goal.account,
                )->0
            }
            &&& balance == probe ==> {
                &&& next->0.stage == BalanceStage::Chosen(goal.candidate(index))
                &&& lookup(next->0.known, goal.token) == Some(goal.candidate(index))
                &&& is_written(goal, next->0.layers, goal.candidate(index), goal.amount)
            }
            &&& balance != probe && index == goal.max_slot ==> next->0.stage == (
            BalanceStage::Settled { verified: false }) && next->0.layers.overlay
                == state.baseline->0
        }),
        goal.candidate(index).contract == goal.token,
        goal.candidate(index).base_slot@ == index,
{
}

} // verus!
