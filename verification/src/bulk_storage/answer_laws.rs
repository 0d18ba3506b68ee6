//! What bulk calls send, and what is read from their answers.

use crate::block::BlockId;
use crate::bulk_storage::config::{multicall3_address, BulkCallConfig, CallDispatch};
use crate::bulk_storage::dispatch::{
    bundle_overrides, concat_results, is_entry_results, CallManyEntry,
    call_parts, conflicts, extractor_calls, grouped, is_shipping, plan_overrides, plan_slot_total,
    with_extractors, Shipping,
};
use crate::bulk_storage::fetcher::{
    any_provider_error, any_read, failed_requests, read_results, streak_after, BulkFetcher,
};
use crate::bulk_storage::packing::packed;
use crate::bulk_storage::planning::{
    flushed, greedy, overflows, slot_total, Piece, PlanModel,
};
use crate::bulk_storage::programs::{
    bundle_of, capped_u64, context_word, decoded_program_results, is_sample, padded_addresses,
    program_calls, program_overrides, shareable, shareable_below, AccountFieldsSample,
    StorageProgram,
};
use crate::bulk_storage::response::{
    all_failed, decoded_results, direct_results, every_slot_failed, multicall_results,
    subcall_results, SlotResult,
};
use crate::bytes::Bytes;
use crate::errors::StorageFetchError;
use crate::foreign::SubcallResult;
use crate::primitives::{
    be_bytes, be_value, lemma_be_bytes_round_trip, lemma_byte_base_values, Address, B256, U256,
};
use vstd::prelude::*;

verus! {

/// What is sent for slots is their words, one after the other.
pub proof fn law_slots_are_sent_as_words(slots: Seq<U256>, i: int)
    requires
        0 <= i < slots.len(),
    ensures
        packed(slots).len() == 32 * slots.len(),
        packed(slots).subrange(32 * i, 32 * i + 32) == be_bytes(slots[i]@, 32),
    decreases slots.len(),
{
    let fewer = slots.drop_last();
    let last = slots.len() - 1;
    assert(slots[last] == slots.last());
    lemma_byte_base_values();
    lemma_be_bytes_round_trip(slots.last()@, 32);
    if fewer.len() > 0 {
        law_slots_are_sent_as_words(fewer, if i < last { i } else { 0 });
    } else {
        assert(packed(fewer).len() == 0);
    }
    if i < last {
        assert(fewer[i] == slots[i]);
        assert(packed(slots).subrange(32 * i, 32 * i + 32) =~= packed(fewer).subrange(
            32 * i,
            32 * i + 32,
        ));
    } else {
        assert(packed(slots).subrange(32 * i, 32 * i + 32) =~= be_bytes(slots[i]@, 32));
    }
}

/// Where a direct call returned a word for each slot, each slot reads its word, in
/// order. Where it returned anything else, no slot is read, and each is told what came
/// back and what was expected.
pub proof fn law_direct_calls_read_a_word_each(piece: Piece, data: Seq<u8>, i: int)
    requires
        0 <= i < piece.1.len(),
    ensures
        direct_results(piece, data).len() == piece.1.len(),
        direct_results(piece, data)[i].0 == piece.0,
        direct_results(piece, data)[i].1 == piece.1[i],
        data.len() == piece.1.len() * 32 ==> direct_results(piece, data)[i].2 is Ok && direct_results(
            piece,
            data,
        )[i].2->Ok_0 == U256::spec_from(be_value(data.subrange(32 * i, 32 * i + 32))),
        data.len() != piece.1.len() * 32 ==> direct_results(piece, data)[i].2 == Err::<
            U256,
            StorageFetchError,
        >(
            StorageFetchError::ExtractorLength {
                target: piece.0,
                returned: data.len() as usize,
                expected_words: piece.1.len() as usize,
            },
        ),
{
}

/// Where an answer holds the words of values, in order, the slots read those values.
pub proof fn law_values_sent_are_values_read(piece: Piece, values: Seq<U256>, i: int)
    requires
        values.len() == piece.1.len(),
        0 <= i < values.len(),
    ensures
        direct_results(piece, packed(values))[i] == (
            piece.0,
            piece.1[i],
            Ok::<U256, StorageFetchError>(values[i]),
        ),
        subcall_results(piece, (true, packed(values)))[i] == (
            piece.0,
            piece.1[i],
            Ok::<U256, StorageFetchError>(values[i]),
        ),
{
    law_slots_are_sent_as_words(values, i);
    lemma_byte_base_values();
    lemma_be_bytes_round_trip(values[i]@, 32);
    U256::lemma_spec_from(values[i]);
}

/// A part of a dispatched call that failed reads no slot and says so; one that returned
/// a word for each slot reads each; one that returned anything else reads none, and
/// tells what came back and what was expected.
pub proof fn law_parts_of_calls_are_read_alone(piece: Piece, outcome: (bool, Seq<u8>), i: int)
    requires
        0 <= i < piece.1.len(),
    ensures
        subcall_results(piece, outcome).len() == piece.1.len(),
        subcall_results(piece, outcome)[i].0 == piece.0,
        subcall_results(piece, outcome)[i].1 == piece.1[i],
        match subcall_results(piece, outcome)[i].2 {
            Ok(value) => outcome.0 && outcome.1.len() == piece.1.len() * 32 && value
                == U256::spec_from(be_value(outcome.1.subrange(32 * i, 32 * i + 32))),
            Err(error) => if outcome.0 {
                outcome.1.len() != piece.1.len() * 32 && error == (StorageFetchError::SubcallLength {
                    target: piece.0,
                    returned: outcome.1.len() as usize,
                    expected_words: piece.1.len() as usize,
                })
            } else {
                error == StorageFetchError::SubcallFailed
            },
        },
{
}

/// The results of a dispatched call are those of its parts, one after the other: those
/// of a part stand behind those of the parts before it.
pub proof fn law_dispatched_calls_are_read_part_by_part(
    pieces: Seq<Piece>,
    outcomes: Seq<(bool, Seq<u8>)>,
    i: int,
)
    requires
        outcomes.len() == pieces.len(),
        0 <= i < pieces.len(),
    ensures
        ({
            let from = slot_total(pieces.take(i)) as int;
            let all = multicall_results(pieces, outcomes);
            &&& all.len() == slot_total(pieces)
            &&& from + pieces[i].1.len() <= all.len()
            &&& all.subrange(from, from + pieces[i].1.len()) == subcall_results(
                pieces[i],
                outcomes[i],
            )
        }),
    decreases pieces.len(),
{
    let fewer = pieces.drop_last();
    let last = pieces.len() - 1;
    let kept = outcomes.drop_last();
    assert(pieces[last] == pieces.last());
    lemma_outcomes_of_parts(fewer, outcomes, kept);
    let earlier = multicall_results(fewer, kept);
    let part = subcall_results(pieces.last(), outcomes[last]);
    let all = multicall_results(pieces, outcomes);
    assert(all == earlier + part);
    assert(part.len() == pieces.last().1.len());
    if fewer.len() > 0 {
        law_dispatched_calls_are_read_part_by_part(fewer, kept, if i < last { i } else { 0 });
    } else {
        assert(earlier.len() == 0);
        assert(slot_total(fewer) == 0);
    }
    if i < last {
        let from = slot_total(pieces.take(i)) as int;
        assert(fewer.take(i) =~= pieces.take(i));
        assert(fewer[i] == pieces[i]);
        assert(all.subrange(from, from + pieces[i].1.len()) =~= earlier.subrange(
            from,
            from + pieces[i].1.len(),
        ));
    } else {
        assert(pieces.take(i) =~= fewer);
        assert(all.subrange(earlier.len() as int, all.len() as int) =~= part);
    }
}

/// The results of the first parts do not look at the outcomes of later ones.
proof fn lemma_outcomes_of_parts(
    pieces: Seq<Piece>,
    one: Seq<(bool, Seq<u8>)>,
    another: Seq<(bool, Seq<u8>)>,
)
    requires
        pieces.len() <= one.len(),
        pieces.len() <= another.len(),
        forall|i: int| 0 <= i < pieces.len() ==> #[trigger] one[i] == another[i],
    ensures
        multicall_results(pieces, one) == multicall_results(pieces, another),
    decreases pieces.len(),
{
    if pieces.len() > 0 {
        lemma_outcomes_of_parts(pieces.drop_last(), one, another);
        assert(one[pieces.len() - 1] == another[pieces.len() - 1]);
    }
}

/// Where an answer of a dispatched call cannot be decoded, or has another number of
/// parts than was sent, no slot is read and each is told why.
pub proof fn law_unreadable_answers_fail_every_slot(
    pieces: Seq<Piece>,
    decoded: Result<Vec<SubcallResult>, String>,
    i: int,
)
    requires
        0 <= i < decoded_results(pieces, decoded).len(),
    ensures
        decoded matches Err(details) ==> decoded_results(pieces, decoded)[i].2 == Err::<
            U256,
            StorageFetchError,
        >(StorageFetchError::ResponseDecode { details }),
        decoded matches Ok(list) ==> (list@.len() != pieces.len() ==> decoded_results(
            pieces,
            decoded,
        )[i].2 == Err::<U256, StorageFetchError>(
            StorageFetchError::ResultCount {
                returned: list@.len() as usize,
                expected: pieces.len() as usize,
            },
        )),
        decoded matches Ok(list) ==> (list@.len() == pieces.len() ==> decoded_results(
            pieces,
            decoded,
        ) == multicall_results(
            pieces,
            Seq::new(list@.len(), |k: int| (list@[k].success, list@[k].return_data@)),
        )),
{
    match decoded {
        Err(details) => {
            lemma_every_slot_failed(pieces, StorageFetchError::ResponseDecode { details }, i);
        },
        Ok(list) => {
            if list@.len() != pieces.len() {
                lemma_every_slot_failed(
                    pieces,
                    StorageFetchError::ResultCount {
                        returned: list@.len() as usize,
                        expected: pieces.len() as usize,
                    },
                    i,
                );
            } else {
                assert(list@.map_values(|s: SubcallResult| s@) =~= Seq::new(
                    list@.len(),
                    |k: int| (list@[k].success, list@[k].return_data@),
                ));
            }
        },
    }
}

/// Where every slot fails, each has the error.
proof fn lemma_every_slot_failed(pieces: Seq<Piece>, error: StorageFetchError, i: int)
    requires
        0 <= i < every_slot_failed(pieces, error).len(),
    ensures
        every_slot_failed(pieces, error)[i].2 == Err::<U256, StorageFetchError>(error),
    decreases pieces.len(),
{
    let earlier = every_slot_failed(pieces.drop_last(), error);
    if i < earlier.len() {
        lemma_every_slot_failed(pieces.drop_last(), error, i);
        assert(every_slot_failed(pieces, error)[i] == earlier[i]);
    } else {
        assert(every_slot_failed(pieces, error)[i] == all_failed(pieces.last(), error)[i
            - earlier.len()]);
    }
}

/// A call of its own goes to the account it reads, with the words of its slots; a shared
/// one goes to the dispatcher, with a part for each account that may fail alone.
pub proof fn law_calls_go_where_they_read(plan: PlanModel, i: int)
    ensures
        plan matches PlanModel::Single { piece } ==> call_parts(plan).0 == piece.0 && call_parts(
            plan,
        ).1 == packed(piece.1),
        plan matches PlanModel::Multi { pieces } ==> {
            &&& call_parts(plan).0 == multicall3_address()
            &&& extractor_calls(pieces).len() == pieces.len()
            &&& 0 <= i < pieces.len() ==> extractor_calls(pieces)[i] == (
                pieces[i].0@,
                true,
                packed(pieces[i].1),
            )
        },
{
}

/// While pieces are read, each of their accounts has the extractor's code, and every
/// other account keeps the code it had.
pub proof fn law_read_accounts_get_the_extractor(
    codes: Map<Address, Bytes>,
    pieces: Seq<Piece>,
    extractor: Bytes,
    address: Address,
)
    ensures
        (exists|i: int| 0 <= i < pieces.len() && (#[trigger] pieces[i]).0 == address) ==> {
            &&& with_extractors(codes, pieces, extractor).contains_key(address)
            &&& with_extractors(codes, pieces, extractor)[address] == extractor
        },
        (forall|i: int| 0 <= i < pieces.len() ==> (#[trigger] pieces[i]).0 != address) ==> {
            &&& with_extractors(codes, pieces, extractor).contains_key(address)
                == codes.contains_key(address)
            &&& codes.contains_key(address) ==> with_extractors(codes, pieces, extractor)[address]
                == codes[address]
        },
    decreases pieces.len(),
{
    if pieces.len() > 0 {
        let fewer = pieces.drop_last();
        let last = pieces.len() - 1;
        assert(pieces[last] == pieces.last());
        law_read_accounts_get_the_extractor(codes, fewer, extractor, address);
        if exists|i: int| 0 <= i < pieces.len() && (#[trigger] pieces[i]).0 == address {
            let i = choose|i: int| 0 <= i < pieces.len() && (#[trigger] pieces[i]).0 == address;
            if i < last {
                assert(fewer[i].0 == address);
            }
        }
        if forall|i: int| 0 <= i < pieces.len() ==> (#[trigger] pieces[i]).0 != address {
            assert forall|i: int| 0 <= i < fewer.len() implies (#[trigger] fewer[i]).0
                != address by {
                assert(pieces[i].0 != address);
            }
            assert(pieces[last].0 != address);
        }
    }
}

/// For a plan, the accounts it reads have the extractor's code; for a shared one, the
/// dispatcher's account has the dispatcher's code unless it is read itself. No other
/// account has code overridden.
pub proof fn law_plans_override_only_what_they_need(
    plan: PlanModel,
    extractor: Bytes,
    dispatcher: Bytes,
    address: Address,
)
    ensures
        ({
            let codes = plan_overrides(Map::empty(), plan, extractor, dispatcher);
            let is_read = exists|i: int|
                0 <= i < plan.pieces().len() && (#[trigger] plan.pieces()[i]).0 == address;
            &&& is_read ==> codes.contains_key(address) && codes[address] == extractor
            &&& !is_read && plan is Multi && address == multicall3_address() ==> codes.contains_key(
                address,
            ) && codes[address] == dispatcher
            &&& !is_read && !(plan is Multi && address == multicall3_address())
                ==> !codes.contains_key(address)
        }),
{
    match plan {
        PlanModel::Single { piece } => {
            assert(plan.pieces()[0] == piece);
            assert forall|i: int| 0 <= i < plan.pieces().len() implies #[trigger] plan.pieces()[i]
                == piece by {}
        },
        PlanModel::Multi { pieces } => {
            assert(plan.pieces() == pieces);
            assert forall|i: int| 0 <= i < pieces.len() implies #[trigger] plan.pieces()[i]
                == pieces[i] by {}
            if exists|i: int| 0 <= i < pieces.len() && (#[trigger] pieces[i]).0 == address {
                let i = choose|i: int|
                    0 <= i < pieces.len() && (#[trigger] pieces[i]).0 == address;
                assert(plan.pieces()[i].0 == address);
            }
            law_read_accounts_get_the_extractor(
                Map::empty().insert(multicall3_address(), dispatcher),
                pieces,
                extractor,
                address,
            );
        },
    }
}

/// In a request with several calls, a plan is put with those before it while they stay
/// within the budget, so that the first plan of each group would not have fitted into
/// the group before it.
pub proof fn law_groups_are_filled(
    rest: Seq<PlanModel>,
    current: Seq<PlanModel>,
    budget: nat,
    i: int,
)
    requires
        0 <= i < grouped(rest, current, budget).len() - 1,
    ensures
        grouped(rest, current, budget)[i + 1].len() > 0,
        plan_slot_total(grouped(rest, current, budget)[i]) + grouped(rest, current, budget)[i
            + 1][0].slot_count() > budget,
    decreases rest.len(),
{
    if rest.len() > 0 {
        let first = rest.first();
        let others = rest.drop_first();
        if current.len() > 0 && plan_slot_total(current) + first.slot_count() > budget {
            let later = grouped(others, seq![first], budget);
            let all = grouped(rest, current, budget);
            assert(all == seq![current] + later);
            lemma_first_group(others, seq![first], budget);
            if i > 0 {
                law_groups_are_filled(others, seq![first], budget, i - 1);
                assert(all[i] == later[i - 1]);
                assert(all[i + 1] == later[i]);
            } else {
                assert(all[0] == current);
                assert(all[1] == later[0]);
                assert(later[0][0] == first);
            }
        } else {
            law_groups_are_filled(others, current.push(first), budget, i);
        }
    }
}

/// The first group starts with what was gathered.
proof fn lemma_first_group(rest: Seq<PlanModel>, current: Seq<PlanModel>, budget: nat)
    requires
        current.len() > 0,
    ensures
        grouped(rest, current, budget).len() > 0,
        grouped(rest, current, budget)[0].len() > 0,
        grouped(rest, current, budget)[0][0] == current[0],
    decreases rest.len(),
{
    if rest.len() > 0 {
        let first = rest.first();
        let others = rest.drop_first();
        if plan_slot_total(current) + first.slot_count() > budget {
        } else {
            lemma_first_group(others, current.push(first), budget);
        }
    }
}

/// Pieces share a call while they stay within its budgets, so that the first piece of
/// each shared call would not have fitted into the one before it.
pub proof fn law_shared_calls_are_filled(
    rest: Seq<Piece>,
    current: Seq<Piece>,
    n: nat,
    m: nat,
    i: int,
)
    requires
        0 <= i < greedy(rest, current, n, m).len() - 1,
    ensures
        ({
            let plans = greedy(rest, current, n, m);
            let next = plans[i + 1].pieces();
            &&& next.len() > 0
            &&& plans[i].slot_count() + next[0].1.len() > n || plans[i].pieces().len() >= m
        }),
    decreases rest.len(),
{
    if rest.len() > 0 {
        let first = rest.first();
        let others = rest.drop_first();
        if current.len() > 0 && overflows(current, first, n, m) {
            let later = greedy(others, seq![first], n, m);
            let all = greedy(rest, current, n, m);
            assert(all == flushed(current) + later);
            assert(flushed(current).len() == 1);
            assert(flushed(current)[0].pieces() =~= current);
            lemma_first_plan(others, seq![first], n, m);
            if i > 0 {
                law_shared_calls_are_filled(others, seq![first], n, m, i - 1);
                assert(all[i] == later[i - 1]);
                assert(all[i + 1] == later[i]);
            } else {
                assert(all[0] == flushed(current)[0]);
                assert(all[1] == later[0]);
            }
        } else {
            law_shared_calls_are_filled(others, current.push(first), n, m, i);
        }
    }
}

/// The first shared call starts with what was gathered.
proof fn lemma_first_plan(rest: Seq<Piece>, current: Seq<Piece>, n: nat, m: nat)
    requires
        current.len() > 0,
    ensures
        greedy(rest, current, n, m).len() > 0,
        greedy(rest, current, n, m)[0].pieces().len() > 0,
        greedy(rest, current, n, m)[0].pieces()[0] == current[0],
    decreases rest.len(),
{
    if rest.len() > 0 {
        let first = rest.first();
        let others = rest.drop_first();
        if overflows(current, first, n, m) {
            assert(greedy(rest, current, n, m)[0] == flushed(current)[0]);
        } else {
            lemma_first_plan(others, current.push(first), n, m);
        }
    }
}

/// Calls are bundled only where that is asked for and the block has a number or a tag;
/// a plan at the dispatcher's own account is never bundled with others.
pub proof fn law_conflicting_plans_travel_alone(
    shipping: Shipping,
    requests: Seq<(Address, U256)>,
    block: BlockId,
    config: BulkCallConfig,
)
    requires
        is_shipping(shipping, requests, block, config),
    ensures
        shipping is CallMany <==> config.dispatch == CallDispatch::CallMany && block is Number,
        shipping matches Shipping::CallMany { number, groups, conflicting } ==> {
            &&& block == BlockId::Number(number)
            &&& forall|i: int|
                0 <= i < conflicting@.len() ==> {
                    let plan = (#[trigger] conflicting@[i])@;
                    plan is Single && plan.pieces()[0].0 == multicall3_address()
                }
        },
{
    if let Shipping::CallMany { number, groups, conflicting } = shipping {
        let plans = crate::bulk_storage::dispatch::config_plans(requests, config);
        let pred = |p: PlanModel| conflicts(p);
        let apart = crate::bulk_storage::planning::plans_of(conflicting@);
        assert forall|i: int| 0 <= i < conflicting@.len() implies {
            let plan = (#[trigger] conflicting@[i])@;
            plan is Single && plan.pieces()[0].0 == multicall3_address()
        } by {
            assert(apart[i] == conflicting@[i]@);
            plans.lemma_filter_pred(pred, i);
            assert(conflicts(apart[i]));
        }
    }
}

/// Nothing is fetched where nothing is asked for. Without another way every request is
/// sent in bulk; with one, small requests take it, and so does every request while bulk
/// calls have failed too often in a row.
pub proof fn law_requests_take_their_way(state: BulkFetcher, count: nat, has_fallback: bool)
    ensures
        state.spec_route(count, has_fallback) is Nothing <==> count == 0,
        count > 0 && !has_fallback ==> state.spec_route(count, has_fallback) is Bulk,
        count > 0 && count < state.config.point_read_threshold && has_fallback
            ==> state.spec_route(count, has_fallback) is Fallback,
        count > 0 && state.failures >= 2 && has_fallback ==> state.spec_route(
            count,
            has_fallback,
        ) is Fallback,
        count >= state.config.point_read_threshold && state.failures < 2 && count > 0
            ==> state.spec_route(count, has_fallback) is Bulk,
{
}

/// How many failures in a row are counted after some batches.
pub open spec fn streak_of(batches: Seq<Seq<SlotResult>>) -> usize
    decreases batches.len(),
{
    if batches.len() == 0 {
        0
    } else {
        streak_after(streak_of(batches.drop_last()), batches.last())
    }
}

/// The failures in a row are the batches with an error of the provider since the last
/// batch that read anything: a batch that read anything starts the count anew, one with
/// such an error and nothing read adds one, and any other leaves it.
pub proof fn law_failures_in_a_row_are_counted(batches: Seq<Seq<SlotResult>>, from: int)
    requires
        0 <= from <= batches.len() < usize::MAX,
        from > 0 ==> any_read(batches[from - 1]),
        forall|i: int| from <= i < batches.len() ==> !any_read(#[trigger] batches[i]),
    ensures
        streak_of(batches) == provider_failures(batches.skip(from)),
        provider_failures(batches.skip(from)) <= batches.len() - from,
    decreases batches.len(),
{
    if from == batches.len() {
        assert(batches.skip(from) =~= Seq::empty());
        if batches.len() > 0 {
            assert(batches.last() == batches[from - 1]);
        }
    } else {
        let fewer = batches.drop_last();
        let last = batches.len() - 1;
        assert forall|i: int| from <= i < fewer.len() implies !any_read(#[trigger] fewer[i]) by {
            assert(!any_read(batches[i]));
        }
        law_failures_in_a_row_are_counted(fewer, from);
        assert(batches.skip(from).drop_last() =~= fewer.skip(from));
        assert(batches.skip(from).last() == batches[last]);
        assert(!any_read(batches[last]));
    }
}

/// How many batches hold an error of the provider.
pub open spec fn provider_failures(batches: Seq<Seq<SlotResult>>) -> nat
    decreases batches.len(),
{
    if batches.len() == 0 {
        0
    } else {
        provider_failures(batches.drop_last()) + if any_provider_error(batches.last()) {
            1nat
        } else {
            0nat
        }
    }
}

/// What was read is kept as it was read, and what was not is asked for again: each
/// result that was read is kept, each that was not is named by its account and slot, and
/// no other is.
pub proof fn law_reads_are_kept_and_failures_repeated(results: Seq<SlotResult>, result: SlotResult)
    ensures
        read_results(results).contains(result) <==> results.contains(result) && result.2 is Ok,
        failed_requests(results).contains((result.0, result.1)) <==> exists|i: int|
            0 <= i < results.len() && (#[trigger] results[i]).0 == result.0 && results[i].1
                == result.1 && results[i].2 is Err,
{
    let good = |r: SlotResult| r.2 is Ok;
    let bad = |r: SlotResult| !(r.2 is Ok);
    let kept = results.filter(good);
    let dropped = results.filter(bad);
    if kept.contains(result) {
        let i = kept.index_of(result);
        results.lemma_filter_contains_rev(good, result);
        results.lemma_filter_pred(good, i);
    }
    if results.contains(result) && result.2 is Ok {
        let i = results.index_of(result);
        results.lemma_filter_contains(good, i);
    }
    let named = failed_requests(results);
    if named.contains((result.0, result.1)) {
        let k = named.index_of((result.0, result.1));
        results.lemma_filter_pred(bad, k);
        assert(dropped.contains(dropped[k]));
        results.lemma_filter_contains_rev(bad, dropped[k]);
        let i = results.index_of(dropped[k]);
        assert(results[i].2 is Err);
    }
    if exists|i: int|
        0 <= i < results.len() && (#[trigger] results[i]).0 == result.0 && results[i].1 == result.1
            && results[i].2 is Err {
        let i = choose|i: int|
            0 <= i < results.len() && (#[trigger] results[i]).0 == result.0 && results[i].1
                == result.1 && results[i].2 is Err;
        results.lemma_filter_contains(bad, i);
        let k = dropped.index_of(results[i]);
        assert(named[k] == (result.0, result.1));
    }
}

/// Programs that share a call have accounts of their own, none of them the dispatcher's;
/// a call is never shared by one alone.
pub proof fn law_bundled_programs_do_not_collide(programs: Seq<StorageProgram>, j: int, k: int)
    requires
        programs.len() <= usize::MAX,
        0 <= j < bundle_of(programs).len(),
        0 <= k < bundle_of(programs).len(),
        j != k,
    ensures
        bundle_of(programs).len() != 1,
        (bundle_of(programs)[j] as int) < programs.len(),
        programs[bundle_of(programs)[j] as int].target != multicall3_address(),
        programs[bundle_of(programs)[j] as int].target != programs[bundle_of(
            programs,
        )[k] as int].target,
{
    let shared = shareable_below(programs, programs.len());
    lemma_shareable(programs, programs.len(), j);
    lemma_shareable(programs, programs.len(), k);
    let a = shared[j] as int;
    let b = shared[k] as int;
    if j < k {
        lemma_shareable_order(programs, programs.len(), j, k);
        assert(programs[a].target != programs[b].target);
    } else {
        lemma_shareable_order(programs, programs.len(), k, j);
        assert(programs[b].target != programs[a].target);
    }
}

/// What is listed as shareable is.
proof fn lemma_shareable(programs: Seq<StorageProgram>, n: nat, j: int)
    requires
        n <= programs.len() <= usize::MAX,
        0 <= j < shareable_below(programs, n).len(),
    ensures
        shareable_below(programs, n)[j] < n,
        shareable(programs, shareable_below(programs, n)[j] as int),
    decreases n,
{
    let earlier = shareable_below(programs, (n - 1) as nat);
    if j < earlier.len() {
        lemma_shareable(programs, (n - 1) as nat, j);
    }
}

/// What is shareable is listed in order.
proof fn lemma_shareable_order(programs: Seq<StorageProgram>, n: nat, j: int, k: int)
    requires
        n <= programs.len() <= usize::MAX,
        0 <= j < k < shareable_below(programs, n).len(),
    ensures
        shareable_below(programs, n)[j] < shareable_below(programs, n)[k],
    decreases n,
{
    let earlier = shareable_below(programs, (n - 1) as nat);
    if k < earlier.len() {
        lemma_shareable_order(programs, (n - 1) as nat, j, k);
    } else {
        lemma_shareable(programs, (n - 1) as nat, j);
    }
}

/// While programs share a call, the account of each has its code, and the dispatcher's
/// account has the dispatcher's.
pub proof fn law_programs_override_their_accounts(
    programs: Seq<StorageProgram>,
    positions: Seq<usize>,
    dispatcher: Bytes,
    k: int,
)
    requires
        0 <= k < positions.len(),
        forall|j: int| k < j < positions.len() ==> programs[(#[trigger] positions[j]) as int].target
            != programs[positions[k] as int].target,
    ensures
        program_overrides(programs, positions, dispatcher).contains_key(
            programs[positions[k] as int].target,
        ),
        program_overrides(programs, positions, dispatcher)[programs[positions[k] as int].target]
            == programs[positions[k] as int].code,
        (forall|j: int|
            0 <= j < positions.len() ==> programs[(#[trigger] positions[j]) as int].target
                != multicall3_address()) ==> program_overrides(
            programs,
            positions,
            dispatcher,
        )[multicall3_address()] == dispatcher,
    decreases positions.len(),
{
    let fewer = positions.drop_last();
    let last = positions.len() - 1;
    assert(positions[last] == positions.last());
    if k < last {
        assert(programs[positions[last] as int].target != programs[positions[k] as int].target);
        assert(fewer[k] == positions[k]);
        assert forall|j: int| k < j < fewer.len() implies programs[(
        #[trigger] fewer[j]) as int].target != programs[fewer[k] as int].target by {
            assert(programs[positions[j] as int].target != programs[positions[k] as int].target);
        }
        law_programs_override_their_accounts(programs, fewer, dispatcher, k);
    }
    if forall|j: int|
        0 <= j < positions.len() ==> programs[(#[trigger] positions[j]) as int].target
            != multicall3_address() {
        lemma_dispatcher_stays(programs, positions, dispatcher);
    }
}

/// The dispatcher's account keeps the dispatcher's code where no program is there.
proof fn lemma_dispatcher_stays(
    programs: Seq<StorageProgram>,
    positions: Seq<usize>,
    dispatcher: Bytes,
)
    requires
        forall|j: int|
            0 <= j < positions.len() ==> programs[(#[trigger] positions[j]) as int].target
                != multicall3_address(),
    ensures
        program_overrides(programs, positions, dispatcher).contains_key(multicall3_address()),
        program_overrides(programs, positions, dispatcher)[multicall3_address()] == dispatcher,
    decreases positions.len(),
{
    if positions.len() > 0 {
        let fewer = positions.drop_last();
        assert forall|j: int| 0 <= j < fewer.len() implies programs[(
        #[trigger] fewer[j]) as int].target != multicall3_address() by {
            assert(programs[positions[j] as int].target != multicall3_address());
        }
        lemma_dispatcher_stays(programs, fewer, dispatcher);
        assert(positions[positions.len() - 1] == positions.last());
    }
}

/// Each program of a shared call has an answer: what it returned, where it succeeded,
/// and a failure where it did not; where the answer as a whole cannot be read, each
/// fails with the reason.
pub proof fn law_each_program_has_its_answer(
    count: nat,
    decoded: Result<Vec<SubcallResult>, String>,
    k: int,
)
    requires
        0 <= k < count,
    ensures
        decoded_program_results(count, decoded).len() == count,
        match decoded {
            Err(details) => decoded_program_results(count, decoded)[k] == Err::<
                Bytes,
                StorageFetchError,
            >(StorageFetchError::ResponseDecode { details }),
            Ok(list) => if list@.len() != count {
                decoded_program_results(count, decoded)[k] is Err
            } else if list@[k].success {
                decoded_program_results(count, decoded)[k] == Ok::<Bytes, StorageFetchError>(
                    list@[k].return_data,
                )
            } else {
                decoded_program_results(count, decoded)[k] == Err::<Bytes, StorageFetchError>(
                    StorageFetchError::ProgramFailed,
                )
            },
        },
{
}

/// Two words for each account are read as its balance and the hash of its code, in the
/// order of the accounts.
pub proof fn law_account_fields_are_read_in_order(
    before: Seq<u8>,
    balance: U256,
    code_hash: B256,
    rest: Seq<u8>,
    i: int,
    sample: AccountFieldsSample,
)
    requires
        i >= 0,
        before.len() == 64 * i,
        is_sample(
            sample,
            before + be_bytes(balance@, 32) + be_bytes(code_hash@, 32) + rest,
            i,
        ),
    ensures
        sample.balance == balance,
        sample.code_hash == code_hash,
{
    lemma_byte_base_values();
    lemma_be_bytes_round_trip(balance@, 32);
    lemma_be_bytes_round_trip(code_hash@, 32);
    let data = before + be_bytes(balance@, 32) + be_bytes(code_hash@, 32) + rest;
    assert(data.subrange(64 * i, 64 * i + 32) =~= be_bytes(balance@, 32));
    assert(data.subrange(64 * i + 32, 64 * i + 64) =~= be_bytes(code_hash@, 32));
    U256::lemma_injective(sample.balance, balance);
    B256::lemma_injective(sample.code_hash, code_hash);
}

/// No budget of a bulk call is ever less than one, and every other one is as set.
pub proof fn law_budgets_are_at_least_one(config: BulkCallConfig)
    ensures
        ({
            let sane = config.spec_normalized();
            &&& sane.max_slots_per_call >= 1 && sane.max_targets_per_call >= 1
                && sane.max_concurrent_calls >= 1 && sane.max_slots_per_request >= 1
            &&& config.max_slots_per_call >= 1 ==> sane.max_slots_per_call
                == config.max_slots_per_call
            &&& config.max_targets_per_call >= 1 ==> sane.max_targets_per_call
                == config.max_targets_per_call
            &&& config.max_concurrent_calls >= 1 ==> sane.max_concurrent_calls
                == config.max_concurrent_calls
            &&& config.max_slots_per_request >= 1 ==> sane.max_slots_per_request
                == config.max_slots_per_request
            &&& sane.point_read_threshold == config.point_read_threshold
            &&& sane.pre_shanghai_extractor == config.pre_shanghai_extractor
            &&& sane.dispatch == config.dispatch
            &&& sane.spec_normalized() == sane
        }),
{
}

/// For several plans sent together, every account that one of them reads has the
/// extractor's code, unless a later shared plan needs the dispatcher there; and no account
/// has code overridden that none of them needs.
pub proof fn law_bundles_override_only_what_they_need(
    plans: Seq<PlanModel>,
    extractor: Bytes,
    dispatcher: Bytes,
    address: Address,
)
    ensures
        ({
            let codes = bundle_overrides(plans, extractor, dispatcher);
            &&& codes.contains_key(address) ==> codes[address] == extractor || (codes[address]
                == dispatcher && address == multicall3_address())
            &&& address != multicall3_address() ==> (codes.contains_key(address) <==> exists|
                i: int,
                k: int,
            |
                0 <= i < plans.len() && 0 <= k < plans[i].pieces().len() && (
                #[trigger] plans[i].pieces()[k]).0 == address)
            &&& address == multicall3_address() && (exists|i: int|
                0 <= i < plans.len() && #[trigger] plans[i] is Multi) ==> codes.contains_key(address)
        }),
    decreases plans.len(),
{
    if plans.len() > 0 {
        let fewer = plans.drop_last();
        let last = plans.len() - 1;
        let plan = plans.last();
        let before = bundle_overrides(fewer, extractor, dispatcher);
        assert(plans[last] == plan);
        law_bundles_override_only_what_they_need(fewer, extractor, dispatcher, address);
        match plan {
            PlanModel::Single { piece } => {
                assert(plans[last].pieces()[0] == piece);
            },
            PlanModel::Multi { pieces } => {
                law_read_accounts_get_the_extractor(
                    before.insert(multicall3_address(), dispatcher),
                    pieces,
                    extractor,
                    address,
                );
                if exists|k: int| 0 <= k < pieces.len() && (#[trigger] pieces[k]).0 == address {
                    let k = choose|k: int|
                        0 <= k < pieces.len() && (#[trigger] pieces[k]).0 == address;
                    assert(plans[last].pieces()[k].0 == address);
                }
            },
        }
        if exists|i: int, k: int|
            0 <= i < plans.len() && 0 <= k < plans[i].pieces().len() && (
            #[trigger] plans[i].pieces()[k]).0 == address {
            let (i, k) = choose|i: int, k: int|
                0 <= i < plans.len() && 0 <= k < plans[i].pieces().len() && (
                #[trigger] plans[i].pieces()[k]).0 == address;
            if i < last {
                assert(fewer[i].pieces()[k].0 == address);
            } else {
                assert(plan.pieces()[k].0 == address);
            }
        }
        if exists|i: int, k: int|
            0 <= i < fewer.len() && 0 <= k < fewer[i].pieces().len() && (
            #[trigger] fewer[i].pieces()[k]).0 == address {
            let (i, k) = choose|i: int, k: int|
                0 <= i < fewer.len() && 0 <= k < fewer[i].pieces().len() && (
                #[trigger] fewer[i].pieces()[k]).0 == address;
            assert(plans[i].pieces()[k].0 == address);
        }
        if exists|i: int| 0 <= i < plans.len() && #[trigger] plans[i] is Multi {
            let i = choose|i: int| 0 <= i < plans.len() && #[trigger] plans[i] is Multi;
            if i < last {
                assert(fewer[i] is Multi);
            }
        }
    }
}

/// What is fetched is what was asked for: without another way it is what the bulk call
/// answered; where the other way is taken it is what that answered to the same request.
/// After a bulk call with another way, what was read is kept as it was read, and the rest is
/// what the other way answered to exactly what had failed.
pub proof fn law_failed_slots_are_asked_for_again<B, F>(
    before: BulkFetcher,
    after: BulkFetcher,
    requests: Vec<(Address, U256)>,
    block: BlockId,
    bulk: B,
    fallback: Option<F>,
    out: Vec<SlotResult>,
    given: Seq<SlotResult>,
) where
    B: Fn(Vec<(Address, U256)>, BlockId, BulkCallConfig) -> Vec<SlotResult>,
    F: Fn(Vec<(Address, U256)>, BlockId) -> Vec<SlotResult>,

    requires
        before.is_fetch(after, requests, block, bulk, fallback, out),
        forall|results: Vec<SlotResult>| #[trigger]
            call_ensures(bulk, (requests, block, before.config), results) ==> results@ == given,
    ensures
        requests@.len() == 0 ==> out@.len() == 0 && after == before,
        requests@.len() > 0 && fallback is None ==> out@ == given,
        after.config == before.config,
        before.spec_route(requests@.len(), fallback is Some) is Fallback ==> call_ensures(
            fallback->0,
            (requests, block),
            out,
        ) && after == before,
        before.spec_route(requests@.len(), fallback is Some) is Bulk && fallback is Some ==> {
            &&& after.failures == streak_after(before.failures, given)
            &&& read_results(given).is_prefix_of(out@)
            &&& (forall|i: int| 0 <= i < given.len() ==> (#[trigger] given[i]).2 is Ok) ==> out@
                == given
            &&& failed_requests(given).len() > 0 ==> exists|
                failed: Vec<(Address, U256)>,
                repeated: Vec<SlotResult>,
            |
                failed@ == failed_requests(given) && #[trigger] call_ensures(
                    fallback->0,
                    (failed, block),
                    repeated,
                ) && out@ == read_results(given) + repeated@
        },
{
    if before.spec_route(requests@.len(), fallback is Some) is Bulk && fallback is Some {
        if forall|i: int| 0 <= i < given.len() ==> (#[trigger] given[i]).2 is Ok {
            lemma_all_read(given);
        }
    }
}

/// Where everything was read, everything is kept and nothing is asked for again.
proof fn lemma_all_read(results: Seq<SlotResult>)
    requires
        forall|i: int| 0 <= i < results.len() ==> (#[trigger] results[i]).2 is Ok,
    ensures
        read_results(results) == results,
        failed_requests(results).len() == 0,
    decreases results.len(),
{
    reveal(Seq::filter);
    if results.len() > 0 {
        let fewer = results.drop_last();
        assert forall|i: int| 0 <= i < fewer.len() implies (#[trigger] fewer[i]).2 is Ok by {
            assert(results[i].2 is Ok);
        }
        lemma_all_read(fewer);
        let last = results.len() - 1;
        assert(results[last].2 is Ok);
        assert(results.last() == results[last]);
        assert(fewer.push(results.last()) =~= results);
    }
}

/// Each entry of a bundle's answer is read as a call of its own; one without a value fails
/// every slot of its plan with what was reported.
pub proof fn law_entries_of_bundles_are_read_alone(
    plan: PlanModel,
    entry: CallManyEntry,
    out: Seq<SlotResult>,
)
    requires
        is_entry_results(plan, entry, out),
    ensures
        entry.value is None ==> out == every_slot_failed(
            plan.pieces(),
            StorageFetchError::CallManyFailed { reported: entry.error },
        ),
        entry.value matches Some(data) ==> (plan matches PlanModel::Single { piece } ==> out
            == direct_results(piece, data@)),
        forall|i: int|
            entry.value is None && 0 <= i < out.len() ==> (#[trigger] out[i]).2 == Err::<
                U256,
                StorageFetchError,
            >(StorageFetchError::CallManyFailed { reported: entry.error }),
{
    if entry.value is None {
        let error = StorageFetchError::CallManyFailed { reported: entry.error };
        assert forall|i: int| 0 <= i < out.len() implies (#[trigger] out[i]).2 == Err::<
            U256,
            StorageFetchError,
        >(error) by {
            lemma_every_slot_failed(plan.pieces(), error, i);
        }
    }
}

/// The results of a bundle are those of its entries, one after the other.
pub proof fn law_results_of_bundles_are_joined(parts: Seq<Seq<SlotResult>>, part: Seq<SlotResult>)
    ensures
        concat_results(Seq::empty()).len() == 0,
        concat_results(parts.push(part)) == concat_results(parts) + part,
{
    assert(parts.push(part).drop_last() =~= parts);
}

/// Each program of a shared call is sent as it is: to its account, with its own calldata,
/// and it may fail alone.
pub proof fn law_programs_are_sent_as_they_are(
    programs: Seq<StorageProgram>,
    positions: Seq<usize>,
    k: int,
)
    requires
        0 <= k < positions.len(),
    ensures
        program_calls(programs, positions).len() == positions.len(),
        program_calls(programs, positions)[k] == (
            programs[positions[k] as int].target@,
            true,
            programs[positions[k] as int].calldata@,
        ),
{
}

/// The accounts whose fields are asked for are sent as words, one after the other.
pub proof fn law_accounts_are_sent_as_words(addresses: Seq<Address>, i: int)
    requires
        0 <= i < addresses.len(),
    ensures
        padded_addresses(addresses).len() == 32 * addresses.len(),
        padded_addresses(addresses).subrange(32 * i, 32 * i + 32) == be_bytes(addresses[i]@, 32),
    decreases addresses.len(),
{
    let fewer = addresses.drop_last();
    let last = addresses.len() - 1;
    assert(addresses[last] == addresses.last());
    lemma_be_bytes_len(addresses.last()@, 32);
    if fewer.len() > 0 {
        law_accounts_are_sent_as_words(fewer, if i < last { i } else { 0 });
    } else {
        assert(padded_addresses(fewer).len() == 0);
    }
    if i < last {
        assert(fewer[i] == addresses[i]);
        assert(padded_addresses(addresses).subrange(32 * i, 32 * i + 32) =~= padded_addresses(
            fewer,
        ).subrange(32 * i, 32 * i + 32));
    } else {
        assert(padded_addresses(addresses).subrange(32 * i, 32 * i + 32) =~= be_bytes(
            addresses[i]@,
            32,
        ));
    }
}

/// Bytes of a number are as many as asked for.
proof fn lemma_be_bytes_len(value: nat, n: nat)
    ensures
        be_bytes(value, n).len() == n,
    decreases n,
{
    if n > 0 {
        lemma_be_bytes_len(value / 256, (n - 1) as nat);
    }
}

/// A word of a block's context is the number that was written there, and a number that is
/// too large for its field is the largest.
pub proof fn law_context_words_are_numbers(
    before: Seq<u8>,
    value: U256,
    rest: Seq<u8>,
    i: int,
)
    requires
        i >= 0,
        before.len() == 32 * i,
    ensures
        context_word(before + be_bytes(value@, 32) + rest, i) == value@,
        value@ <= u64::MAX ==> capped_u64(value@) == value@,
        value@ > u64::MAX ==> capped_u64(value@) == u64::MAX,
{
    lemma_byte_base_values();
    lemma_be_bytes_round_trip(value@, 32);
    let data = before + be_bytes(value@, 32) + rest;
    assert(data.subrange(32 * i, 32 * i + 32) =~= be_bytes(value@, 32));
}

/// The slots of plans add up: none for no plans, and with each plan its own.
pub proof fn law_slots_of_plans_add_up(plans: Seq<PlanModel>, plan: PlanModel, pieces: Seq<Piece>, piece: Piece)
    ensures
        plan_slot_total(Seq::empty()) == 0,
        plan_slot_total(plans.push(plan)) == plan_slot_total(plans) + slot_total(plan.pieces()),
        slot_total(Seq::empty()) == 0,
        slot_total(pieces.push(piece)) == slot_total(pieces) + piece.1.len(),
{
    assert(plans.push(plan).drop_last() =~= plans);
    assert(pieces.push(piece).drop_last() =~= pieces);
}

/// Several programs with accounts of their own, none of them the dispatcher's, all share
/// one call.
pub proof fn law_programs_of_their_own_share_a_call(programs: Seq<StorageProgram>, i: int)
    requires
        2 <= programs.len() <= usize::MAX,
        0 <= i < programs.len(),
        forall|j: int|
            0 <= j < programs.len() ==> (#[trigger] programs[j]).target != multicall3_address(),
        forall|j: int, k: int|
            0 <= j < k < programs.len() ==> (#[trigger] programs[j]).target != (
            #[trigger] programs[k]).target,
    ensures
        bundle_of(programs).len() == programs.len(),
        bundle_of(programs)[i] == i,
{
    lemma_all_shareable(programs, programs.len());
}

/// Where every program can share, all below a place are listed.
proof fn lemma_all_shareable(programs: Seq<StorageProgram>, n: nat)
    requires
        n <= programs.len() <= usize::MAX,
        forall|j: int|
            0 <= j < programs.len() ==> (#[trigger] programs[j]).target != multicall3_address(),
        forall|j: int, k: int|
            0 <= j < k < programs.len() ==> (#[trigger] programs[j]).target != (
            #[trigger] programs[k]).target,
    ensures
        shareable_below(programs, n).len() == n,
        forall|i: int| 0 <= i < n ==> #[trigger] shareable_below(programs, n)[i] == i,
    decreases n,
{
    if n > 0 {
        lemma_all_shareable(programs, (n - 1) as nat);
        assert(shareable(programs, n - 1));
    }
}

} // verus!
