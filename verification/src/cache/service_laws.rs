//! What comes of asking others: for slots, proofs, samples and reads.

use crate::access_list::Entry;
use crate::access_set::AccessModel;
use crate::block::{BlockId, BlockNumberOrTag};
use crate::bulk_storage::programs::AccountFieldsSample;
use crate::bulk_storage::response::SlotResult;
use crate::cache::builder::EvmCacheBuilder;
use crate::cache::code_seeds::CodeSeedState;
use crate::cache::config::{CacheSpeedMode, StorageBatchConfig};
use crate::cache::erc20::is_word_read;
use crate::cache::evm_cache::EvmCache;
use crate::cache::fetch_laws::{
    is_last_fetched, law_only_corrected_slots_read_otherwise, law_results_are_values_or_failures,
    law_warmed_slots_are_held,
};
use crate::cache::freshness::{changes_of, law_verified_slots_converge, PrewarmReport};
use crate::cache::hashed_slots::{holder_slots, is_tracked};
use crate::cache::hydration::{
    is_proof_request, ProofAnswer, ReadSetHydrationFailure, ReadSetHydrationReport,
};
use crate::cache::layers::{lookup, slots_at, Layers};
use crate::cache::mapping::TrackedMapping;
use crate::cache::point_reads::{is_point_result, reply_slots, without_runtime, CallReply};
use crate::cache::read_set::{
    Discovery, ReadSetWarmupBatch, ReadSetWarmupCall, ReadSetWarmupConfig, ReadSetWarmupError,
    ReadSetWarmupReport,
};
use crate::cache::seeding::{
    checkable_set, etched_set, host_report, last_samples, pending_set, CodeVerifyReport,
    UnverifiableReason,
};
use crate::cache::state_update::SlotChange;
use crate::cache::trace::{block_changes, block_param, count_of, with_trace, with_traces, Json};
use crate::cache::trace_laws::law_quantities_are_counts;
use crate::collections::lemma_in_order_lists;
use crate::errors::{
    CacheError, RuntimeError, StorageFetchError, TraceFault,
};
use crate::execution::ExecutionResult;
use crate::foreign::uint256_result;
use crate::primitives::{Address, B256, U256};
use vstd::prelude::*;

verus! {

/// Where there is nothing to fetch with, nothing is warmed up: nothing changes, and each
/// slot that was asked for is told as failed for that reason.
pub proof fn law_nothing_is_warmed_without_a_fetcher<F>(
    before: EvmCache,
    after: EvmCache,
    requests: Vec<(Address, U256)>,
    report: PrewarmReport,
    i: int,
) where F: Fn(Vec<(Address, U256)>, BlockId) -> Vec<SlotResult>
    requires
        before.is_prewarmed(after, requests, None::<F>, report),
        0 <= i < requests@.len(),
    ensures
        after == before,
        report.loaded == 0,
        report.failed@.len() == requests@.len(),
        report.failed@[i] == (
            requests@[i].0,
            requests@[i].1,
            StorageFetchError::NoBatchFetcher,
        ),
{
}

/// Slots are warmed up with what is fetched for them at the block of the cache: once the
/// fetcher answers with a value for a slot, the backend holds it. Loaded and failed slots
/// add up to the answers.
pub proof fn law_fetched_slots_are_warmed<F>(
    before: EvmCache,
    after: EvmCache,
    requests: Vec<(Address, U256)>,
    fetch: F,
    given: Seq<SlotResult>,
    report: PrewarmReport,
    at: int,
) where F: Fn(Vec<(Address, U256)>, BlockId) -> Vec<SlotResult>
    requires
        before.is_prewarmed(after, requests, Some(fetch), report),
        forall|results: Vec<SlotResult>| #[trigger]
            call_ensures(fetch, (requests, before.context.block), results) ==> results@ == given,
        is_last_fetched(given, given[at].0, given[at].1, at),
    ensures
        lookup(slots_at(after.layers@.storage, given[at].0), given[at].1) == Some(
            given[at].2->Ok_0,
        ),
        report.loaded + report.failed@.len() == given.len(),
        after.layers@.overlay == before.layers@.overlay,
{
    let results = choose|results: Vec<SlotResult>| #[trigger]
        call_ensures(fetch, (requests, before.context.block), results)
            && crate::cache::freshness::prewarm_answer(
            before.layers@,
            after.layers@,
            results@,
            report,
        );
    law_warmed_slots_are_held(
        before.layers@,
        after.layers@,
        given,
        report,
        given[at].0,
        given[at].1,
    );
}

/// Where nothing is asked for nothing is fetched; otherwise it is a warm-up as any other.
pub proof fn law_nothing_asked_is_nothing_fetched<F>(
    before: EvmCache,
    after: EvmCache,
    requests: Vec<(Address, U256)>,
    fetcher: Option<F>,
    report: PrewarmReport,
) where F: Fn(Vec<(Address, U256)>, BlockId) -> Vec<SlotResult>
    requires
        before.is_warmed_by(after, requests, fetcher, report),
    ensures
        requests@.len() == 0 ==> after == before && report.loaded == 0 && report.failed@.len() == 0,
        requests@.len() > 0 ==> before.is_prewarmed(after, requests, fetcher, report),
{
}

/// Reconciling succeeds where anything was fetched, and tells what differed; where nothing
/// was, it fails with the number of slots asked for and no slot reads otherwise.
pub proof fn law_reconciling_needs_an_answer<F>(
    before: EvmCache,
    after: EvmCache,
    slots: Vec<(Address, U256)>,
    fetch: F,
    r: Result<Vec<SlotChange>, CacheError>,
    results: Vec<SlotResult>,
    address: Address,
    slot: U256,
) where F: Fn(Vec<(Address, U256)>, BlockId) -> Vec<SlotResult>
    requires
        before.is_reconciled(after, slots, fetch, r, results),
    ensures
        call_ensures(fetch, (slots, before.context.block), results),
        r is Ok <==> exists|i: int| 0 <= i < results@.len() && (#[trigger] results@[i]).2 is Ok,
        r matches Err(error) ==> error == (CacheError::ReconcileFetchFailed {
            requested: slots@.len() as usize,
        }) && after.layers@.slot(address, slot) == before.layers@.slot(address, slot),
        r matches Ok(changed) ==> changed@ == changes_of(before.layers@, slots@, results@),
{
    if results@.len() > 0 {
        law_results_are_values_or_failures(results@, 0);
    } else {
        assert(crate::cache::freshness::fetched_slots(results@).len() == 0);
    }
    if r is Err {
        law_only_corrected_slots_read_otherwise(
            before,
            after,
            slots@,
            results@,
            address,
            slot,
        );
    }
}

/// After slots were fetched and verified, each that was asked for and fetched reads what
/// was fetched, whatever was cached; and what is told as changed is what differed.
pub proof fn law_verified_slots_read_as_fetched<F>(
    before: EvmCache,
    after: EvmCache,
    slots: Vec<(Address, U256)>,
    fetch: F,
    r: Result<Vec<SlotChange>, CacheError>,
    results: Vec<SlotResult>,
    i: int,
) where F: Fn(Vec<(Address, U256)>, BlockId) -> Vec<SlotResult>
    requires
        before.is_fetched_and_verified(after, slots, fetch, r, results),
        0 <= i < results@.len(),
        results@[i].2 is Ok,
        slots@.contains((results@[i].0, results@[i].1)),
        forall|j: int, k: int|
            0 <= j < k < results@.len() ==> ((#[trigger] results@[j]).0, results@[j].1) != (
                (#[trigger] results@[k]).0,
                results@[k].1,
            ),
    ensures
        after.layers@.slot_or_zero(results@[i].0, results@[i].1) == results@[i].2->Ok_0,
        r is Ok,
        r->Ok_0@ == changes_of(before.layers@, slots@, results@),
{
    law_verified_slots_converge(before.layers@, slots@, results@, i);
}

/// Where there is nothing to fetch proofs with, nothing is brought up to date: nothing
/// changes, each account is told as failed for that reason, and all that was asked for is
/// told as missing. Where nothing is asked for nothing fails.
pub proof fn law_nothing_is_hydrated_without_a_fetcher<P>(
    before: EvmCache,
    after: EvmCache,
    required: AccessModel,
    entries: Seq<Entry>,
    report: ReadSetHydrationReport,
    i: int,
) where P: Fn(Vec<(Address, Vec<U256>)>, BlockId) -> Vec<ProofAnswer>
    requires
        before.is_hydration(after, required, entries, None::<P>, report),
    ensures
        after.layers@ == before.layers@,
        report.accounts_refreshed == 0,
        report.slots_refreshed == 0,
        report.block == before.context.block,
        report.failures@.len() == entries.len(),
        0 <= i < entries.len() ==> report.failures@[i] == (
        ReadSetHydrationFailure::ProofFetcherUnavailable { address: entries[i].0 }),
        entries.len() > 0 ==> report.missing_after@ == required,
{
}

/// A proof is asked for for each account, with the slots wanted of it, in order.
pub proof fn law_proofs_are_asked_for_as_wanted(
    asked: Seq<(Address, Vec<U256>)>,
    entries: Seq<Entry>,
    i: int,
    k: int,
)
    requires
        is_proof_request(asked, entries),
        0 <= i < entries.len(),
    ensures
        asked.len() == entries.len(),
        asked[i].0 == entries[i].0,
        asked[i].1@.len() == entries[i].1.len(),
        0 <= k < entries[i].1.len() ==> asked[i].1@[k]@ == entries[i].1[k]@,
{
    assert(asked[i].0 == entries[i].0);
}

/// A reply to a batch gives each request its own result: the value where one came back, a
/// failure of its own where the provider or the serializer reported one, and the failure
/// of the batch where that was not sent.
pub proof fn law_replies_belong_to_their_requests(
    request: (Address, U256),
    reply: CallReply,
    send_error: Option<String>,
    result: SlotResult,
)
    requires
        is_point_result(request, reply, send_error, result),
    ensures
        result.0 == request.0,
        result.1 == request.1,
        result.2 is Ok <==> reply is Value && send_error is None,
        result.2 matches Ok(value) ==> reply == CallReply::Value(value),
        reply is Unserializable ==> result.2->Err_0 is Serialization
            && result.2->Err_0->Serialization_details == reply->Unserializable_details,
        send_error is Some && !(reply is Unserializable) ==> result.2->Err_0 is BatchSend
            && result.2->Err_0->BatchSend_details == send_error->0,
        send_error is None && reply is Failed ==> result.2->Err_0 is Provider
            && result.2->Err_0->Provider_details == reply->Failed_details,
{
}

/// Without a runtime every request fails for that reason, under its account and slot.
pub proof fn law_without_a_runtime_every_request_fails(
    requests: Seq<(Address, U256)>,
    details: String,
    i: int,
)
    requires
        0 <= i < requests.len(),
    ensures
        without_runtime(requests, details).len() == requests.len(),
        without_runtime(requests, details)[i].0 == requests[i].0,
        without_runtime(requests, details)[i].1 == requests[i].1,
        without_runtime(requests, details)[i].2 == Err::<U256, StorageFetchError>(
            StorageFetchError::Runtime(RuntimeError::MissingRuntime { details }),
        ),
{
}

/// The slots of a proof are those replied, each the same number with its value, in order.
pub proof fn law_proof_slots_are_those_replied(storage_proof: Seq<(B256, U256)>, i: int)
    requires
        0 <= i < storage_proof.len(),
    ensures
        reply_slots(storage_proof).len() == storage_proof.len(),
        reply_slots(storage_proof)[i].0@ == storage_proof[i].0@,
        reply_slots(storage_proof)[i].1 == storage_proof[i].1,
{
}

/// Claims of code are checked against what is sampled of the accounts. Where no claim is
/// pending, nothing happens; where there is nothing to sample with, that is an error; where
/// the sampling failed, nothing changes and each claim is told with the reason.
pub proof fn law_claims_are_checked_against_samples<F>(
    before: EvmCache,
    after: EvmCache,
    fetcher: Option<F>,
    r: Result<CodeVerifyReport, CacheError>,
    address: Address,
) where
    F: Fn(Vec<Address>, BlockId) -> Result<Vec<(Address, AccountFieldsSample)>, StorageFetchError>,

    requires
        before.is_seed_check(after, fetcher, r),
    ensures
        pending_set(before.code_seeds@) == Set::<Address>::empty() ==> r is Ok && after == before,
        pending_set(before.code_seeds@) != Set::<Address>::empty() && fetcher is None ==> r is Err
            && after == before,
        fetcher is Some ==> r is Ok,
        pending_set(before.code_seeds@) == Set::<Address>::empty() && r is Ok
            ==> r->Ok_0@.verified.len() == 0 && r->Ok_0@.mismatched.len() == 0
            && r->Ok_0@.not_deployed.len() == 0 && r->Ok_0@.codeless.len() == 0
            && r->Ok_0@.unverifiable.len() == 0,
{
}

/// Where sampling failed, nothing changes, and each claim that was asked about is told as
/// unverifiable with the reason.
pub proof fn law_failed_samples_settle_nothing(
    before: EvmCache,
    after: EvmCache,
    report: crate::cache::seeding::ReportModel,
    asked: Vec<Address>,
    error: StorageFetchError,
    address: Address,
)
    requires
        before.is_seed_answer(after, report, asked, Err(error)),
        checkable_set(before.code_seeds@).contains(address),
        checkable_set(before.code_seeds@).finite(),
    ensures
        after == before,
        report.unverifiable.contains((address, UnverifiableReason::FetchFailed(error))),
        report.verified.len() == 0,
        report.mismatched.len() == 0,
{
    let base = host_report(before.code_seeds@);
    let asked_set = checkable_set(before.code_seeds@);
    lemma_in_order_lists(asked_set);
    assert(asked@.to_set().contains(address));
    let i = asked@.index_of(address);
    let told = (address, UnverifiableReason::FetchFailed(error));
    assert(report.unverifiable[base.unverifiable.len() + i] == told);
}

/// Where samples came, the claims that were asked about are settled with them: each with
/// the last sample of its account.
pub proof fn law_samples_settle_claims(
    before: EvmCache,
    after: EvmCache,
    report: crate::cache::seeding::ReportModel,
    asked: Vec<Address>,
    samples: Vec<(Address, AccountFieldsSample)>,
    address: Address,
    claimed: B256,
)
    requires
        before.is_seed_answer(after, report, asked, Ok(samples)),
        checkable_set(before.code_seeds@).contains(address),
        checkable_set(before.code_seeds@).finite(),
        lookup(before.code_seeds@, address) == Some(CodeSeedState::Pending { code_hash: claimed }),
    ensures
        match lookup(last_samples(samples@), address) {
            None => lookup(after.code_seeds@, address) == lookup(before.code_seeds@, address),
            Some(found) => if found.code_hash == claimed {
                lookup(after.code_seeds@, address) matches Some(mark) && mark is Verified
                    && mark.spec_code_hash() == claimed && report.verified.contains(address)
            } else {
                lookup(after.code_seeds@, address) is None && after.layers@.info(address) is None
            },
        },
{
    let asked_set = checkable_set(before.code_seeds@);
    lemma_in_order_lists(asked_set);
    assert(asked@.to_set().contains(address));
    let i = asked@.index_of(address);
    let at: u64 = match before.context.block_number {
        Some(number) => number,
        None => 0,
    };
    let state = before.settle_model(host_report(before.code_seeds@));
    crate::cache::seed_laws::law_sampled_claims_are_decided(
        state,
        asked@,
        last_samples(samples@),
        at,
        i,
        claimed,
    );
    let settled = state.settled_all(asked@, last_samples(samples@), at);
    assert(after.settle_model(report) == settled);
    assert(after.code_seeds@ == settled.marks);
    assert(after.layers@ == settled.layers);
}

/// Accounts are either pending, etched or neither, never both.
pub proof fn law_marks_are_of_one_sort(marks: Map<Address, CodeSeedState>, address: Address)
    ensures
        !(pending_set(marks).contains(address) && etched_set(marks).contains(address)),
        etched_set(marks).contains(address) <==> marks.contains_key(address)
            && marks[address] is Etched,
        marks.contains_key(address) ==> pending_set(marks).contains(address) || etched_set(
            marks,
        ).contains(address) || marks[address] is Verified,
{
}

/// A mapping that is known of a token is used without asking; one that is not is asked for
/// with the first holder, and is known from then on. Every holder has its slot told.
pub proof fn law_tracked_mappings_are_known<P>(
    known: Map<Address, TrackedMapping>,
    token: Address,
    holders: Seq<Address>,
    probe: P,
    after: Map<Address, TrackedMapping>,
    r: Result<Option<(TrackedMapping, Vec<(Address, U256)>)>, CacheError>,
    other: Address,
) where P: FnOnce(Address) -> Result<Option<TrackedMapping>, CacheError>
    requires
        is_tracked(known, token, holders, probe, after, r),
    ensures
        known.contains_key(token) ==> after == known && (r matches Ok(Some(found)) && found.0
            == known[token]),
        r matches Ok(Some(found)) ==> lookup(after, token) == Some(found.0) && found.1@
            == holder_slots(found.0, holders),
        r is Err || r == Ok::<Option<(TrackedMapping, Vec<(Address, U256)>)>, CacheError>(None)
            ==> after == known && !known.contains_key(token),
        other != token ==> lookup(after, other) == lookup(known, other),
        !known.contains_key(token) && holders.len() == 0 ==> r == Ok::<
            Option<(TrackedMapping, Vec<(Address, U256)>)>,
            CacheError,
        >(None),
{
}

/// Before calls are warmed up, slots that are known are; and where it is not asked what
/// the calls read, that is all, and each call counts as passed over. Where it is to be
/// asked and cannot be, or the answers are not as many as the calls, that is an error and
/// nothing changes.
pub proof fn law_known_slots_are_warmed_first<D, F>(
    before: EvmCache,
    after: EvmCache,
    batch: ReadSetWarmupBatch,
    config: ReadSetWarmupConfig,
    discover: Option<D>,
    fetcher: Option<F>,
    r: Result<ReadSetWarmupReport, ReadSetWarmupError>,
) where
    D: Fn(&Vec<ReadSetWarmupCall>, BlockId) -> Vec<Discovery>,
    F: Fn(Vec<(Address, U256)>, BlockId) -> Vec<SlotResult>,

    requires
        before.is_read_set_warmup(after, batch, config, discover, fetcher, r),
        batch.calls@.len() <= usize::MAX,
    ensures
        r is Err ==> after == before,
        batch.calls@.len() == 0 || !config.asks(batch.calls@) ==> r is Ok
            && !r->Ok_0.used_access_lists && r->Ok_0.skipped_calls == batch.calls@.len()
            && before.is_warmed_by(after, batch.known_slots, fetcher, r->Ok_0.known),
        batch.calls@.len() > 0 && config.asks(batch.calls@) && discover is None ==> r is Err,
        r is Ok && r->Ok_0.used_access_lists ==> r->Ok_0.skipped_calls == 0
            && r->Ok_0.access_list_successes + r->Ok_0.access_list_failures@.len()
            == batch.calls@.len(),
{
    if batch.calls@.len() > 0 && config.asks(batch.calls@) && discover is Some {
        let answers = choose|answers: Vec<Discovery>| #[trigger]
            call_ensures(discover->0, (&batch.calls, before.context.block), answers)
                && before.is_answered_warmup(after, batch, fetcher, answers, r);
        if r is Ok {
            let (middle, asked) = choose|middle: EvmCache, asked: Vec<(Address, U256)>| #[trigger]
                before.is_discovery_warmup(
                    middle,
                    after,
                    batch,
                    fetcher,
                    answers,
                    asked,
                    r->Ok_0,
                );
            crate::cache::fetch_laws::law_discoveries_are_gathered(
                batch.calls@,
                answers@,
                crate::primitives::SlotKey { address: Address { hi: 0, lo: 0 }, slot: U256::spec_zero() },
                0,
            );
        }
    }
}

/// A faster mode never has smaller batches nor fewer requests in flight than a slower one,
/// and every mode has at least one of each.
pub proof fn law_faster_modes_ask_for_more()
    ensures
        StorageBatchConfig::spec_from_mode(CacheSpeedMode::Fast).slots_per_batch
            > StorageBatchConfig::spec_from_mode(CacheSpeedMode::Normal).slots_per_batch,
        StorageBatchConfig::spec_from_mode(CacheSpeedMode::Normal).slots_per_batch
            > StorageBatchConfig::spec_from_mode(CacheSpeedMode::Slow).slots_per_batch,
        StorageBatchConfig::spec_from_mode(CacheSpeedMode::Slow).slots_per_batch
            > StorageBatchConfig::spec_from_mode(CacheSpeedMode::XSlow).slots_per_batch,
        StorageBatchConfig::spec_from_mode(CacheSpeedMode::Fast).max_concurrent_batches
            > StorageBatchConfig::spec_from_mode(CacheSpeedMode::Normal).max_concurrent_batches,
        StorageBatchConfig::spec_from_mode(CacheSpeedMode::Normal).max_concurrent_batches
            > StorageBatchConfig::spec_from_mode(CacheSpeedMode::Slow).max_concurrent_batches,
        StorageBatchConfig::spec_from_mode(CacheSpeedMode::Slow).max_concurrent_batches
            > StorageBatchConfig::spec_from_mode(CacheSpeedMode::XSlow).max_concurrent_batches,
        StorageBatchConfig::spec_from_mode(CacheSpeedMode::XSlow).max_concurrent_batches == 1,
        forall|mode: CacheSpeedMode|
            (#[trigger] StorageBatchConfig::spec_from_mode(mode)).spec_normalized()
                == StorageBatchConfig::spec_from_mode(mode),
{
}

/// The chain of a cache is the one that was set for it, else that of its files, else the
/// one reported, else the first.
pub proof fn law_the_chain_set_comes_first(builder: EvmCacheBuilder, reported: Option<u64>)
    ensures
        builder.chain_id matches Some(id) ==> builder.chain(reported) == id,
        builder.chain_id is None && builder.cache_config is Some ==> builder.chain(reported)
            == builder.cache_config->0.chain_id,
        builder.chain_id is None && builder.cache_config is None ==> (reported matches Some(id)
            ==> builder.chain(reported) == id),
        builder.chain_id is None && builder.cache_config is None && reported is None
            ==> builder.chain(reported) == 1,
{
}

/// A word is read only from a call that succeeded and returned one; a call that did not
/// succeed is told as such, and one that returned none as not decoded.
pub proof fn law_words_come_from_calls_that_succeeded(
    result: ExecutionResult,
    what: Seq<char>,
    r: Result<U256, CacheError>,
)
    requires
        is_word_read(result, what, r),
    ensures
        r is Ok <==> result@ is Success && uint256_result(result@->Success_output) is Some,
        r matches Ok(word) ==> uint256_result(result@->Success_output) == Some(word@),
        !(result@ is Success) ==> r == Err::<U256, CacheError>(
            CacheError::CallNotSuccessful { result },
        ),
        result@ is Success && r is Err ==> r->Err_0 is Decode,
{
}

/// The changes of a block are those of its traces, one after the other; a trace alone is a
/// block of one.
pub proof fn law_a_block_is_its_traces(value: Json)
    ensures
        value matches Json::Array(traces) ==> block_changes(value) == with_traces(
            Map::empty(),
            traces@,
        ),
        !(value is Array) ==> block_changes(value) == with_trace(Map::empty(), value),
        !(value is Array) ==> block_changes(value) == with_traces(Map::empty(), seq![value]),
{
    if !(value is Array) {
        let one = seq![value];
        assert(one.drop_first() =~= Seq::empty());
        assert(one[0] == value);
        if let Ok(next) = with_trace(Map::empty(), value) {
            assert(with_traces(next, one.drop_first()) == Ok::<_, TraceFault>(next));
        }
    }
}

/// A block is asked for by the text of its number, which reads back as the number.
pub proof fn law_blocks_are_asked_for_by_number(number: u64, text: String)
    requires
        text@ == block_param(BlockNumberOrTag::Number(number)),
    ensures
        count_of(text) == Ok::<u64, TraceFault>(number),
{
    law_quantities_are_counts(text, number);
}

/// The slots that are listed of a contract are those that either layer holds, so that every
/// slot that reads a value is listed, unless it reads zero for being cleared.
pub proof fn law_held_slots_are_listed(layers: Layers, address: Address, slot: U256)
    ensures
        layers.spec_contract_slots(address).contains(slot) <==> slots_at(
            layers@.storage,
            address,
        ).contains_key(slot) || (layers@.overlay.contains_key(address)
            && layers@.overlay[address].storage.contains_key(slot)),
        layers@.slot(address, slot) matches Some(value) ==> (value@ != 0
            ==> layers.spec_contract_slots(address).contains(slot)),
{
}

} // verus!
