//! Loading slots ahead, and holding cached slots against the chain.

use crate::block::BlockId;
use crate::bulk_storage::response::SlotResult;
use crate::cache::evm_cache::{injected, next_generation, EvmCache};
use crate::cache::layers::LayersModel;
use crate::cache::state_update::SlotChange;
use crate::cache::writes::slot_updates;
use crate::errors::{CacheError, StorageFetchError};
use crate::primitives::{Address, U256};
use vstd::prelude::*;

verus! {

/// What came of loading slots ahead.
pub struct PrewarmReport {
    /// How many slots were loaded.
    pub loaded: usize,
    /// Which slots were not, and why.
    pub failed: Vec<(Address, U256, StorageFetchError)>,
}

/// The slots that were fetched, with their values.
pub open spec fn fetched_slots(results: Seq<SlotResult>) -> Seq<(Address, U256, U256)>
    decreases results.len(),
{
    if results.len() == 0 {
        Seq::empty()
    } else {
        let earlier = fetched_slots(results.drop_last());
        match results.last().2 {
            Ok(value) => earlier.push((results.last().0, results.last().1, value)),
            Err(_) => earlier,
        }
    }
}

/// The slots that were not fetched, with the reasons.
pub open spec fn failed_slots(results: Seq<SlotResult>) -> Seq<(Address, U256, StorageFetchError)>
    decreases results.len(),
{
    if results.len() == 0 {
        Seq::empty()
    } else {
        let earlier = failed_slots(results.drop_last());
        match results.last().2 {
            Ok(_) => earlier,
            Err(error) => earlier.push((results.last().0, results.last().1, error)),
        }
    }
}

/// Whether fetched slots were taken in and reported.
pub open spec fn prewarm_answer(
    before: LayersModel,
    after: LayersModel,
    results: Seq<SlotResult>,
    r: PrewarmReport,
) -> bool {
    &&& after == injected(before, fetched_slots(results))
    &&& r.loaded == fetched_slots(results).len()
    &&& r.failed@ == failed_slots(results)
}

/// The reasons where nothing can be fetched.
pub open spec fn unfetchable(requests: Seq<(Address, U256)>) -> Seq<
    (Address, U256, StorageFetchError),
> {
    requests.map_values(
        |request: (Address, U256)|
            (request.0, request.1, StorageFetchError::NoBatchFetcher),
    )
}

/// What a fetched slot turned out to hold.
#[derive(Debug, PartialEq, Eq)]
pub enum SlotFetch {
    /// A value other than zero.
    Value(U256),
    /// Zero.
    Zero,
    /// It could not be fetched.
    FetchFailed {
        /// Why.
        reason: StorageFetchError,
    },
}

/// What one slot turned out to hold.
#[derive(Debug, PartialEq, Eq)]
pub struct SlotOutcome {
    /// The account.
    pub address: Address,
    /// The slot.
    pub slot: U256,
    /// What it holds.
    pub fetch: SlotFetch,
}

/// What a fetched slot turned out to hold.
pub open spec fn spec_classify(fetched: Result<U256, StorageFetchError>) -> SlotFetch {
    match fetched {
        Ok(value) => if value@ != 0 {
            SlotFetch::Value(value)
        } else {
            SlotFetch::Zero
        },
        Err(reason) => SlotFetch::FetchFailed { reason },
    }
}

/// What a fetched slot turned out to hold.
pub fn classify(fetched: &Result<U256, StorageFetchError>) -> (r: SlotFetch)
    ensures
        r == spec_classify(*fetched),
{
    match fetched {
        Ok(value) => if !value.is_zero() {
            SlotFetch::Value(*value)
        } else {
            SlotFetch::Zero
        },
        Err(reason) => SlotFetch::FetchFailed { reason: reason.clone() },
    }
}

/// What each slot turned out to hold.
pub open spec fn outcomes_of(results: Seq<SlotResult>) -> Seq<SlotOutcome> {
    results.map_values(
        |result: SlotResult|
            SlotOutcome { address: result.0, slot: result.1, fetch: spec_classify(result.2) },
    )
}

/// What a simulation would have read from a slot before: nothing is known of a
/// slot that was not asked for.
pub open spec fn baseline(
    layers: LayersModel,
    requests: Seq<(Address, U256)>,
    address: Address,
    slot: U256,
) -> U256 {
    if requests.contains((address, slot)) {
        layers.slot_or_zero(address, slot)
    } else {
        U256::spec_zero()
    }
}

/// The slots that hold something else than a simulation would have read.
pub open spec fn changes_of(
    layers: LayersModel,
    requests: Seq<(Address, U256)>,
    results: Seq<SlotResult>,
) -> Seq<SlotChange>
    decreases results.len(),
{
    if results.len() == 0 {
        Seq::empty()
    } else {
        let earlier = changes_of(layers, requests, results.drop_last());
        let (address, slot, fetched) = results.last();
        match fetched {
            Ok(new) => {
                let old_value = baseline(layers, requests, address, slot);
                if new != old_value {
                    earlier.push(SlotChange { address, slot, old: old_value, new })
                } else {
                    earlier
                }
            },
            Err(_) => earlier,
        }
    }
}

/// The values that changed slots get.
pub open spec fn corrections(changes: Seq<SlotChange>) -> Seq<(Address, U256, U256)> {
    changes.map_values(|change: SlotChange| (change.address, change.slot, change.new))
}

/// How many slots were fetched.
pub open spec fn fetched_count(results: Seq<SlotResult>) -> nat {
    fetched_slots(results).len()
}

/// Whether a slot was asked for.
fn is_requested(requests: &Vec<(Address, U256)>, address: Address, slot: U256) -> (r: bool)
    ensures
        r == requests@.contains((address, slot)),
{
    let mut i: usize = 0;
    while i < requests.len()
        invariant
            i <= requests.len(),
            forall|j: int| 0 <= j < i ==> requests@[j] != (address, slot),
        decreases requests.len() - i,
    {
        if requests[i].0 == address && requests[i].1 == slot {
            assert(requests@[i as int] == (address, slot));
            return true;
        }
        i = i + 1;
    }
    false
}

impl Default for PrewarmReport {
    fn default() -> (r: Self)
        ensures
            r.loaded == 0,
            r.failed@ == Seq::<(Address, U256, StorageFetchError)>::empty(),
    {
        PrewarmReport { loaded: 0, failed: Vec::new() }
    }
}

impl EvmCache {
    /// Takes in slots that were loaded ahead.
    pub fn absorb_prewarmed(&mut self, results: Vec<SlotResult>) -> (r: PrewarmReport)
        requires
            old(self).wf(),
        ensures
            final(self).wf(),
            final(self).layers@ == injected(old(self).layers@, fetched_slots(results@)),
            r.loaded == fetched_slots(results@).len(),
            r.failed@ == failed_slots(results@),
            *final(self) == (EvmCache {
                layers: final(self).layers,
                memo: final(self).memo,
                ..*old(self)
            }),
    {
        let mut fetched: Vec<(Address, U256, U256)> = Vec::new();
        let mut failed: Vec<(Address, U256, StorageFetchError)> = Vec::new();
        let ghost all = results@;
        let mut i: usize = 0;
        assert(all.take(0) =~= Seq::empty());
        while i < results.len()
            invariant
                i <= results.len(),
                all == results@,
                fetched@ == fetched_slots(all.take(i as int)),
                failed@ == failed_slots(all.take(i as int)),
            decreases results.len() - i,
        {
            assert(all.take(i as int + 1).drop_last() =~= all.take(i as int));
            match &results[i].2 {
                Ok(value) => {
                    fetched.push((results[i].0, results[i].1, *value));
                },
                Err(error) => {
                    failed.push((results[i].0, results[i].1, error.clone()));
                },
            }
            i = i + 1;
        }
        assert(all.take(i as int) =~= all);
        self.inject_storage_batch(fetched.as_slice());
        PrewarmReport { loaded: fetched.len(), failed }
    }

    /// Loads slots ahead, at the pinned block. Where there is nothing to fetch
    /// with, each of them fails.
    pub fn prewarm_slots<F>(&mut self, requests: Vec<(Address, U256)>, fetcher: &Option<F>) -> (r:
        PrewarmReport) where F: Fn(Vec<(Address, U256)>, BlockId) -> Vec<SlotResult>
        requires
            old(self).wf(),
            fetcher matches Some(fetch) ==> call_requires(
                *fetch,
                (requests, old(self).context.block),
            ),
        ensures
            final(self).wf(),
            old(self).is_prewarmed(*final(self), requests, *fetcher, r),
            *final(self) == (EvmCache {
                layers: final(self).layers,
                memo: final(self).memo,
                ..*old(self)
            }),
    {
        match fetcher {
            None => {
                let mut failed: Vec<(Address, U256, StorageFetchError)> = Vec::new();
                let mut i: usize = 0;
                while i < requests.len()
                    invariant
                        i <= requests.len(),
                        failed@ =~= unfetchable(requests@).take(i as int),
                    decreases requests.len() - i,
                {
                    failed.push(
                        (requests[i].0, requests[i].1, StorageFetchError::NoBatchFetcher),
                    );
                    i = i + 1;
                }
                assert(failed@ =~= unfetchable(requests@));
                PrewarmReport { loaded: 0, failed }
            },
            Some(fetch) => {
                let results: Vec<SlotResult> = fetch(requests, self.context.block);
                let r = self.absorb_prewarmed(results);
                assert(prewarm_answer(old(self).layers@, self.layers@, results@, r));
                r
            },
        }
    }

    /// Whether slots were loaded ahead from what the fetcher returned, or each of
    /// them failed because there is none.
    pub open spec fn is_prewarmed<F>(
        self,
        after: Self,
        requests: Vec<(Address, U256)>,
        fetcher: Option<F>,
        r: PrewarmReport,
    ) -> bool where F: Fn(Vec<(Address, U256)>, BlockId) -> Vec<SlotResult> {
        match fetcher {
            None => {
                &&& after == self
                &&& r.loaded == 0
                &&& r.failed@ == unfetchable(requests@)
            },
            Some(fetch) => exists|results: Vec<SlotResult>| #[trigger]
                call_ensures(fetch, (requests, self.context.block), results) && prewarm_answer(
                    self.layers@,
                    after.layers@,
                    results@,
                    r,
                ),
        }
    }

    /// Holds fetched slots against what is cached. The result is which of them
    /// changed, and what each turned out to hold.
    pub fn compare_slots(&self, requests: &Vec<(Address, U256)>, results: &Vec<SlotResult>) -> (r: (
        Vec<SlotChange>,
        Vec<SlotOutcome>,
    ))
        ensures
            r.0@ == changes_of(self.layers@, requests@, results@),
            r.1@ == outcomes_of(results@),
    {
        let mut changed: Vec<SlotChange> = Vec::new();
        let mut outcomes: Vec<SlotOutcome> = Vec::new();
        let ghost all = results@;
        let mut i: usize = 0;
        assert(all.take(0) =~= Seq::empty());
        while i < results.len()
            invariant
                i <= results.len(),
                all == results@,
                changed@ == changes_of(self.layers@, requests@, all.take(i as int)),
                outcomes@ =~= outcomes_of(all).take(i as int),
            decreases results.len() - i,
        {
            let address: Address = results[i].0;
            let slot: U256 = results[i].1;
            assert(all.take(i as int + 1).drop_last() =~= all.take(i as int));
            outcomes.push(SlotOutcome { address, slot, fetch: classify(&results[i].2) });
            if let Ok(new) = &results[i].2 {
                let old_value: U256 = if is_requested(requests, address, slot) {
                    match self.layers.cached_storage_value(address, slot) {
                        Some(value) => value,
                        None => U256::zero(),
                    }
                } else {
                    U256::zero()
                };
                if *new != old_value {
                    changed.push(SlotChange { address, slot, old: old_value, new: *new });
                }
            }
            i = i + 1;
        }
        assert(all.take(i as int) =~= all);
        assert(outcomes@ =~= outcomes_of(all));
        (changed, outcomes)
    }

    /// Corrects cached slots that fetched ones show to have changed.
    pub fn absorb_verified(
        &mut self,
        requests: &Vec<(Address, U256)>,
        results: &Vec<SlotResult>,
    ) -> (r: (Vec<SlotChange>, Vec<SlotOutcome>))
        requires
            old(self).wf(),
        ensures
            final(self).wf(),
            old(self).is_verified(*final(self), requests@, results@),
            r.0@ == changes_of(old(self).layers@, requests@, results@),
            r.1@ == outcomes_of(results@),
    {
        let (changed, outcomes) = self.compare_slots(requests, results);
        let mut fresh: Vec<(Address, U256, U256)> = Vec::new();
        let mut i: usize = 0;
        while i < changed.len()
            invariant
                i <= changed.len(),
                fresh@ =~= corrections(changed@).take(i as int),
            decreases changed.len() - i,
        {
            fresh.push((changed[i].address, changed[i].slot, changed[i].new));
            i = i + 1;
        }
        assert(fresh@ =~= corrections(changed@));
        self.inject_storage_batch_fresh(fresh.as_slice());
        (changed, outcomes)
    }

    /// Whether cached slots were corrected from fetched ones, and nothing else
    /// changed.
    pub open spec fn is_verified(
        self,
        after: Self,
        requests: Seq<(Address, U256)>,
        results: Seq<SlotResult>,
    ) -> bool {
        let changes = changes_of(self.layers@, requests, results);
        &&& after.layers@ == self.layers@.updated_all(slot_updates(corrections(changes)))
        &&& after.snapshot_generation == if changes.len() == 0 {
            self.snapshot_generation
        } else {
            next_generation(self.snapshot_generation)
        }
        &&& after.code_seeds@ == self.code_seeds@
        &&& after == (EvmCache {
            layers: after.layers,
            memo: after.memo,
            code_seeds: after.code_seeds,
            snapshot_generation: after.snapshot_generation,
            ..self
        })
    }

    /// Whether slots were fetched and cached ones corrected from what came back.
    pub open spec fn is_fetched_and_verified<F>(
        self,
        after: Self,
        slots: Vec<(Address, U256)>,
        fetch: F,
        r: Result<Vec<SlotChange>, CacheError>,
        results: Vec<SlotResult>,
    ) -> bool where F: Fn(Vec<(Address, U256)>, BlockId) -> Vec<SlotResult> {
        &&& call_ensures(fetch, (slots, self.context.block), results)
        &&& self.is_verified(after, slots@, results@)
        &&& r matches Ok(changed) && changed@ == changes_of(self.layers@, slots@, results@)
    }

    /// Fetches slots at the pinned block and corrects cached ones that changed.
    /// A slot that cannot be fetched is passed over.
    pub fn verify_slots<F>(&mut self, slots: Vec<(Address, U256)>, fetcher: Option<F>) -> (r: Result<
        Vec<SlotChange>,
        CacheError,
    >) where F: Fn(Vec<(Address, U256)>, BlockId) -> Vec<SlotResult>
        requires
            old(self).wf(),
            fetcher matches Some(fetch) ==> call_requires(fetch, (slots, old(self).context.block)),
        ensures
            final(self).wf(),
            slots@.len() == 0 ==> (r matches Ok(changed) && changed@.len() == 0) && *final(self)
                == *old(self),
            slots@.len() > 0 && fetcher is None ==> r == Err::<Vec<SlotChange>, CacheError>(
                CacheError::MissingStorageBatchFetcher,
            ) && *final(self) == *old(self),
            slots@.len() > 0 && fetcher is Some ==> exists|results: Vec<SlotResult>|
                #[trigger] old(self).is_fetched_and_verified(
                    *final(self),
                    slots,
                    fetcher->0,
                    r,
                    results,
                ),
    {
        if slots.len() == 0 {
            return Ok(Vec::new());
        }
        match fetcher {
            None => Err(CacheError::MissingStorageBatchFetcher),
            Some(fetch) => {
                let requests: Vec<(Address, U256)> = copy_requests(&slots);
                let results: Vec<SlotResult> = fetch(slots, self.context.block);
                let (changed, _outcomes) = self.absorb_verified(&requests, &results);
                let r: Result<Vec<SlotChange>, CacheError> = Ok(changed);
                assert(old(self).is_fetched_and_verified(*self, slots, fetch, r, results));
                r
            },
        }
    }

    /// What slots turned out to hold, as a result: an error where some were
    /// asked for and not one could be fetched.
    pub fn reconcile_slots<F>(&mut self, slots: Vec<(Address, U256)>, fetcher: Option<F>) -> (r:
        Result<Vec<SlotChange>, CacheError>) where
        F: Fn(Vec<(Address, U256)>, BlockId) -> Vec<SlotResult>,

        requires
            old(self).wf(),
            fetcher matches Some(fetch) ==> call_requires(fetch, (slots, old(self).context.block)),
        ensures
            final(self).wf(),
            slots@.len() == 0 ==> (r matches Ok(changed) && changed@.len() == 0) && *final(self)
                == *old(self),
            slots@.len() > 0 && fetcher is None ==> r == Err::<Vec<SlotChange>, CacheError>(
                CacheError::MissingStorageBatchFetcher,
            ) && *final(self) == *old(self),
            slots@.len() > 0 && fetcher is Some ==> exists|results: Vec<SlotResult>|
                #[trigger] old(self).is_reconciled(*final(self), slots, fetcher->0, r, results),
    {
        if slots.len() == 0 {
            return Ok(Vec::new());
        }
        match fetcher {
            None => Err(CacheError::MissingStorageBatchFetcher),
            Some(fetch) => {
                let requested: usize = slots.len();
                let requests: Vec<(Address, U256)> = copy_requests(&slots);
                let results: Vec<SlotResult> = fetch(slots, self.context.block);
                let (changed, _outcomes) = self.absorb_verified(&requests, &results);
                let fetched: bool = any_fetched(&results);
                let r: Result<Vec<SlotChange>, CacheError> = if fetched {
                    Ok(changed)
                } else {
                    Err(CacheError::ReconcileFetchFailed { requested })
                };
                assert(old(self).is_reconciled(*self, slots, fetch, r, results));
                r
            },
        }
    }

    /// Whether slots were fetched and cached ones corrected, and an error is
    /// reported exactly where not one could be fetched.
    pub open spec fn is_reconciled<F>(
        self,
        after: Self,
        slots: Vec<(Address, U256)>,
        fetch: F,
        r: Result<Vec<SlotChange>, CacheError>,
        results: Vec<SlotResult>,
    ) -> bool where F: Fn(Vec<(Address, U256)>, BlockId) -> Vec<SlotResult> {
        &&& call_ensures(fetch, (slots, self.context.block), results)
        &&& self.is_verified(after, slots@, results@)
        &&& if fetched_count(results@) > 0 {
            r matches Ok(changed) && changed@ == changes_of(self.layers@, slots@, results@)
        } else {
            r == Err::<Vec<SlotChange>, CacheError>(
                CacheError::ReconcileFetchFailed { requested: slots@.len() as usize },
            )
        }
    }
}

/// A copy of requests.
fn copy_requests(requests: &Vec<(Address, U256)>) -> (r: Vec<(Address, U256)>)
    ensures
        r@ == requests@,
{
    let mut copied: Vec<(Address, U256)> = Vec::new();
    let mut i: usize = 0;
    while i < requests.len()
        invariant
            i <= requests.len(),
            copied@ =~= requests@.take(i as int),
        decreases requests.len() - i,
    {
        copied.push((requests[i].0, requests[i].1));
        i = i + 1;
    }
    assert(copied@ =~= requests@);
    copied
}

/// Whether some slot was fetched.
fn any_fetched(results: &Vec<SlotResult>) -> (r: bool)
    ensures
        r == (fetched_count(results@) > 0),
{
    let ghost all = results@;
    let mut i: usize = 0;
    assert(all.take(0) =~= Seq::empty());
    while i < results.len()
        invariant
            i <= results.len(),
            all == results@,
            fetched_slots(all.take(i as int)).len() == 0,
        decreases results.len() - i,
    {
        assert(all.take(i as int + 1).drop_last() =~= all.take(i as int));
        if results[i].2.is_ok() {
            proof {
                lemma_fetched_grow(all, i as int + 1);
            }
            return true;
        }
        i = i + 1;
    }
    assert(all.take(i as int) =~= all);
    false
}

/// The first results hold no more fetched slots than all of them.
proof fn lemma_fetched_grow(results: Seq<SlotResult>, i: int)
    requires
        0 <= i <= results.len(),
    ensures
        fetched_slots(results.take(i)).len() <= fetched_slots(results).len(),
    decreases results.len() - i,
{
    if i < results.len() {
        assert(results.take(i + 1).drop_last() =~= results.take(i));
        lemma_fetched_grow(results, i + 1);
    } else {
        assert(results.take(i) =~= results);
    }
}

/// Once cached slots were held against the chain, those that could be fetched
/// read what was fetched: a second look at the same values finds no change.
pub proof fn law_verified_slots_converge(
    layers: LayersModel,
    requests: Seq<(Address, U256)>,
    results: Seq<SlotResult>,
    i: int,
)
    requires
        0 <= i < results.len(),
        results[i].2 is Ok,
        requests.contains((results[i].0, results[i].1)),
        forall|j: int, k: int|
            0 <= j < k < results.len() ==> ((#[trigger] results[j]).0, results[j].1) != (
                (#[trigger] results[k]).0,
                results[k].1,
            ),
    ensures
        layers.updated_all(
            slot_updates(corrections(changes_of(layers, requests, results))),
        ).slot_or_zero(results[i].0, results[i].1) == results[i].2->Ok_0,
    decreases results.len(),
{
    let last = results.len() - 1;
    let init = results.drop_last();
    let earlier = changes_of(layers, requests, init);
    let all = changes_of(layers, requests, results);
    let before = layers.updated_all(slot_updates(corrections(earlier)));
    let after = layers.updated_all(slot_updates(corrections(all)));
    let (address, slot) = (results[i].0, results[i].1);
    if all != earlier {
        assert(all.drop_last() =~= earlier);
        let updates = slot_updates(corrections(all));
        assert(updates.drop_last() =~= slot_updates(corrections(earlier)));
    }
    if i < last {
        assert(init[i] == results[i]);
        assert forall|j: int, k: int| 0 <= j < k < init.len() implies (
            (#[trigger] init[j]).0,
            init[j].1,
        ) != ((#[trigger] init[k]).0, init[k].1) by {
            assert(results[j] == init[j] && results[k] == init[k]);
        }
        law_verified_slots_converge(layers, requests, init, i);
        assert((results[i].0, results[i].1) != (results[last].0, results[last].1));
    } else {
        lemma_untouched_slot(layers, requests, init, address, slot);
    }
}

/// Corrections leave a slot alone that was not fetched.
proof fn lemma_untouched_slot(
    layers: LayersModel,
    requests: Seq<(Address, U256)>,
    results: Seq<SlotResult>,
    address: Address,
    slot: U256,
)
    requires
        forall|j: int|
            0 <= j < results.len() ==> ((#[trigger] results[j]).0, results[j].1) != (
                address,
                slot,
            ),
    ensures
        layers.updated_all(
            slot_updates(corrections(changes_of(layers, requests, results))),
        ).slot(address, slot) == layers.slot(address, slot),
    decreases results.len(),
{
    if results.len() > 0 {
        let init = results.drop_last();
        assert forall|j: int| 0 <= j < init.len() implies (
            (#[trigger] init[j]).0,
            init[j].1,
        ) != (address, slot) by {
            assert(results[j] == init[j]);
        }
        lemma_untouched_slot(layers, requests, init, address, slot);
        let earlier = changes_of(layers, requests, init);
        let all = changes_of(layers, requests, results);
        assert((results.last().0, results.last().1) != (address, slot));
        if all != earlier {
            assert(all.drop_last() =~= earlier);
            let updates = slot_updates(corrections(all));
            assert(updates.drop_last() =~= slot_updates(corrections(earlier)));
        }
    }
}

} // verus!
