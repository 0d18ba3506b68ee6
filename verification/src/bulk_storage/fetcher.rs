//! The bulk fetcher with its repair path.

use crate::block::BlockId;
use crate::bulk_storage::config::BulkCallConfig;
use crate::bulk_storage::response::SlotResult;
use crate::errors::StorageFetchError;
use crate::primitives::{Address, U256};
use vstd::prelude::*;

verus! {

/// After this many batches in a row that failed throughout, with a provider
/// error among the failures, a fetcher with a fallback stops trying the bulk
/// path.
pub const OVERRIDE_FAILURE_LATCH: usize = 2;

/// Whether some slot was read.
pub open spec fn any_read(results: Seq<SlotResult>) -> bool {
    exists|i: int| 0 <= i < results.len() && (#[trigger] results[i]).2 is Ok
}

/// Whether some slot failed with a provider error.
pub open spec fn any_provider_error(results: Seq<SlotResult>) -> bool {
    exists|i: int|
        0 <= i < results.len() && (#[trigger] results[i]).2 matches Err(
            StorageFetchError::Provider { .. },
        )
}

/// The streak of failed batches after one more batch: a slot that was read ends
/// it, and a batch that failed throughout with a provider error makes it longer.
pub open spec fn streak_after(streak: usize, results: Seq<SlotResult>) -> usize {
    if any_read(results) {
        0
    } else if any_provider_error(results) {
        if streak == usize::MAX {
            0
        } else {
            (streak + 1) as usize
        }
    } else {
        streak
    }
}

/// The results that were read.
pub open spec fn read_results(results: Seq<SlotResult>) -> Seq<SlotResult> {
    results.filter(|r: SlotResult| r.2 is Ok)
}

/// The requests whose results are failures.
pub open spec fn failed_requests(results: Seq<SlotResult>) -> Seq<(Address, U256)> {
    results.filter(|r: SlotResult| !(r.2 is Ok)).map_values(|r: SlotResult| (r.0, r.1))
}

/// A bulk fetcher: how it is tuned, and how many batches in a row failed.
#[derive(Clone, Copy, Debug, PartialEq, Eq, Structural)]
pub struct BulkFetcher {
    /// The tuning.
    pub config: BulkCallConfig,
    /// Failed batches in a row.
    pub failures: usize,
}

/// Where a batch goes.
#[derive(Clone, Copy, Debug, PartialEq, Eq, Structural)]
pub enum Route {
    /// Nothing is asked for.
    Nothing,
    /// Straight to the fallback.
    Fallback,
    /// To the bulk path.
    Bulk,
}

/// What is left to do after a bulk attempt.
#[derive(Debug, PartialEq, Eq)]
pub struct Repair {
    /// The results that stand.
    pub repaired: Vec<SlotResult>,
    /// The requests to repeat through the fallback.
    pub failed: Vec<(Address, U256)>,
}

/// How far a batch came before it is counted.
#[derive(Debug, PartialEq, Eq)]
pub enum Attempt {
    /// The results are final.
    Settled(Vec<SlotResult>),
    /// The bulk path gave results to count and repair.
    Open(Vec<SlotResult>),
}

impl BulkFetcher {
    /// A fetcher that has not failed yet, with budgets of at least one.
    pub fn new(config: BulkCallConfig) -> (r: Self)
        ensures
            r.config == config.spec_normalized(),
            r.failures == 0,
    {
        BulkFetcher { config: config.normalized(), failures: 0 }
    }

    /// Where a batch of `count` requests goes.
    pub open spec fn spec_route(self, count: nat, has_fallback: bool) -> Route {
        if count == 0 {
            Route::Nothing
        } else if has_fallback && (count < self.config.point_read_threshold || self.failures
            >= OVERRIDE_FAILURE_LATCH) {
            Route::Fallback
        } else {
            Route::Bulk
        }
    }

    /// Where a batch of `count` requests goes: a small batch, and every batch
    /// once the bulk path has failed often enough, goes to the fallback.
    pub fn route(&self, count: usize, has_fallback: bool) -> (r: Route)
        ensures
            r == self.spec_route(count as nat, has_fallback),
    {
        if count == 0 {
            Route::Nothing
        } else if has_fallback && (count < self.config.point_read_threshold || self.failures
            >= OVERRIDE_FAILURE_LATCH) {
            Route::Fallback
        } else {
            Route::Bulk
        }
    }

    /// Counts a bulk attempt and sorts its results into those that stand and
    /// requests to repeat.
    pub fn absorb(&mut self, results: Vec<SlotResult>) -> (r: Repair)
        ensures
            final(self).config == old(self).config,
            final(self).failures == streak_after(old(self).failures, results@),
            r.repaired@ == read_results(results@),
            r.failed@ == failed_requests(results@),
    {
        let mut repaired: Vec<SlotResult> = Vec::new();
        let mut failed: Vec<(Address, U256)> = Vec::new();
        let mut some_read: bool = false;
        let mut some_provider: bool = false;
        let ghost all = results@;
        let ghost is_read = |r: SlotResult| r.2 is Ok;
        let ghost is_failed = |r: SlotResult| !(r.2 is Ok);
        proof {
            reveal(Seq::filter);
            assert(all.take(0) =~= Seq::<SlotResult>::empty());
            assert(repaired@ =~= read_results(all.take(0)));
            assert(failed@ =~= failed_requests(all.take(0)));
        }
        for result in it: results
            invariant
                all == it.seq(),
                is_read == (|r: SlotResult| r.2 is Ok),
                is_failed == (|r: SlotResult| !(r.2 is Ok)),
                some_read == any_read(all.take(it.index())),
                some_provider == any_provider_error(all.take(it.index())),
                repaired@ == read_results(all.take(it.index())),
                failed@ == failed_requests(all.take(it.index())),
        {
            let ghost i = it.index();
            let ghost before = all.take(i);
            let ghost after = all.take(i + 1);
            proof {
                assert(result == all[i]);
                assert(after =~= before.push(result));
                lemma_result_filter_push(before, result, is_read);
                lemma_result_filter_push(before, result, is_failed);
                lemma_any_push(before, result);
            }
            let (address, slot, outcome) = result;
            match outcome {
                Ok(value) => {
                    some_read = true;
                    repaired.push((address, slot, Ok(value)));
                },
                Err(error) => {
                    match error {
                        StorageFetchError::Provider { .. } => {
                            some_provider = true;
                        },
                        _ => {},
                    }
                    failed.push((address, slot));
                    assert(failed@ =~= failed_requests(after));
                },
            }
        }
        assert(all.take(all.len() as int) =~= all);
        if some_read {
            self.failures = 0;
        } else if some_provider {
            self.failures = self.failures.wrapping_add(1);
        }
        Repair { repaired, failed }
    }

    /// Whether a batch through this fetcher can come out as `out` and leave it
    /// as `after`, where `bulk` and `fallback` do the fetching.
    pub open spec fn is_fetch<B, F>(
        self,
        after: Self,
        requests: Vec<(Address, U256)>,
        block: BlockId,
        bulk: B,
        fallback: Option<F>,
        out: Vec<SlotResult>,
    ) -> bool where
        B: Fn(Vec<(Address, U256)>, BlockId, BulkCallConfig) -> Vec<SlotResult>,
        F: Fn(Vec<(Address, U256)>, BlockId) -> Vec<SlotResult>,
     {
        match self.spec_route(requests@.len(), fallback is Some) {
            Route::Nothing => after == self && out@ == Seq::<SlotResult>::empty(),
            Route::Fallback => after == self && call_ensures(fallback->0, (requests, block), out),
            Route::Bulk => exists|results: Vec<SlotResult>|
                {
                    &&& #[trigger] call_ensures(bulk, (requests, block, self.config), results)
                    &&& match fallback {
                        None => after == self && out == results,
                        Some(repeat) => {
                            &&& after.config == self.config
                            &&& after.failures == streak_after(self.failures, results@)
                            &&& is_repair(results@, block, repeat, out@)
                        },
                    }
                },
        }
    }

    /// Whether a batch through this fetcher can come as far as `attempt`.
    pub open spec fn is_attempt<B, F>(
        self,
        requests: Vec<(Address, U256)>,
        block: BlockId,
        bulk: B,
        fallback: Option<F>,
        attempt: Attempt,
    ) -> bool where
        B: Fn(Vec<(Address, U256)>, BlockId, BulkCallConfig) -> Vec<SlotResult>,
        F: Fn(Vec<(Address, U256)>, BlockId) -> Vec<SlotResult>,
     {
        match (self.spec_route(requests@.len(), fallback is Some), attempt) {
            (Route::Nothing, Attempt::Settled(out)) => out@ == Seq::<SlotResult>::empty(),
            (Route::Fallback, Attempt::Settled(out)) => call_ensures(
                fallback->0,
                (requests, block),
                out,
            ),
            (Route::Bulk, Attempt::Settled(out)) => fallback is None && call_ensures(
                bulk,
                (requests, block, self.config),
                out,
            ),
            (Route::Bulk, Attempt::Open(results)) => fallback is Some && call_ensures(
                bulk,
                (requests, block, self.config),
                results,
            ),
            _ => false,
        }
    }

    /// Sends a batch where it goes. Results of the bulk path are left to be
    /// counted and repaired where there is a fallback.
    pub fn attempt<B, F>(
        &self,
        requests: Vec<(Address, U256)>,
        block: BlockId,
        bulk: B,
        fallback: &Option<F>,
    ) -> (r: Attempt) where
        B: Fn(Vec<(Address, U256)>, BlockId, BulkCallConfig) -> Vec<SlotResult>,
        F: Fn(Vec<(Address, U256)>, BlockId) -> Vec<SlotResult>,

        requires
            forall|r: Vec<(Address, U256)>, b: BlockId, c: BulkCallConfig|
                call_requires(bulk, (r, b, c)),
            *fallback matches Some(repeat) ==> forall|r: Vec<(Address, U256)>, b: BlockId|
                call_requires(repeat, (r, b)),
        ensures
            self.is_attempt(requests, block, bulk, *fallback, r),
    {
        match self.route(requests.len(), fallback.is_some()) {
            Route::Nothing => {
                return Attempt::Settled(Vec::new());
            },
            Route::Fallback => {
                if let Some(repeat) = fallback {
                    return Attempt::Settled(repeat(requests, block));
                }
            },
            Route::Bulk => {},
        }
        let results: Vec<SlotResult> = bulk(requests, block, self.config);
        if fallback.is_some() {
            Attempt::Open(results)
        } else {
            Attempt::Settled(results)
        }
    }

    /// Fetches a batch of slots.
    ///
    /// The bulk path is tried first. Slots that it could not read are read
    /// again through the fallback, where there is one; results that stand come
    /// first.
    pub fn fetch<B, F>(
        &mut self,
        requests: Vec<(Address, U256)>,
        block: BlockId,
        bulk: B,
        fallback: Option<F>,
    ) -> (out: Vec<SlotResult>) where
        B: Fn(Vec<(Address, U256)>, BlockId, BulkCallConfig) -> Vec<SlotResult>,
        F: Fn(Vec<(Address, U256)>, BlockId) -> Vec<SlotResult>,

        requires
            forall|r: Vec<(Address, U256)>, b: BlockId, c: BulkCallConfig|
                call_requires(bulk, (r, b, c)),
            fallback matches Some(repeat) ==> forall|r: Vec<(Address, U256)>, b: BlockId|
                call_requires(repeat, (r, b)),
        ensures
            old(self).is_fetch(*final(self), requests, block, bulk, fallback, out),
    {
        match self.attempt(requests, block, bulk, &fallback) {
            Attempt::Settled(out) => out,
            Attempt::Open(results) => {
                let repair = self.absorb(results);
                assert(call_ensures(bulk, (requests, block, self.config), results));
                match &fallback {
                    Some(repeat) => repair.complete(block, repeat),
                    None => repair.repaired,
                }
            },
        }
    }
}

impl Repair {
    /// What a repair comes to: what stands, then what the requests to repeat
    /// gave the second time.
    pub open spec fn is_complete<F>(
        self,
        block: BlockId,
        repeat: F,
        out: Seq<SlotResult>,
    ) -> bool where F: Fn(Vec<(Address, U256)>, BlockId) -> Vec<SlotResult> {
        if self.failed@.len() == 0 {
            out == self.repaired@
        } else {
            exists|repeated: Vec<SlotResult>|
                {
                    &&& #[trigger] call_ensures(repeat, (self.failed, block), repeated)
                    &&& out == self.repaired@ + repeated@
                }
        }
    }

    /// Repeats what failed, if anything did, behind what stands.
    pub fn complete<F>(self, block: BlockId, repeat: &F) -> (out: Vec<SlotResult>) where
        F: Fn(Vec<(Address, U256)>, BlockId) -> Vec<SlotResult>,

        requires
            forall|r: Vec<(Address, U256)>, b: BlockId| call_requires(*repeat, (r, b)),
        ensures
            self.is_complete(block, *repeat, out@),
    {
        let Repair { repaired, failed } = self;
        let mut repaired = repaired;
        if failed.len() > 0 {
            let mut repeated: Vec<SlotResult> = repeat(failed, block);
            let ghost again = repeated;
            repaired.append(&mut repeated);
            assert(call_ensures(*repeat, (self.failed, block), again));
            assert(repaired@ == self.repaired@ + again@);
        }
        repaired
    }
}

/// Whether `out` repairs `results` through `repeat`: what was read, then what
/// the failed requests gave the second time.
pub open spec fn is_repair<F>(
    results: Seq<SlotResult>,
    block: BlockId,
    repeat: F,
    out: Seq<SlotResult>,
) -> bool where F: Fn(Vec<(Address, U256)>, BlockId) -> Vec<SlotResult> {
    if failed_requests(results).len() == 0 {
        out == read_results(results)
    } else {
        exists|failed: Vec<(Address, U256)>, repeated: Vec<SlotResult>|
            {
                &&& failed@ == failed_requests(results)
                &&& #[trigger] call_ensures(repeat, (failed, block), repeated)
                &&& out == read_results(results) + repeated@
            }
    }
}

/// Filtering one more result keeps it or drops it.
proof fn lemma_result_filter_push(
    results: Seq<SlotResult>,
    result: SlotResult,
    pred: spec_fn(SlotResult) -> bool,
)
    ensures
        results.push(result).filter(pred) == if pred(result) {
            results.filter(pred).push(result)
        } else {
            results.filter(pred)
        },
{
    reveal(Seq::filter);
    assert(results.push(result).drop_last() =~= results);
}

/// One more result adds what it is.
proof fn lemma_any_push(results: Seq<SlotResult>, result: SlotResult)
    ensures
        any_read(results.push(result)) == (any_read(results) || result.2 is Ok),
        any_provider_error(results.push(result)) == (any_provider_error(results) || result.2
            matches Err(StorageFetchError::Provider { .. })),
{
    let more = results.push(result);
    let n = results.len() as int;
    assert(more[n] == result);
    assert forall|i: int| 0 <= i < n implies more[i] == results[i] by {}
    if any_read(results) {
        let i = choose|i: int| 0 <= i < results.len() && (#[trigger] results[i]).2 is Ok;
        assert(more[i].2 is Ok);
    }
    if any_provider_error(results) {
        let i = choose|i: int|
            0 <= i < results.len() && (#[trigger] results[i]).2 matches Err(
                StorageFetchError::Provider { .. },
            );
        assert(more[i].2 matches Err(StorageFetchError::Provider { .. }));
    }
}

} // verus!
