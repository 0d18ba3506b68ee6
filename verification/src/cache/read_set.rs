//! Finding out what calls read, and loading it ahead.

use crate::access_list::{AccessListCall, AccessListError};
use crate::access_set::{AccessModel, StorageAccessList};
use crate::block::BlockId;
use crate::bulk_storage::response::SlotResult;
use crate::cache::evm_cache::EvmCache;
use crate::cache::freshness::PrewarmReport;
use crate::collections::{in_order, lemma_in_order, lemma_take_extend, SortedSet};
use crate::errors::StorageFetchError;
use crate::primitives::{Address, SlotKey, U256};
use vstd::prelude::*;

verus! {

/// Why loading ahead could not go by the chosen policy.
#[derive(Clone, Copy, Debug, PartialEq, Eq, Structural)]
pub enum ReadSetWarmupError {
    /// What calls read has to be asked for, and there is nothing to ask.
    AccessListFetcherUnavailable {
        /// How many calls there are.
        calls: usize,
    },
    /// Another number of answers came back than calls were asked about.
    AccessListResultCountMismatch {
        /// How many calls there are.
        expected: usize,
        /// How many answers came back.
        actual: usize,
    },
}

/// A call whose reads may be asked for.
#[derive(Debug, PartialEq, Eq)]
pub struct ReadSetWarmupCall {
    /// The call.
    pub tx: AccessListCall,
    /// How many slots it is thought to read, if that is known.
    pub expected_slots: Option<usize>,
    /// The accounts whose reads count, where not all do.
    pub restrict_to: Option<Vec<Address>>,
}

/// Slots to load, and calls whose reads to load.
#[derive(Debug, PartialEq, Eq)]
pub struct ReadSetWarmupBatch {
    /// Slots.
    pub known_slots: Vec<(Address, U256)>,
    /// Calls.
    pub calls: Vec<ReadSetWarmupCall>,
}

impl Default for ReadSetWarmupBatch {
    fn default() -> (r: Self)
        ensures
            r.known_slots@.len() == 0,
            r.calls@.len() == 0,
    {
        ReadSetWarmupBatch { known_slots: Vec::new(), calls: Vec::new() }
    }
}

/// When to ask what calls read.
#[derive(Clone, Copy, Debug, PartialEq, Eq, Structural)]
pub enum ReadSetWarmupStrategy {
    /// Where it is likely to pay off.
    Auto,
    /// Never.
    LocalOnly,
    /// Always.
    AccessList,
}

impl Default for ReadSetWarmupStrategy {
    fn default() -> (r: Self)
        ensures
            r == ReadSetWarmupStrategy::Auto,
    {
        ReadSetWarmupStrategy::Auto
    }
}

/// When to ask what calls read, with the thresholds.
#[derive(Clone, Copy, Debug, PartialEq, Eq, Structural)]
pub struct ReadSetWarmupConfig {
    /// When to ask.
    pub strategy: ReadSetWarmupStrategy,
    /// From how many expected slots on it pays off.
    pub min_expected_slots_for_access_list: usize,
    /// From how many calls without an expectation on it pays off.
    pub min_unhinted_calls_for_access_list: usize,
}

impl Default for ReadSetWarmupConfig {
    fn default() -> (r: Self)
        ensures
            r == (ReadSetWarmupConfig {
                strategy: ReadSetWarmupStrategy::Auto,
                min_expected_slots_for_access_list: 32,
                min_unhinted_calls_for_access_list: 8,
            }),
    {
        ReadSetWarmupConfig {
            strategy: ReadSetWarmupStrategy::Auto,
            min_expected_slots_for_access_list: 32,
            min_unhinted_calls_for_access_list: 8,
        }
    }
}

/// How many slots calls are thought to read, of those of which that is known.
pub open spec fn expected_total(calls: Seq<ReadSetWarmupCall>) -> nat
    decreases calls.len(),
{
    if calls.len() == 0 {
        0
    } else {
        expected_total(calls.drop_last()) + match calls.last().expected_slots {
            Some(slots) => slots as nat,
            None => 0,
        }
    }
}

/// Of how many calls it is not known how many slots they read.
pub open spec fn unhinted_total(calls: Seq<ReadSetWarmupCall>) -> nat
    decreases calls.len(),
{
    if calls.len() == 0 {
        0
    } else {
        unhinted_total(calls.drop_last()) + if calls.last().expected_slots is None {
            1nat
        } else {
            0nat
        }
    }
}

impl ReadSetWarmupConfig {
    /// Whether to ask what calls read.
    pub open spec fn asks(self, calls: Seq<ReadSetWarmupCall>) -> bool {
        match self.strategy {
            ReadSetWarmupStrategy::LocalOnly => false,
            ReadSetWarmupStrategy::AccessList => calls.len() > 0,
            ReadSetWarmupStrategy::Auto => {
                ||| expected_total(calls) >= self.min_expected_slots_for_access_list
                ||| unhinted_total(calls) >= self.min_unhinted_calls_for_access_list
            },
        }
    }

    /// Whether to ask what calls read.
    pub fn should_use_access_lists(&self, calls: &Vec<ReadSetWarmupCall>) -> (r: bool)
        ensures
            r == self.asks(calls@),
    {
        match self.strategy {
            ReadSetWarmupStrategy::LocalOnly => false,
            ReadSetWarmupStrategy::AccessList => calls.len() > 0,
            ReadSetWarmupStrategy::Auto => {
                let mut expected: usize = 0;
                let mut unhinted: usize = 0;
                let mut i: usize = 0;
                assert(calls@.take(0) =~= Seq::empty());
                while i < calls.len()
                    invariant
                        i <= calls.len(),
                        expected == (if expected_total(calls@.take(i as int)) > usize::MAX {
                            usize::MAX as nat
                        } else {
                            expected_total(calls@.take(i as int))
                        }),
                        unhinted == unhinted_total(calls@.take(i as int)),
                        unhinted <= i,
                    decreases calls.len() - i,
                {
                    assert(calls@.take(i as int + 1).drop_last() =~= calls@.take(i as int));
                    match calls[i].expected_slots {
                        Some(slots) => {
                            expected = match expected.checked_add(slots) {
                                Some(sum) => sum,
                                None => usize::MAX,
                            };
                        },
                        None => {
                            unhinted = unhinted + 1;
                        },
                    }
                    i = i + 1;
                }
                assert(calls@.take(i as int) =~= calls@);
                expected >= self.min_expected_slots_for_access_list || unhinted
                    >= self.min_unhinted_calls_for_access_list
            },
        }
    }
}

/// What came of loading ahead.
pub struct ReadSetWarmupReport {
    /// What came of the slots.
    pub known: PrewarmReport,
    /// Whether it was asked what the calls read.
    pub used_access_lists: bool,
    /// How many calls were passed over.
    pub skipped_calls: usize,
    /// How many calls were answered for.
    pub access_list_successes: usize,
    /// Which calls were not, and why.
    pub access_list_failures: Vec<(usize, AccessListError)>,
    /// What the calls read.
    pub discovered_access: StorageAccessList,
    /// What came of the slots that the calls read.
    pub discovered: PrewarmReport,
}

/// An answer to what a call reads.
pub type Discovery = Result<StorageAccessList, AccessListError>;

/// What counts of what a call reads.
pub open spec fn counted(model: AccessModel, restrict_to: Option<Vec<Address>>) -> AccessModel {
    match restrict_to {
        None => model,
        Some(addresses) => AccessModel {
            accounts: model.accounts.intersect(addresses@.to_set()),
            slots: model.slots.filter(|key: SlotKey| addresses@.to_set().contains(key.address)),
            ..model
        },
    }
}

/// What calls read, by the answers.
pub open spec fn discovered_by(calls: Seq<ReadSetWarmupCall>, answers: Seq<Discovery>) -> AccessModel
    decreases answers.len(),
{
    if answers.len() == 0 {
        AccessModel::empty()
    } else {
        let earlier = discovered_by(calls, answers.drop_last());
        match answers.last() {
            Ok(access) => earlier.union(
                counted(access@, calls[answers.len() - 1].restrict_to),
            ),
            Err(_) => earlier,
        }
    }
}

/// How many calls were answered for.
pub open spec fn answered(answers: Seq<Discovery>) -> nat
    decreases answers.len(),
{
    if answers.len() == 0 {
        0
    } else {
        answered(answers.drop_last()) + if answers.last() is Ok {
            1nat
        } else {
            0nat
        }
    }
}

/// Which calls were not answered for, and why.
pub open spec fn unanswered(answers: Seq<Discovery>) -> Seq<(usize, AccessListError)>
    decreases answers.len(),
{
    if answers.len() == 0 {
        Seq::empty()
    } else {
        let earlier = unanswered(answers.drop_last());
        match answers.last() {
            Ok(_) => earlier,
            Err(error) => earlier.push(((answers.len() - 1) as usize, error)),
        }
    }
}

/// Slots in order, as requests.
pub open spec fn slot_requests(slots: Set<SlotKey>) -> Seq<(Address, U256)> {
    in_order(slots).map_values(|key: SlotKey| (key.address, key.slot))
}

/// What counts of what a call reads.
fn restrict(access: &StorageAccessList, restrict_to: &Option<Vec<Address>>) -> (r:
    StorageAccessList)
    ensures
        r@ == counted(access@, *restrict_to),
{
    match restrict_to {
        None => StorageAccessList {
            accounts: access.accounts.copy(),
            code_hashes: access.code_hashes.copy(),
            slots: access.slots.copy(),
            block_numbers: access.block_numbers.copy(),
        },
        Some(addresses) => {
            let mut keep: SortedSet<Address> = SortedSet::new();
            let mut k: usize = 0;
            assert(addresses@.take(0).to_set() =~= Set::empty());
            while k < addresses.len()
                invariant
                    k <= addresses.len(),
                    keep@ == addresses@.take(k as int).to_set(),
                decreases addresses.len() - k,
            {
                proof {
                    lemma_take_extend(addresses@, k as int);
                }
                keep.insert(addresses[k]);
                k = k + 1;
            }
            assert(addresses@.take(k as int) =~= addresses@);
            let mut accounts: SortedSet<Address> = SortedSet::new();
            let n: usize = access.accounts.len();
            let ghost order = access.accounts.order();
            let mut i: usize = 0;
            assert(order.take(0).to_set() =~= Set::empty());
            while i < n
                invariant
                    i <= n == order.len(),
                    order == access.accounts.order(),
                    accounts@ == order.take(i as int).to_set().intersect(keep@),
                decreases n - i,
            {
                proof {
                    lemma_take_extend(order, i as int);
                }
                let address: Address = access.accounts.at(i);
                if keep.contains(&address) {
                    accounts.insert(address);
                }
                assert(accounts@ =~= order.take(i as int + 1).to_set().intersect(keep@));
                i = i + 1;
            }
            assert(order.take(n as int) =~= order);
            let mut slots: SortedSet<SlotKey> = SortedSet::new();
            let m: usize = access.slots.len();
            let ghost keys = access.slots.order();
            let ghost wanted = |key: SlotKey| addresses@.to_set().contains(key.address);
            let mut j: usize = 0;
            assert(slots@ =~= keys.take(0).to_set().filter(wanted));
            while j < m
                invariant
                    j <= m == keys.len(),
                    keys == access.slots.order(),
                    keep@ == addresses@.to_set(),
                    wanted == |key: SlotKey| addresses@.to_set().contains(key.address),
                    slots@ == keys.take(j as int).to_set().filter(wanted),
                decreases m - j,
            {
                proof {
                    lemma_take_extend(keys, j as int);
                }
                let key: SlotKey = access.slots.at(j);
                if keep.contains(&key.address) {
                    slots.insert(key);
                }
                assert(slots@ =~= keys.take(j as int + 1).to_set().filter(wanted));
                j = j + 1;
            }
            assert(keys.take(m as int) =~= keys);
            StorageAccessList {
                accounts,
                code_hashes: access.code_hashes.copy(),
                slots,
                block_numbers: access.block_numbers.copy(),
            }
        },
    }
}

/// A copy of an error.
fn copy_error(error: &AccessListError) -> (r: AccessListError)
    ensures
        r == *error,
{
    match error {
        AccessListError::Query { operation, details } => AccessListError::Query {
            operation: operation.clone(),
            details: details.clone(),
        },
    }
}

/// What answers come to.
pub struct Discovered {
    /// What the calls read.
    pub access: StorageAccessList,
    /// How many calls were answered for.
    pub successes: usize,
    /// Which calls were not, and why.
    pub failures: Vec<(usize, AccessListError)>,
}

/// Gathers what calls read from the answers.
pub fn gather_discoveries(calls: &Vec<ReadSetWarmupCall>, answers: &Vec<Discovery>) -> (r:
    Discovered)
    requires
        calls@.len() == answers@.len(),
    ensures
        r.access@ == discovered_by(calls@, answers@),
        r.successes == answered(answers@),
        r.failures@ == unanswered(answers@),
{
    let mut access = StorageAccessList::default();
    let mut successes: usize = 0;
    let mut failures: Vec<(usize, AccessListError)> = Vec::new();
    let mut i: usize = 0;
    assert(answers@.take(0) =~= Seq::empty());
    while i < answers.len()
        invariant
            i <= answers.len(),
            calls@.len() == answers@.len(),
            access@ == discovered_by(calls@, answers@.take(i as int)),
            successes == answered(answers@.take(i as int)),
            successes <= i,
            failures@ == unanswered(answers@.take(i as int)),
        decreases answers.len() - i,
    {
        assert(answers@.take(i as int + 1).drop_last() =~= answers@.take(i as int));
        match &answers[i] {
            Ok(found) => {
                let part = restrict(found, &calls[i].restrict_to);
                access.extend(&part);
                successes = successes + 1;
            },
            Err(error) => {
                failures.push((i, copy_error(error)));
            },
        }
        i = i + 1;
    }
    assert(answers@.take(i as int) =~= answers@);
    Discovered { access, successes, failures }
}

/// Slots in order, as requests.
fn ordered_requests(slots: &SortedSet<SlotKey>) -> (r: Vec<(Address, U256)>)
    ensures
        r@ == slot_requests(slots@),
        slots@ == Set::<SlotKey>::empty() <==> r@.len() == 0,
{
    let keys: Vec<SlotKey> = slots.to_vec();
    let mut requests: Vec<(Address, U256)> = Vec::new();
    let ghost whole = keys@.map_values(|key: SlotKey| (key.address, key.slot));
    let mut i: usize = 0;
    while i < keys.len()
        invariant
            i <= keys.len(),
            whole == keys@.map_values(|key: SlotKey| (key.address, key.slot)),
            requests@ =~= whole.take(i as int),
        decreases keys.len() - i,
    {
        requests.push((keys[i].address, keys[i].slot));
        i = i + 1;
    }
    proof {
        assert(requests@ =~= whole);
        lemma_in_order(keys@);
        if keys@.len() > 0 {
            assert(keys@.to_set().contains(keys@[0]));
        } else {
            assert(keys@.to_set() =~= Set::empty());
        }
    }
    requests
}

impl EvmCache {
    /// Loads slots ahead, unless there are none.
    fn prewarm_if_any<F>(&mut self, requests: Vec<(Address, U256)>, fetcher: &Option<F>) -> (r:
        PrewarmReport) where F: Fn(Vec<(Address, U256)>, BlockId) -> Vec<SlotResult>
        requires
            old(self).wf(),
            fetcher matches Some(fetch) ==> forall|asked: Vec<(Address, U256)>|
                call_requires(*fetch, (asked, old(self).context.block)),
        ensures
            final(self).wf(),
            old(self).is_warmed_by(*final(self), requests, *fetcher, r),
            *final(self) == (EvmCache {
                layers: final(self).layers,
                memo: final(self).memo,
                ..*old(self)
            }),
    {
        if requests.len() == 0 {
            return PrewarmReport::default();
        }
        self.prewarm_slots(requests, fetcher)
    }

    /// Whether slots were loaded ahead, if there are any.
    pub open spec fn is_warmed_by<F>(
        self,
        after: Self,
        requests: Vec<(Address, U256)>,
        fetcher: Option<F>,
        r: PrewarmReport,
    ) -> bool where F: Fn(Vec<(Address, U256)>, BlockId) -> Vec<SlotResult> {
        if requests@.len() == 0 {
            after == self && r.loaded == 0 && r.failed@ == Seq::<
                (Address, U256, StorageFetchError),
            >::empty()
        } else {
            self.is_prewarmed(after, requests, fetcher, r)
        }
    }

    /// Loads slots and what calls read ahead, at the pinned block.
    ///
    /// What the calls read is asked for first, where the policy says so: if that
    /// cannot be asked, or the answers do not match the calls, nothing is loaded.
    pub fn prewarm_read_sets<D, F>(
        &mut self,
        batch: ReadSetWarmupBatch,
        config: ReadSetWarmupConfig,
        discover: &Option<D>,
        fetcher: &Option<F>,
    ) -> (r: Result<ReadSetWarmupReport, ReadSetWarmupError>) where
        D: Fn(&Vec<ReadSetWarmupCall>, BlockId) -> Vec<Discovery>,
        F: Fn(Vec<(Address, U256)>, BlockId) -> Vec<SlotResult>,

        requires
            old(self).wf(),
            discover matches Some(ask) ==> call_requires(
                *ask,
                (&batch.calls, old(self).context.block),
            ),
            fetcher matches Some(fetch) ==> forall|asked: Vec<(Address, U256)>|
                call_requires(*fetch, (asked, old(self).context.block)),
        ensures
            final(self).wf(),
            old(self).is_read_set_warmup(*final(self), batch, config, *discover, *fetcher, r),
            *final(self) == (EvmCache {
                layers: final(self).layers,
                memo: final(self).memo,
                ..*old(self)
            }),
    {
        let calls: usize = batch.calls.len();
        if calls == 0 || !config.should_use_access_lists(&batch.calls) {
            let known = self.prewarm_if_any(batch.known_slots, fetcher);
            return Ok(
                ReadSetWarmupReport {
                    known,
                    used_access_lists: false,
                    skipped_calls: calls,
                    access_list_successes: 0,
                    access_list_failures: Vec::new(),
                    discovered_access: StorageAccessList::default(),
                    discovered: PrewarmReport::default(),
                },
            );
        }
        let ask = match discover {
            Some(ask) => ask,
            None => {
                return Err(ReadSetWarmupError::AccessListFetcherUnavailable { calls });
            },
        };
        let answers: Vec<Discovery> = ask(&batch.calls, self.context.block);
        assert(call_ensures(discover->0, (&batch.calls, old(self).context.block), answers));
        if answers.len() != calls {
            return Err(
                ReadSetWarmupError::AccessListResultCountMismatch {
                    expected: calls,
                    actual: answers.len(),
                },
            );
        }
        let found: Discovered = gather_discoveries(&batch.calls, &answers);
        let known = self.prewarm_if_any(batch.known_slots, fetcher);
        let ghost middle = *self;
        let slots: Vec<(Address, U256)> = ordered_requests(&found.access.slots);
        let ghost asked = slots;
        let discovered = self.prewarm_if_any(slots, fetcher);
        let report = ReadSetWarmupReport {
            known,
            used_access_lists: true,
            skipped_calls: 0,
            access_list_successes: found.successes,
            access_list_failures: found.failures,
            discovered_access: found.access,
            discovered,
        };
        assert(old(self).is_discovery_warmup(
            middle,
            *self,
            batch,
            *fetcher,
            answers,
            asked,
            report,
        ));
        let r: Result<ReadSetWarmupReport, ReadSetWarmupError> = Ok(report);
        assert(r->Ok_0 == report);
        assert(old(self).is_answered_warmup(*self, batch, *fetcher, answers, r));
        r
    }

    /// Whether slots were loaded ahead, then what the calls read by the answers.
    pub open spec fn is_discovery_warmup<F>(
        self,
        middle: Self,
        after: Self,
        batch: ReadSetWarmupBatch,
        fetcher: Option<F>,
        answers: Vec<Discovery>,
        asked: Vec<(Address, U256)>,
        report: ReadSetWarmupReport,
    ) -> bool where F: Fn(Vec<(Address, U256)>, BlockId) -> Vec<SlotResult> {
        let access = discovered_by(batch.calls@, answers@);
        &&& answers@.len() == batch.calls@.len()
        &&& self.is_warmed_by(middle, batch.known_slots, fetcher, report.known)
        &&& asked@ == slot_requests(access.slots)
        &&& middle.is_warmed_by(after, asked, fetcher, report.discovered)
        &&& report.used_access_lists
        &&& report.skipped_calls == 0
        &&& report.access_list_successes == answered(answers@)
        &&& report.access_list_failures@ == unanswered(answers@)
        &&& report.discovered_access@ == access
    }

    /// Whether slots and what calls read were loaded ahead by the policy.
    pub open spec fn is_read_set_warmup<D, F>(
        self,
        after: Self,
        batch: ReadSetWarmupBatch,
        config: ReadSetWarmupConfig,
        discover: Option<D>,
        fetcher: Option<F>,
        r: Result<ReadSetWarmupReport, ReadSetWarmupError>,
    ) -> bool where
        D: Fn(&Vec<ReadSetWarmupCall>, BlockId) -> Vec<Discovery>,
        F: Fn(Vec<(Address, U256)>, BlockId) -> Vec<SlotResult>,
     {
        let calls = batch.calls@.len() as usize;
        if calls == 0 || !config.asks(batch.calls@) {
            &&& r matches Ok(report)
            &&& self.is_warmed_by(after, batch.known_slots, fetcher, report.known)
            &&& !report.used_access_lists
            &&& report.skipped_calls == calls
            &&& report.access_list_successes == 0
            &&& report.access_list_failures@.len() == 0
            &&& report.discovered_access@ == AccessModel::empty()
            &&& report.discovered.loaded == 0
            &&& report.discovered.failed@.len() == 0
        } else if discover is None {
            &&& r == Err::<ReadSetWarmupReport, ReadSetWarmupError>(
                ReadSetWarmupError::AccessListFetcherUnavailable { calls },
            )
            &&& after == self
        } else {
            exists|answers: Vec<Discovery>| #[trigger]
                call_ensures(discover->0, (&batch.calls, self.context.block), answers)
                    && self.is_answered_warmup(after, batch, fetcher, answers, r)
        }
    }

    /// Whether what calls read was loaded ahead by the answers, or refused
    /// because these do not match the calls.
    pub open spec fn is_answered_warmup<F>(
        self,
        after: Self,
        batch: ReadSetWarmupBatch,
        fetcher: Option<F>,
        answers: Vec<Discovery>,
        r: Result<ReadSetWarmupReport, ReadSetWarmupError>,
    ) -> bool where F: Fn(Vec<(Address, U256)>, BlockId) -> Vec<SlotResult> {
        if answers@.len() != batch.calls@.len() {
            &&& r == Err::<ReadSetWarmupReport, ReadSetWarmupError>(
                ReadSetWarmupError::AccessListResultCountMismatch {
                    expected: batch.calls@.len() as usize,
                    actual: answers@.len() as usize,
                },
            )
            &&& after == self
        } else {
            &&& r is Ok
            &&& exists|middle: Self, asked: Vec<(Address, U256)>| #[trigger]
                self.is_discovery_warmup(
                    middle,
                    after,
                    batch,
                    fetcher,
                    answers,
                    asked,
                    r->Ok_0,
                )
        }
    }
}

} // verus!
