//! Giving accounts code that was not fetched, and checking it against the chain.

use crate::block::BlockId;
use crate::bulk_storage::config::multicall3_address;
use crate::bulk_storage::programs::AccountFieldsSample;
use crate::cache::account::{AccountInfo, AccountState, Bytecode, InfoModel};
use crate::cache::base::lemma_marked_write_is_honest;
use crate::cache::code_seeds::CodeSeedState;
use crate::cache::config::MissingTargetBehavior;
use crate::cache::evm_cache::{next_generation, EvmCache};
use crate::cache::layers::{lookup, LayersModel};
use crate::collections::{in_order, lemma_in_order, lemma_take_extend, SortedMap, SortedSet};
use crate::errors::{CacheError, CodeRole, StorageFetchError};
use crate::foreign::{code_hash_of, keccak_empty, spec_keccak_empty};
use crate::primitives::{Address, B256, U256};
use vstd::prelude::*;

verus! {

/// A claim that the chain contradicts.
#[derive(Clone, Copy, Debug, PartialEq, Eq, Structural)]
pub struct CodeMismatch {
    /// The account.
    pub address: Address,
    /// The hash that was claimed.
    pub expected: B256,
    /// The hash on the chain.
    pub actual: B256,
}

/// Why a claim could not be checked.
#[derive(Debug, PartialEq, Eq)]
pub enum UnverifiableReason {
    /// The program that reads code hashes runs at this very address.
    ExtractorHost,
    /// The fetch failed.
    FetchFailed(StorageFetchError),
    /// The fetch left the account out.
    NoSample,
}

impl Clone for UnverifiableReason {
    fn clone(&self) -> (r: Self)
        ensures
            r == *self,
    {
        match self {
            UnverifiableReason::ExtractorHost => UnverifiableReason::ExtractorHost,
            UnverifiableReason::FetchFailed(error) => UnverifiableReason::FetchFailed(
                error.clone(),
            ),
            UnverifiableReason::NoSample => UnverifiableReason::NoSample,
        }
    }
}

/// What came of checking claims.
#[derive(Debug, PartialEq, Eq)]
pub struct CodeVerifyReport {
    /// Claims that hold.
    pub verified: Vec<Address>,
    /// Claims that the chain contradicts.
    pub mismatched: Vec<CodeMismatch>,
    /// Accounts that do not exist.
    pub not_deployed: Vec<Address>,
    /// Accounts without code.
    pub codeless: Vec<Address>,
    /// Claims that could not be checked.
    pub unverifiable: Vec<(Address, UnverifiableReason)>,
}

/// What a report holds.
#[verifier::ext_equal]
pub struct ReportModel {
    /// Claims that hold.
    pub verified: Seq<Address>,
    /// Claims that the chain contradicts.
    pub mismatched: Seq<CodeMismatch>,
    /// Accounts that do not exist.
    pub not_deployed: Seq<Address>,
    /// Accounts without code.
    pub codeless: Seq<Address>,
    /// Claims that could not be checked.
    pub unverifiable: Seq<(Address, UnverifiableReason)>,
}

impl View for CodeVerifyReport {
    type V = ReportModel;

    open spec fn view(&self) -> ReportModel {
        ReportModel {
            verified: self.verified@,
            mismatched: self.mismatched@,
            not_deployed: self.not_deployed@,
            codeless: self.codeless@,
            unverifiable: self.unverifiable@,
        }
    }
}

impl ReportModel {
    /// Nothing was checked.
    pub open spec fn empty() -> Self {
        ReportModel {
            verified: Seq::empty(),
            mismatched: Seq::empty(),
            not_deployed: Seq::empty(),
            codeless: Seq::empty(),
            unverifiable: Seq::empty(),
        }
    }
}

impl Default for CodeVerifyReport {
    fn default() -> (r: Self)
        ensures
            r@ == ReportModel::empty(),
    {
        CodeVerifyReport {
            verified: Vec::new(),
            mismatched: Vec::new(),
            not_deployed: Vec::new(),
            codeless: Vec::new(),
            unverifiable: Vec::new(),
        }
    }
}

/// What checking claims touches.
#[verifier::ext_equal]
pub struct SettleModel {
    /// The state.
    pub layers: LayersModel,
    /// The marks.
    pub marks: Map<Address, CodeSeedState>,
    /// The generation.
    pub generation: u64,
    /// The report.
    pub report: ReportModel,
}

impl SettleModel {
    /// With an account taken out, mark and all.
    pub open spec fn purged(self, address: Address) -> Self {
        SettleModel {
            layers: self.layers.without_account(address),
            marks: self.marks.remove(address),
            generation: next_generation(self.generation),
            ..self
        }
    }

    /// Once one claim was held against what the chain says of the account.
    ///
    /// A claim that holds is marked so, and the account gets its real balance.
    /// A claim that does not hold takes the account out. A claim of which the
    /// chain said nothing stays as it is.
    pub open spec fn settled(
        self,
        address: Address,
        sample: Option<AccountFieldsSample>,
        at: u64,
    ) -> Self {
        match lookup(self.marks, address) {
            Some(CodeSeedState::Pending { code_hash: expected }) => match sample {
                None => SettleModel {
                    report: ReportModel {
                        unverifiable: self.report.unverifiable.push(
                            (address, UnverifiableReason::NoSample),
                        ),
                        ..self.report
                    },
                    ..self
                },
                Some(sample) => if sample.code_hash == expected {
                    SettleModel {
                        layers: self.layers.with_balance(address, sample.balance),
                        marks: self.marks.insert(
                            address,
                            CodeSeedState::Verified { code_hash: expected, verified_at_block: at },
                        ),
                        report: ReportModel {
                            verified: self.report.verified.push(address),
                            ..self.report
                        },
                        ..self
                    }
                } else if sample.code_hash@ == 0 {
                    SettleModel {
                        report: ReportModel {
                            not_deployed: self.report.not_deployed.push(address),
                            ..self.report
                        },
                        ..self.purged(address)
                    }
                } else if sample.code_hash == spec_keccak_empty() {
                    SettleModel {
                        report: ReportModel {
                            codeless: self.report.codeless.push(address),
                            ..self.report
                        },
                        ..self.purged(address)
                    }
                } else {
                    SettleModel {
                        report: ReportModel {
                            mismatched: self.report.mismatched.push(
                                CodeMismatch { address, expected, actual: sample.code_hash },
                            ),
                            ..self.report
                        },
                        ..self.purged(address)
                    }
                },
            },
            _ => self,
        }
    }

    /// Once several claims were held against the chain, in order.
    pub open spec fn settled_all(
        self,
        addresses: Seq<Address>,
        samples: Map<Address, AccountFieldsSample>,
        at: u64,
    ) -> Self
        decreases addresses.len(),
    {
        if addresses.len() == 0 {
            self
        } else {
            self.settled_all(addresses.drop_last(), samples, at).settled(
                addresses.last(),
                lookup(samples, addresses.last()),
                at,
            )
        }
    }
}

/// The sample that each account was given last.
pub open spec fn last_samples(samples: Seq<(Address, AccountFieldsSample)>) -> Map<
    Address,
    AccountFieldsSample,
>
    decreases samples.len(),
{
    if samples.len() == 0 {
        Map::empty()
    } else {
        last_samples(samples.drop_last()).insert(samples.last().0, samples.last().1)
    }
}

/// The accounts with a claim that was not checked yet.
pub open spec fn pending_set(marks: Map<Address, CodeSeedState>) -> Set<Address> {
    Set::new(|a: Address| marks.contains_key(a) && marks[a] is Pending)
}

/// The accounts whose code is meant to differ from the chain's.
pub open spec fn etched_set(marks: Map<Address, CodeSeedState>) -> Set<Address> {
    Set::new(|a: Address| marks.contains_key(a) && marks[a] is Etched)
}

/// The claims that can be checked: not the one about the address that the
/// program runs at.
pub open spec fn checkable_set(marks: Map<Address, CodeSeedState>) -> Set<Address> {
    pending_set(marks).remove(multicall3_address())
}

/// The report where only the claim about the program's own address is left out.
pub open spec fn host_report(marks: Map<Address, CodeSeedState>) -> ReportModel {
    if pending_set(marks).contains(multicall3_address()) {
        ReportModel {
            unverifiable: seq![(multicall3_address(), UnverifiableReason::ExtractorHost)],
            ..ReportModel::empty()
        }
    } else {
        ReportModel::empty()
    }
}

/// Claims that all failed for one reason.
pub open spec fn all_unverifiable(addresses: Seq<Address>, reason: UnverifiableReason) -> Seq<
    (Address, UnverifiableReason),
> {
    addresses.map_values(|a: Address| (a, reason))
}

impl EvmCache {
    /// What checking claims touches, now.
    pub open spec fn settle_model(self, report: ReportModel) -> SettleModel {
        SettleModel {
            layers: self.layers@,
            marks: self.code_seeds@,
            generation: self.snapshot_generation,
            report,
        }
    }

    /// The mark of an account, if it has one.
    pub fn code_seed_state(&self, address: &Address) -> (r: Option<CodeSeedState>)
        ensures
            r == lookup(self.code_seeds@, *address),
    {
        match self.code_seeds.get(address) {
            Some(mark) => Some(*mark),
            None => None,
        }
    }

    /// The accounts with a claim that was not checked yet, in order.
    pub fn pending_code_seeds(&self) -> (r: Vec<Address>)
        ensures
            r@ == in_order(pending_set(self.code_seeds@)),
            r@.to_set() == pending_set(self.code_seeds@),
            r@.no_duplicates(),
    {
        let mut found: SortedSet<Address> = SortedSet::new();
        let n: usize = self.code_seeds.len();
        let ghost order = self.code_seeds.order();
        let mut i: usize = 0;
        while i < n
            invariant
                i <= n == order.len(),
                order == self.code_seeds.order(),
                order.to_set() == self.code_seeds@.dom(),
                forall|a: Address| #[trigger]
                    found@.contains(a) <==> order.take(i as int).to_set().contains(a)
                        && self.code_seeds@[a] is Pending,
            decreases n - i,
        {
            let address: Address = self.code_seeds.key_at(i);
            proof {
                lemma_take_extend(order, i as int);
                assert(order.to_set().contains(address));
            }
            if let CodeSeedState::Pending { .. } = self.code_seeds.value_at(i) {
                found.insert(address);
            }
            i = i + 1;
        }
        let r: Vec<Address> = found.to_vec();
        proof {
            assert(order.take(n as int) =~= order);
            assert(found@ =~= pending_set(self.code_seeds@));
            lemma_in_order(r@);
        }
        r
    }

    /// The accounts whose code is meant to differ from the chain's, in order.
    pub fn etched_accounts(&self) -> (r: Vec<Address>)
        ensures
            r@ == in_order(etched_set(self.code_seeds@)),
            r@.to_set() == etched_set(self.code_seeds@),
    {
        let mut found: SortedSet<Address> = SortedSet::new();
        let n: usize = self.code_seeds.len();
        let ghost order = self.code_seeds.order();
        let mut i: usize = 0;
        while i < n
            invariant
                i <= n == order.len(),
                order == self.code_seeds.order(),
                order.to_set() == self.code_seeds@.dom(),
                forall|a: Address| #[trigger]
                    found@.contains(a) <==> order.take(i as int).to_set().contains(a)
                        && self.code_seeds@[a] is Etched,
            decreases n - i,
        {
            let address: Address = self.code_seeds.key_at(i);
            proof {
                lemma_take_extend(order, i as int);
                assert(order.to_set().contains(address));
            }
            if let CodeSeedState::Etched { .. } = self.code_seeds.value_at(i) {
                found.insert(address);
            }
            i = i + 1;
        }
        let r: Vec<Address> = found.to_vec();
        proof {
            assert(order.take(n as int) =~= order);
            assert(found@ =~= etched_set(self.code_seeds@));
            lemma_in_order(r@);
        }
        r
    }

    /// Holds one claim against what the chain says of the account.
    fn settle_seed(
        &mut self,
        address: Address,
        sample: Option<AccountFieldsSample>,
        at: u64,
        report: &mut CodeVerifyReport,
    )
        requires
            old(self).wf(),
        ensures
            final(self).wf(),
            final(self).settle_model(final(report)@) == old(self).settle_model(
                old(report)@,
            ).settled(address, sample, at),
            *final(self) == (EvmCache {
                layers: final(self).layers,
                memo: final(self).memo,
                code_seeds: final(self).code_seeds,
                snapshot_generation: final(self).snapshot_generation,
                ..*old(self)
            }),
    {
        let ghost start = old(self).settle_model(old(report)@);
        let ghost target = start.settled(address, sample, at);
        let expected: B256 = match self.code_seed_state(&address) {
            Some(CodeSeedState::Pending { code_hash }) => code_hash,
            _ => {
                return;
            },
        };
        let sample: AccountFieldsSample = match sample {
            Some(sample) => sample,
            None => {
                report.unverifiable.push((address, UnverifiableReason::NoSample));
                assert(self.settle_model(report@) =~= target);
                return;
            },
        };
        if sample.code_hash == expected {
            self.code_seeds.insert(
                address,
                CodeSeedState::Verified { code_hash: expected, verified_at_block: at },
            );
            self.layers.set_balance(address, sample.balance);
            self.memo.mark_dirty(address);
            proof {
                lemma_marked_write_is_honest(
                    old(self).memo,
                    old(self).layers@,
                    self.memo,
                    self.layers@,
                );
            }
            report.verified.push(address);
            assert(self.settle_model(report@) =~= target);
            return;
        }
        self.purge_account(address);
        if sample.code_hash.hi == 0 && sample.code_hash.lo == 0 {
            report.not_deployed.push(address);
        } else if sample.code_hash == keccak_empty() {
            report.codeless.push(address);
        } else {
            report.mismatched.push(
                CodeMismatch { address, expected, actual: sample.code_hash },
            );
        }
        assert(self.settle_model(report@) =~= target);
    }

    /// Holds claims against samples from the chain, in order.
    pub fn absorb_code_samples(
        &mut self,
        addresses: &Vec<Address>,
        samples: &Vec<(Address, AccountFieldsSample)>,
        report: &mut CodeVerifyReport,
    )
        requires
            old(self).wf(),
        ensures
            final(self).wf(),
            final(self).settle_model(final(report)@) == old(self).settle_model(
                old(report)@,
            ).settled_all(
                addresses@,
                last_samples(samples@),
                match old(self).context.block_number {
                    Some(number) => number,
                    None => 0,
                },
            ),
            *final(self) == (EvmCache {
                layers: final(self).layers,
                memo: final(self).memo,
                code_seeds: final(self).code_seeds,
                snapshot_generation: final(self).snapshot_generation,
                ..*old(self)
            }),
    {
        let mut by_address: SortedMap<Address, AccountFieldsSample> = SortedMap::new();
        let mut k: usize = 0;
        assert(samples@.take(0) =~= Seq::empty());
        while k < samples.len()
            invariant
                k <= samples.len(),
                by_address@ == last_samples(samples@.take(k as int)),
            decreases samples.len() - k,
        {
            by_address.insert(samples[k].0, samples[k].1);
            assert(samples@.take(k as int + 1).drop_last() =~= samples@.take(k as int));
            k = k + 1;
        }
        assert(samples@.take(k as int) =~= samples@);
        let at: u64 = match self.context.block_number {
            Some(number) => number,
            None => 0,
        };
        let ghost start = old(self).settle_model(old(report)@);
        let mut i: usize = 0;
        assert(addresses@.take(0) =~= Seq::empty());
        while i < addresses.len()
            invariant
                i <= addresses.len(),
                by_address@ == last_samples(samples@),
                self.wf(),
                start == old(self).settle_model(old(report)@),
                self.settle_model(report@) == start.settled_all(
                    addresses@.take(i as int),
                    by_address@,
                    at,
                ),
                *self == (EvmCache {
                    layers: self.layers,
                    memo: self.memo,
                    code_seeds: self.code_seeds,
                    snapshot_generation: self.snapshot_generation,
                    ..*old(self)
                }),
            decreases addresses.len() - i,
        {
            assert(addresses@.take(i as int + 1).drop_last() =~= addresses@.take(i as int));
            let sample: Option<AccountFieldsSample> = match by_address.get(&addresses[i]) {
                Some(sample) => Some(*sample),
                None => None,
            };
            self.settle_seed(addresses[i], sample, at, report);
            i = i + 1;
        }
        assert(addresses@.take(i as int) =~= addresses@);
    }

    /// Checks every claim that was not checked yet, at the pinned block.
    ///
    /// A fetch that fails proves nothing: every claim then stays as it is.
    pub fn verify_code_seeds<F>(&mut self, fetcher: Option<F>) -> (r: Result<
        CodeVerifyReport,
        CacheError,
    >) where
        F: Fn(Vec<Address>, BlockId) -> Result<
            Vec<(Address, AccountFieldsSample)>,
            StorageFetchError,
        >,

        requires
            old(self).wf(),
            fetcher matches Some(fetch) ==> forall|query: Vec<Address>|
                call_requires(fetch, (query, old(self).context.block)),
        ensures
            final(self).wf(),
            old(self).is_seed_check(*final(self), fetcher, r),
            *final(self) == (EvmCache {
                layers: final(self).layers,
                memo: final(self).memo,
                code_seeds: final(self).code_seeds,
                snapshot_generation: final(self).snapshot_generation,
                ..*old(self)
            }),
    {
        let pending: Vec<Address> = self.pending_code_seeds();
        if pending.len() == 0 {
            assert(pending_set(self.code_seeds@) =~= Set::empty());
            return Ok(CodeVerifyReport::default());
        }
        proof {
            assert(pending@.to_set().contains(pending@[0]));
        }
        let fetch = match fetcher {
            Some(fetch) => fetch,
            None => {
                return Err(CacheError::MissingAccountFieldsFetcher);
            },
        };
        let mut report = CodeVerifyReport::default();
        let mut query: SortedSet<Address> = SortedSet::new();
        let host: Address = multicall3_address();
        let mut i: usize = 0;
        while i < pending.len()
            invariant
                i <= pending.len(),
                pending@.to_set() == pending_set(old(self).code_seeds@),
                pending@.no_duplicates(),
                host == multicall3_address(),
                *self == *old(self),
                query@ == pending@.take(i as int).to_set().remove(host),
                report@ == if pending@.take(i as int).to_set().contains(host) {
                    ReportModel {
                        unverifiable: seq![(host, UnverifiableReason::ExtractorHost)],
                        ..ReportModel::empty()
                    }
                } else {
                    ReportModel::empty()
                },
            decreases pending.len() - i,
        {
            proof {
                lemma_take_extend(pending@, i as int);
                if pending@[i as int] == host && pending@.take(i as int).to_set().contains(host) {
                    let j = pending@.take(i as int).index_of(host);
                    assert(pending@[j] == pending@[i as int]);
                }
            }
            if pending[i] == host {
                report.unverifiable.push((host, UnverifiableReason::ExtractorHost));
                assert(report@.unverifiable =~= seq![(host, UnverifiableReason::ExtractorHost)]);
                assert(query@ =~= pending@.take(i as int + 1).to_set().remove(host));
            } else {
                query.insert(pending[i]);
                assert(query@ =~= pending@.take(i as int + 1).to_set().remove(host));
            }
            i = i + 1;
        }
        assert(pending@.take(i as int) =~= pending@);
        let query: Vec<Address> = query.to_vec();
        proof {
            lemma_in_order(query@);
            assert(query@ == in_order(checkable_set(old(self).code_seeds@)));
            assert(report@ == host_report(old(self).code_seeds@));
        }
        if query.len() == 0 {
            proof {
                assert(checkable_set(old(self).code_seeds@) =~= Set::empty());
            }
            return Ok(report);
        }
        proof {
            assert(query@.to_set().contains(query@[0]));
        }
        let asked: Vec<Address> = copy_addresses(&query);
        let answer = fetch(asked, self.context.block);
        let ghost given = answer;
        match answer {
            Err(error) => {
                let reason = UnverifiableReason::FetchFailed(error);
                let ghost listed = report.unverifiable@;
                let mut k: usize = 0;
                while k < query.len()
                    invariant
                        k <= query.len(),
                        report@ == (ReportModel {
                            unverifiable: listed + all_unverifiable(query@, reason).take(k as int),
                            ..host_report(old(self).code_seeds@)
                        }),
                    decreases query.len() - k,
                {
                    report.unverifiable.push((query[k], reason.clone()));
                    assert(report@.unverifiable =~= listed + all_unverifiable(
                        query@,
                        reason,
                    ).take(k as int + 1));
                    k = k + 1;
                }
                proof {
                    assert(all_unverifiable(query@, reason).take(k as int) =~= all_unverifiable(
                        query@,
                        reason,
                    ));
                    assert(old(self).is_seed_answer(*self, report@, asked, given));
                }
                Ok(report)
            },
            Ok(samples) => {
                self.absorb_code_samples(&query, &samples, &mut report);
                assert(old(self).is_seed_answer(*self, report@, asked, given));
                Ok(report)
            },
        }
    }

    /// Whether claims were settled from what the fetcher answered.
    pub open spec fn is_seed_answer(
        self,
        after: Self,
        report: ReportModel,
        asked: Vec<Address>,
        answer: Result<Vec<(Address, AccountFieldsSample)>, StorageFetchError>,
    ) -> bool {
        let base = host_report(self.code_seeds@);
        &&& asked@ == in_order(checkable_set(self.code_seeds@))
        &&& match answer {
            Err(error) => {
                &&& after == self
                &&& report == (ReportModel {
                    unverifiable: base.unverifiable + all_unverifiable(
                        asked@,
                        UnverifiableReason::FetchFailed(error),
                    ),
                    ..base
                })
            },
            Ok(samples) => after.settle_model(report) == self.settle_model(base).settled_all(
                asked@,
                last_samples(samples@),
                match self.context.block_number {
                    Some(number) => number,
                    None => 0,
                },
            ),
        }
    }

    /// Whether claims were checked: nothing happens where there is none, or
    /// nothing to fetch with, or none that can be checked.
    pub open spec fn is_seed_check<F>(
        self,
        after: Self,
        fetcher: Option<F>,
        r: Result<CodeVerifyReport, CacheError>,
    ) -> bool where
        F: Fn(Vec<Address>, BlockId) -> Result<
            Vec<(Address, AccountFieldsSample)>,
            StorageFetchError,
        >,
     {
        if pending_set(self.code_seeds@) == Set::<Address>::empty() {
            (r matches Ok(report) && report@ == ReportModel::empty()) && after == self
        } else if fetcher is None {
            r == Err::<CodeVerifyReport, CacheError>(CacheError::MissingAccountFieldsFetcher)
                && after == self
        } else if checkable_set(self.code_seeds@) == Set::<Address>::empty() {
            (r matches Ok(report) && report@ == host_report(self.code_seeds@)) && after == self
        } else {
            exists|asked: Vec<Address>, answer| #[trigger]
                call_ensures(fetcher->0, (asked, self.context.block), answer) && (
                r matches Ok(report) && self.is_seed_answer(after, report@, asked, answer))
        }
    }
}

/// A copy of addresses.
fn copy_addresses(addresses: &Vec<Address>) -> (r: Vec<Address>)
    ensures
        r@ == addresses@,
{
    let mut copied: Vec<Address> = Vec::new();
    copied.extend_from_slice(addresses.as_slice());
    assert(copied@ =~= addresses@);
    copied
}

/// A claim is settled by any sample, whatever it says: it holds and is marked
/// so, or the account is gone, mark and all. Without a sample nothing changes
/// but the report.
pub proof fn law_claims_are_settled(
    state: SettleModel,
    address: Address,
    sample: Option<AccountFieldsSample>,
    at: u64,
)
    requires
        lookup(state.marks, address) matches Some(mark) && mark is Pending,
    ensures
        ({
            let after = state.settled(address, sample, at);
            &&& sample is None ==> after.layers == state.layers && after.marks == state.marks
                && after.generation == state.generation
            &&& sample matches Some(found) ==> if found.code_hash
                == state.marks[address].spec_code_hash() {
                &&& after.marks[address] is Verified
                &&& after.generation == state.generation
            } else {
                &&& !after.marks.contains_key(address)
                &&& after.layers.info(address) is None
                &&& after.generation == next_generation(state.generation)
            }
        }),
{
}

/// Checking leaves alone what is not a claim: code that was fetched, code that
/// was found to be the chain's, and code that is meant to differ.
pub proof fn law_settled_marks_stay(
    state: SettleModel,
    address: Address,
    sample: Option<AccountFieldsSample>,
    at: u64,
)
    requires
        lookup(state.marks, address) matches Some(mark) ==> !(mark is Pending),
    ensures
        state.settled(address, sample, at) == state,
{
}

/// The hash that code is known by.
pub open spec fn hash_of(code: Seq<u8>) -> B256 {
    B256::spec_from(code_hash_of(code))
}

/// An account with other code.
pub open spec fn with_code(info: InfoModel, code: Seq<u8>) -> InfoModel {
    InfoModel { code: Some(code), code_hash: hash_of(code), ..info }
}

/// What giving an account code claimed to be the chain's comes to.
pub enum SeedOutcome {
    /// The code is empty.
    Empty,
    /// The account was fetched with this code; its bytes are there, or were
    /// missing and are now.
    Confirmed {
        /// Whether the bytes were missing.
        repaired: bool,
    },
    /// The account was fetched with other code.
    Conflict {
        /// The hash of that code.
        cached: B256,
    },
    /// The claim is made.
    Claimed,
}

/// What giving an account code comes to. Code that was fetched is the chain's;
/// a mark says that it was not fetched.
pub open spec fn seed_outcome(
    layers: LayersModel,
    marks: Map<Address, CodeSeedState>,
    address: Address,
    code: Seq<u8>,
) -> SeedOutcome {
    if code.len() == 0 {
        SeedOutcome::Empty
    } else if marks.contains_key(address) || layers.local_info(address) is None {
        SeedOutcome::Claimed
    } else {
        let existing = layers.local_info(address)->0;
        if existing.code_hash == hash_of(code) {
            SeedOutcome::Confirmed { repaired: !existing.has_code() }
        } else {
            SeedOutcome::Conflict { cached: existing.code_hash }
        }
    }
}

impl EvmCache {
    /// Writes an account with code that was not fetched to both layers.
    fn write_marked_code(&mut self, address: Address, info: AccountInfo)
        requires
            old(self).wf(),
        ensures
            final(self).wf(),
            final(self).layers@ == old(self).layers@.with_info_everywhere(address, info@),
            *final(self) == (EvmCache {
                layers: final(self).layers,
                memo: final(self).memo,
                snapshot_generation: next_generation(old(self).snapshot_generation),
                ..*old(self)
            }),
    {
        self.layers.write_account_info_everywhere(address, info);
        self.memo.mark_dirty(address);
        proof {
            lemma_marked_write_is_honest(
                old(self).memo,
                old(self).layers@,
                self.memo,
                self.layers@,
            );
        }
        self.bump_snapshot_generation();
    }

    /// Gives an account code claimed to be the chain's, to be checked later. An
    /// account that is not cached gets nonce 1 and no balance.
    pub fn seed_account_code(&mut self, address: Address, code: Bytecode) -> (r: Result<
        B256,
        CacheError,
    >)
        requires
            old(self).wf(),
        ensures
            final(self).wf(),
            old(self).is_seeded(*final(self), address, code@, 1, U256::spec_zero(), r),
    {
        self.seed_account_code_with(address, code, 1, U256::zero())
    }

    /// Gives an account code claimed to be the chain's, to be checked later. An
    /// account that is not cached gets the given nonce and balance.
    pub fn seed_account_code_with(
        &mut self,
        address: Address,
        code: Bytecode,
        nonce: u64,
        balance: U256,
    ) -> (r: Result<B256, CacheError>)
        requires
            old(self).wf(),
        ensures
            final(self).wf(),
            old(self).is_seeded(*final(self), address, code@, nonce, balance, r),
    {
        if code.is_empty() {
            return Err(CacheError::CodeSeedEmpty { address });
        }
        let code_hash: B256 = code.hash_slow();
        let existing: Option<AccountInfo> = self.layers.local_account_info(address);
        if !self.code_seeds.contains_key(&address) {
            if let Some(existing) = &existing {
                if existing.code_hash != code_hash {
                    return Err(
                        CacheError::CodeSeedConflict {
                            address,
                            cached: existing.code_hash,
                            seeded: code_hash,
                        },
                    );
                }
                if !existing.has_code() {
                    let mut info = existing.clone();
                    info.code = Some(code);
                    self.write_marked_code(address, info);
                }
                let verified_at_block: u64 = match self.context.block_number {
                    Some(number) => number,
                    None => 0,
                };
                self.code_seeds.insert(
                    address,
                    CodeSeedState::Verified { code_hash, verified_at_block },
                );
                return Ok(code_hash);
            }
        }
        let mut info: AccountInfo = match existing {
            Some(existing) => existing,
            None => AccountInfo { balance, nonce, code_hash: keccak_empty(), code: None },
        };
        info.code = Some(code);
        info.code_hash = code_hash;
        self.write_marked_code(address, info);
        self.code_seeds.insert(address, CodeSeedState::Pending { code_hash });
        Ok(code_hash)
    }

    /// Whether an account was given code as [`seed_outcome`] says.
    pub open spec fn is_seeded(
        self,
        after: Self,
        address: Address,
        code: Seq<u8>,
        nonce: u64,
        balance: U256,
        r: Result<B256, CacheError>,
    ) -> bool {
        let hash = hash_of(code);
        let at: u64 = match self.context.block_number {
            Some(number) => number,
            None => 0,
        };
        &&& after == (EvmCache {
            layers: after.layers,
            memo: after.memo,
            code_seeds: after.code_seeds,
            snapshot_generation: after.snapshot_generation,
            ..self
        })
        &&& match seed_outcome(self.layers@, self.code_seeds@, address, code) {
            SeedOutcome::Empty => {
                &&& r == Err::<B256, CacheError>(CacheError::CodeSeedEmpty { address })
                &&& after == self
            },
            SeedOutcome::Conflict { cached } => {
                &&& r == Err::<B256, CacheError>(
                    CacheError::CodeSeedConflict { address, cached, seeded: hash },
                )
                &&& after == self
            },
            SeedOutcome::Confirmed { repaired } => {
                &&& r == Ok::<B256, CacheError>(hash)
                &&& after.code_seeds@ == self.code_seeds@.insert(
                    address,
                    CodeSeedState::Verified { code_hash: hash, verified_at_block: at },
                )
                &&& if repaired {
                    &&& after.layers@ == self.layers@.with_info_everywhere(
                        address,
                        with_code(self.layers@.local_info(address)->0, code),
                    )
                    &&& after.snapshot_generation == next_generation(self.snapshot_generation)
                } else {
                    &&& after.layers@ == self.layers@
                    &&& after.snapshot_generation == self.snapshot_generation
                }
            },
            SeedOutcome::Claimed => {
                let base = match self.layers@.local_info(address) {
                    Some(existing) => existing,
                    None => InfoModel {
                        balance,
                        nonce,
                        code_hash: spec_keccak_empty(),
                        code: None,
                    },
                };
                &&& r == Ok::<B256, CacheError>(hash)
                &&& after.layers@ == self.layers@.with_info_everywhere(
                    address,
                    with_code(base, code),
                )
                &&& after.code_seeds@ == self.code_seeds@.insert(
                    address,
                    CodeSeedState::Pending { code_hash: hash },
                )
                &&& after.snapshot_generation == next_generation(self.snapshot_generation)
            },
        }
    }

    /// Gives an account code that is meant to differ from the chain's.
    pub fn etch_account_code(&mut self, address: Address, code: Bytecode) -> (r: Result<
        B256,
        CacheError,
    >)
        requires
            old(self).wf(),
        ensures
            final(self).wf(),
            code@.len() == 0 ==> r == Err::<B256, CacheError>(
                CacheError::CodeSeedEmpty { address },
            ) && *final(self) == *old(self),
            code@.len() > 0 ==> {
                let base = match old(self).layers@.local_info(address) {
                    Some(existing) => existing,
                    None => InfoModel::fresh(),
                };
                &&& r == Ok::<B256, CacheError>(hash_of(code@))
                &&& final(self).layers@ == old(self).layers@.with_info_everywhere(
                    address,
                    with_code(base, code@),
                )
                &&& final(self).code_seeds@ == old(self).code_seeds@.insert(
                    address,
                    CodeSeedState::Etched { code_hash: hash_of(code@) },
                )
                &&& *final(self) == (EvmCache {
                    layers: final(self).layers,
                    memo: final(self).memo,
                    code_seeds: final(self).code_seeds,
                    snapshot_generation: next_generation(old(self).snapshot_generation),
                    ..*old(self)
                })
            },
    {
        if code.is_empty() {
            return Err(CacheError::CodeSeedEmpty { address });
        }
        let code_hash: B256 = code.hash_slow();
        let mut info: AccountInfo = match self.layers.local_account_info(address) {
            Some(existing) => existing,
            None => AccountInfo::default(),
        };
        info.code = Some(code);
        info.code_hash = code_hash;
        self.write_marked_code(address, info);
        self.code_seeds.insert(address, CodeSeedState::Etched { code_hash });
        Ok(code_hash)
    }

    /// Marks the code of a contract that was deployed here, not on the chain.
    pub fn record_deployment(&mut self, address: Address)
        requires
            old(self).wf(),
        ensures
            final(self).wf(),
            *final(self) == (EvmCache { code_seeds: final(self).code_seeds, ..*old(self) }),
            final(self).code_seeds@ == old(self).code_seeds@.insert(
                address,
                CodeSeedState::Etched {
                    code_hash: match lookup(old(self).layers@.overlay, address) {
                        Some(account) => account.info.code_hash,
                        None => spec_keccak_empty(),
                    },
                },
            ),
    {
        let code_hash: B256 = match self.layers.overlay.get(&address) {
            Some(account) => account.info.code_hash,
            None => keccak_empty(),
        };
        self.code_seeds.insert(address, CodeSeedState::Etched { code_hash });
    }

    /// The account that code is copied to, as far as the overlay knows it.
    pub open spec fn known_target(self, target: Address) -> Option<InfoModel> {
        match lookup(self.layers@.overlay, target) {
            Some(account) => if account.account_state == AccountState::NotExisting {
                None
            } else {
                Some(account.info)
            },
            None => None,
        }
    }

    /// Whether the account that code is copied to has to be fetched.
    pub fn needs_target_fetch(&self, target: Address, missing_target: MissingTargetBehavior) -> (r:
        bool)
        ensures
            r == (missing_target == MissingTargetBehavior::Error && self.known_target(
                target,
            ) is None),
    {
        match missing_target {
            MissingTargetBehavior::Create => false,
            MissingTargetBehavior::Error => match self.layers.overlay.get(&target) {
                Some(account) => match account.account_state {
                    AccountState::NotExisting => true,
                    _ => false,
                },
                None => true,
            },
        }
    }

    /// The account that code is copied to: as the overlay knows it, else a fresh
    /// one where one may be created, else as it was fetched.
    fn target_account_info(
        &self,
        target: Address,
        missing_target: MissingTargetBehavior,
        fetched: Result<Option<AccountInfo>, String>,
    ) -> (r: Result<AccountInfo, CacheError>)
        ensures
            match self.known_target(target) {
                Some(info) => r matches Ok(found) && found@ == info,
                None => if missing_target == MissingTargetBehavior::Create {
                    r matches Ok(found) && found@ == InfoModel::fresh()
                } else {
                    match fetched {
                        Ok(Some(info)) => r matches Ok(found) && found@ == info@,
                        Ok(None) => r == Err::<AccountInfo, CacheError>(
                            CacheError::MissingTargetAccount { target },
                        ),
                        Err(details) => r == Err::<AccountInfo, CacheError>(
                            CacheError::TargetAccountFetch { target, details },
                        ),
                    }
                },
            },
    {
        if let Some(account) = self.layers.overlay.get(&target) {
            match account.account_state {
                AccountState::NotExisting => {},
                _ => {
                    return Ok(account.info.clone());
                },
            }
        }
        match missing_target {
            MissingTargetBehavior::Create => Ok(AccountInfo::default()),
            MissingTargetBehavior::Error => match fetched {
                Ok(Some(info)) => Ok(info),
                Ok(None) => Err(CacheError::MissingTargetAccount { target }),
                Err(details) => Err(CacheError::TargetAccountFetch { target, details }),
            },
        }
    }

    /// The account that code is copied to, or why there is none.
    pub open spec fn target_model(
        self,
        target: Address,
        missing_target: MissingTargetBehavior,
        fetched: Result<Option<AccountInfo>, String>,
    ) -> Result<InfoModel, CacheError> {
        match self.known_target(target) {
            Some(info) => Ok(info),
            None => if missing_target == MissingTargetBehavior::Create {
                Ok(InfoModel::fresh())
            } else {
                match fetched {
                    Ok(Some(info)) => Ok(info@),
                    Ok(None) => Err(CacheError::MissingTargetAccount { target }),
                    Err(details) => Err(CacheError::TargetAccountFetch { target, details }),
                }
            },
        }
    }

    /// Copies the code of one account over that of another, or says why not. The
    /// source's code has to be in the overlay. Where no account may be created
    /// the target has to have code already.
    pub open spec fn override_model(
        self,
        source: Address,
        target: Address,
        missing_target: MissingTargetBehavior,
        fetched: Result<Option<AccountInfo>, String>,
    ) -> Result<(InfoModel, Seq<u8>), CacheError> {
        match lookup(self.layers@.overlay, source) {
            Some(account) => match account.info.code {
                Some(code) => if code.len() == 0 {
                    Err(CacheError::MissingRuntimeCode { role: CodeRole::Source, address: source })
                } else {
                    match self.target_model(target, missing_target, fetched) {
                        Ok(info) => if missing_target == MissingTargetBehavior::Error
                            && !info.has_code() {
                            Err(
                                CacheError::MissingRuntimeCode {
                                    role: CodeRole::Target,
                                    address: target,
                                },
                            )
                        } else {
                            Ok((info, code))
                        },
                        Err(error) => Err(error),
                    }
                },
                None => Err(CacheError::MissingSourceBytecode { source }),
            },
            None => Err(CacheError::MissingSourceBytecode { source }),
        }
    }

    /// Copies the code of one account over that of another. Balance, nonce and
    /// storage of the target stay. `fetched` is the target as fetched, where it
    /// had to be.
    pub fn override_account_code_with_missing_target(
        &mut self,
        source: Address,
        target: Address,
        missing_target: MissingTargetBehavior,
        fetched: Result<Option<AccountInfo>, String>,
    ) -> (r: Result<(), CacheError>)
        requires
            old(self).wf(),
        ensures
            final(self).wf(),
            old(self).is_overridden(
                *final(self),
                source,
                target,
                missing_target,
                fetched,
                r,
            ),
    {
        let code: Bytecode = match self.layers.overlay.get(&source) {
            Some(account) => match &account.info.code {
                Some(code) => code.clone(),
                None => {
                    return Err(CacheError::MissingSourceBytecode { source });
                },
            },
            None => {
                return Err(CacheError::MissingSourceBytecode { source });
            },
        };
        if code.is_empty() {
            return Err(
                CacheError::MissingRuntimeCode { role: CodeRole::Source, address: source },
            );
        }
        let mut info: AccountInfo = match self.target_account_info(
            target,
            missing_target,
            fetched,
        ) {
            Ok(info) => info,
            Err(error) => {
                return Err(error);
            },
        };
        if missing_target == MissingTargetBehavior::Error && !info.has_code() {
            return Err(
                CacheError::MissingRuntimeCode { role: CodeRole::Target, address: target },
            );
        }
        let code_hash: B256 = code.hash_slow();
        info.code = Some(code);
        info.code_hash = code_hash;
        self.layers.write_account_info_everywhere(target, info);
        self.memo.mark_dirty(target);
        proof {
            lemma_marked_write_is_honest(
                old(self).memo,
                old(self).layers@,
                self.memo,
                self.layers@,
            );
        }
        self.code_seeds.insert(target, CodeSeedState::Etched { code_hash });
        Ok(())
    }

    /// Copies the code of one account over that of another, which has to have
    /// code already.
    pub fn override_account_code(
        &mut self,
        source: Address,
        target: Address,
        fetched: Result<Option<AccountInfo>, String>,
    ) -> (r: Result<(), CacheError>)
        requires
            old(self).wf(),
        ensures
            final(self).wf(),
            old(self).is_overridden(
                *final(self),
                source,
                target,
                MissingTargetBehavior::Error,
                fetched,
                r,
            ),
    {
        self.override_account_code_with_missing_target(
            source,
            target,
            MissingTargetBehavior::Error,
            fetched,
        )
    }

    /// Copies the code of one account over that of another, which is created
    /// where it is not in the overlay.
    pub fn override_or_create_account_code(&mut self, source: Address, target: Address) -> (r:
        Result<(), CacheError>)
        requires
            old(self).wf(),
        ensures
            final(self).wf(),
            old(self).is_overridden(
                *final(self),
                source,
                target,
                MissingTargetBehavior::Create,
                Ok(None),
                r,
            ),
    {
        self.override_account_code_with_missing_target(
            source,
            target,
            MissingTargetBehavior::Create,
            Ok(None),
        )
    }

    /// Whether code was copied as [`override_model`](Self::override_model) says.
    pub open spec fn is_overridden(
        self,
        after: Self,
        source: Address,
        target: Address,
        missing_target: MissingTargetBehavior,
        fetched: Result<Option<AccountInfo>, String>,
        r: Result<(), CacheError>,
    ) -> bool {
        match self.override_model(source, target, missing_target, fetched) {
            Err(error) => r == Err::<(), CacheError>(error) && after == self,
            Ok((info, code)) => {
                &&& r is Ok
                &&& after.layers@ == self.layers@.with_info_everywhere(
                    target,
                    with_code(info, code),
                )
                &&& after.code_seeds@ == self.code_seeds@.insert(
                    target,
                    CodeSeedState::Etched { code_hash: hash_of(code) },
                )
                &&& after == (EvmCache {
                    layers: after.layers,
                    memo: after.memo,
                    code_seeds: after.code_seeds,
                    ..self
                })
            },
        }
    }

    /// Checks that an account has runtime code.
    pub fn require_contract_target(
        &self,
        target: Address,
        fetched: Result<Option<AccountInfo>, String>,
    ) -> (r: Result<(), CacheError>)
        ensures
            r == match self.target_model(target, MissingTargetBehavior::Error, fetched) {
                Err(error) => Err::<(), CacheError>(error),
                Ok(info) => if info.has_code() {
                    Ok(())
                } else {
                    Err(
                        CacheError::MissingRuntimeCode { role: CodeRole::Target, address: target },
                    )
                },
            },
    {
        match self.target_account_info(target, MissingTargetBehavior::Error, fetched) {
            Err(error) => Err(error),
            Ok(info) => if info.has_code() {
                Ok(())
            } else {
                Err(CacheError::MissingRuntimeCode { role: CodeRole::Target, address: target })
            },
        }
    }
}

} // verus!
